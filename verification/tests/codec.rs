use vmmd::{decode, encode, format_dotted, hexify_ipv4_address, unhexify_ipv4_address};
use vmmd::{AddressDecodeError, HookError, Ipv4Address};

// hexify

#[test]
fn lib_test_hexify_ipv4_address_happy_path_1() {
    let address = "10.10.10.10";
    let result = String::from("0a0a0a0a");

    assert_eq!(Ok(result), hexify_ipv4_address(address));
}

#[test]
fn lib_test_hexify_ipv4_address_happy_path_2() {
    let address = "192.10.10.11";
    let result = String::from("c00a0a0b");

    assert_eq!(Ok(result), hexify_ipv4_address(address));
}

#[test]
fn test_hexify_ipv4_address_invalid_address_1() {
    let address = "300.10.10.10";

    assert_eq!(
        Err(String::from("300.10.10.10 not valid ipv4 address")),
        hexify_ipv4_address(address)
    );
}

#[test]
fn test_hexify_ipv4_address_invalid_address_2() {
    let address = "this is not an ip";

    assert_eq!(
        Err(String::from("this is not an ip not valid ipv4 address")),
        hexify_ipv4_address(address)
    );
}

#[test]
fn test_hexify_ipv4_address_ipv4_ipv6() {
    let address = "::1";

    assert_eq!(
        Err(String::from("::1 not valid ipv4 address")),
        hexify_ipv4_address(address)
    );
}

// unhexify

#[test]
fn lib_test_unhexify_ipv4_address_happy_path_1() {
    let address = "0a0a0a0a";
    let result = String::from("10.10.10.10");

    assert_eq!(Ok(result), unhexify_ipv4_address(address));
}

#[test]
fn lib_test_unhexify_ipv4_address_happy_path_2() {
    let address = "c00a0a0b";
    let result = String::from("192.10.10.11");

    assert_eq!(Ok(result), unhexify_ipv4_address(address));
}

#[test]
fn lib_test_unhexify_ipv4_address_invalid_address_1() {
    let address = "not hex value";

    assert_eq!(
        Err(String::from("unable to decode input")),
        unhexify_ipv4_address(address)
    );
}

#[test]
fn lib_test_unhexify_ipv4_address_invalid_address_2() {
    let address = "0a0a0a0a0a";

    assert_eq!(
        Err(String::from(
            "0a0a0a0a0a does not decode to a 4 byte address"
        )),
        unhexify_ipv4_address(address)
    );
}

// the typed codec used by the configurator

#[test]
fn hooks_test_hexify_ipv4_address_happy_path_1() {
    let address = Ipv4Address::new(10, 10, 10, 10);
    let result = String::from("0a0a0a0a");

    assert_eq!(result, encode(&address));
}

#[test]
fn hooks_test_hexify_ipv4_address_happy_path_2() {
    let address = Ipv4Address::new(192, 10, 10, 11);
    let result = String::from("c00a0a0b");

    assert_eq!(result, encode(&address));
}

#[test]
fn hooks_test_unhexify_ipv4_address_happy_path_1() {
    let address = "0a0a0a0a";
    let result = Ipv4Address::new(10, 10, 10, 10);

    assert_eq!(result, decode(address).unwrap());
}

#[test]
fn hooks_test_unhexify_ipv4_address_happy_path_2() {
    let address = "c00a0a0b";
    let result = Ipv4Address::new(192, 10, 10, 11);

    assert_eq!(result, decode(address).unwrap());
}

#[test]
fn hooks_test_unhexify_ipv4_address_invalid_address_1() {
    let address = "not hex value";

    match decode(address) {
        Ok(_) => panic!("error expected"),
        Err(kind) => {
            let err = HookError::InvalidAddressEncoding {
                token: String::from(address),
                kind,
            };
            assert_eq!("unable to decode input", err.message());
        }
    }
}

#[test]
fn hooks_test_unhexify_ipv4_address_invalid_address_2() {
    let address = "0a0a0a0a0a";

    match decode(address) {
        Ok(_) => panic!("error expected"),
        Err(kind) => {
            let err = HookError::InvalidAddressEncoding {
                token: String::from(address),
                kind,
            };
            assert_eq!(
                "0a0a0a0a0a does not decode to a 4 byte address",
                err.message()
            );
        }
    }
}

// round trips and edges

#[test]
fn test_round_trip_samples() {
    let samples = vec![
        Ipv4Address::new(0, 0, 0, 0),
        Ipv4Address::new(255, 255, 255, 255),
        Ipv4Address::new(1, 2, 3, 4),
        Ipv4Address::new(10, 10, 10, 10),
        Ipv4Address::new(192, 10, 10, 11),
        Ipv4Address::new(127, 0, 0, 1),
    ];
    for address in samples {
        let token = encode(&address);
        assert_eq!(token.len(), 8);
        assert_eq!(Ok(address), decode(token.as_str()));
    }
}

#[test]
fn test_decode_accepts_uppercase() {
    assert_eq!(Ok(Ipv4Address::new(10, 10, 10, 10)), decode("0A0A0A0A"));
    assert_eq!(
        Ok(String::from("192.10.10.11")),
        unhexify_ipv4_address("C00A0A0B")
    );
}

#[test]
fn test_decode_odd_length_is_invalid_encoding() {
    assert_eq!(Err(AddressDecodeError::InvalidEncoding), decode("0a0a0a0a0"));
    assert_eq!(
        Err(String::from("unable to decode input")),
        unhexify_ipv4_address("0a0a0a0a0")
    );
}

#[test]
fn test_decode_short_token_is_wrong_length() {
    assert_eq!(Err(AddressDecodeError::WrongLength), decode("0a0a"));
    assert_eq!(
        Err(String::from("0a0a does not decode to a 4 byte address")),
        unhexify_ipv4_address("0a0a")
    );
}

#[test]
fn test_decode_empty_token_is_wrong_length() {
    assert_eq!(Err(AddressDecodeError::WrongLength), decode(""));
    assert_eq!(
        Err(String::from(" does not decode to a 4 byte address")),
        unhexify_ipv4_address("")
    );
}

#[test]
fn test_format_dotted_edges() {
    assert_eq!("0.0.0.0", format_dotted(&Ipv4Address::new(0, 0, 0, 0)));
    assert_eq!(
        "255.255.255.255",
        format_dotted(&Ipv4Address::new(255, 255, 255, 255))
    );
    assert_eq!("1.20.3.104", format_dotted(&Ipv4Address::new(1, 20, 3, 104)));
}

#[test]
fn test_hexify_rejects_non_canonical_forms() {
    assert!(hexify_ipv4_address("10.010.10.10").is_err());
    assert!(hexify_ipv4_address("10.10.10").is_err());
    assert!(hexify_ipv4_address("10.10.10.10.10").is_err());
    assert!(hexify_ipv4_address("256.1.1.1").is_err());
    assert!(hexify_ipv4_address("").is_err());
    assert!(hexify_ipv4_address("10.10.10.").is_err());
    assert!(hexify_ipv4_address(".10.10.10.10").is_err());
}

#[test]
fn test_hexify_accepts_edges() {
    assert_eq!(Ok(String::from("00000000")), hexify_ipv4_address("0.0.0.0"));
    assert_eq!(
        Ok(String::from("ffffffff")),
        hexify_ipv4_address("255.255.255.255")
    );
}
