//! The address codec: a 4-octet IPv4 address, its 8-digit lowercase
//! hexadecimal token, and its dotted-decimal text form.
//!
//! Encoding is total; decoding distinguishes malformed hexadecimal input
//! from input of the wrong length, since the two are different operator
//! mistakes. Decoding accepts both digit cases, encoding always emits
//! lowercase, and decoding an encoded address gives the address back.

use vstd::arithmetic::div_mod::{lemma_fundamental_div_mod, lemma_fundamental_div_mod_converse};
use vstd::prelude::*;

use crate::text::split_char;

verus! {

/// An IPv4 address as four ordered octets, most significant first.
#[derive(Clone, Copy, Debug, PartialEq, Eq, Structural)]
pub struct Ipv4Address {
    pub o0: u8,
    pub o1: u8,
    pub o2: u8,
    pub o3: u8,
}

impl View for Ipv4Address {
    type V = Seq<u8>;

    open spec fn view(&self) -> Seq<u8> {
        seq![self.o0, self.o1, self.o2, self.o3]
    }
}

impl Ipv4Address {
    pub fn new(o0: u8, o1: u8, o2: u8, o3: u8) -> (a: Ipv4Address)
        ensures
            a == (Ipv4Address { o0, o1, o2, o3 }),
    {
        Ipv4Address { o0, o1, o2, o3 }
    }
}

/// Why a hexadecimal token failed to decode: it is not valid hexadecimal
/// at all, or it is valid but does not name exactly four bytes.
#[derive(Clone, Copy, Debug, PartialEq, Eq, Structural)]
pub enum AddressDecodeError {
    InvalidEncoding,
    WrongLength,
}

/// The lowercase hexadecimal digit for a value below 16.
pub open spec fn hex_digit_char(v: u8) -> char {
    if v == 0 {
        '0'
    } else if v == 1 {
        '1'
    } else if v == 2 {
        '2'
    } else if v == 3 {
        '3'
    } else if v == 4 {
        '4'
    } else if v == 5 {
        '5'
    } else if v == 6 {
        '6'
    } else if v == 7 {
        '7'
    } else if v == 8 {
        '8'
    } else if v == 9 {
        '9'
    } else if v == 10 {
        'a'
    } else if v == 11 {
        'b'
    } else if v == 12 {
        'c'
    } else if v == 13 {
        'd'
    } else if v == 14 {
        'e'
    } else {
        'f'
    }
}

/// The value of a hexadecimal digit, either case, or `None` for any other
/// character.
pub open spec fn hex_char_value(c: char) -> Option<u8> {
    if 48 <= c as u32 && c as u32 <= 57 {
        Some((c as u32 - 48) as u8)
    } else if 97 <= c as u32 && c as u32 <= 102 {
        Some((c as u32 - 87) as u8)
    } else if 65 <= c as u32 && c as u32 <= 70 {
        Some((c as u32 - 55) as u8)
    } else {
        None
    }
}

/// Two lowercase hexadecimal digits of a byte, high nibble first.
pub open spec fn byte_hex(b: u8) -> Seq<char> {
    seq![hex_digit_char(b / 16), hex_digit_char(b % 16)]
}

/// The 8-character lowercase hexadecimal token of an address.
pub open spec fn hex_token_of(a: Ipv4Address) -> Seq<char> {
    byte_hex(a.o0) + byte_hex(a.o1) + byte_hex(a.o2) + byte_hex(a.o3)
}

/// Every character is a hexadecimal digit.
pub open spec fn all_hex(s: Seq<char>) -> bool {
    forall|i: int| 0 <= i < s.len() ==> hex_char_value(s[i]) is Some
}

/// The `i`-th byte named by a token of hexadecimal digit pairs.
pub open spec fn token_byte(s: Seq<char>, i: int) -> u8 {
    (hex_char_value(s[2 * i])->0 * 16 + hex_char_value(s[2 * i + 1])->0) as u8
}

/// What decoding a token yields. A token with a digit that is not
/// hexadecimal, or with an odd number of digits, is not an encoding at
/// all; a well-formed token of any length other than 8 names the wrong
/// number of bytes.
pub open spec fn decode_spec(s: Seq<char>) -> Result<Ipv4Address, AddressDecodeError> {
    if s.len() % 2 != 0 || !all_hex(s) {
        Err(AddressDecodeError::InvalidEncoding)
    } else if s.len() != 8 {
        Err(AddressDecodeError::WrongLength)
    } else {
        Ok(
            Ipv4Address {
                o0: token_byte(s, 0),
                o1: token_byte(s, 1),
                o2: token_byte(s, 2),
                o3: token_byte(s, 3),
            },
        )
    }
}

/// The canonical decimal digits of an octet: one to three digits, no
/// leading zero.
pub open spec fn decimal_of_octet(b: u8) -> Seq<char> {
    if b < 10 {
        seq![hex_digit_char(b)]
    } else if b < 100 {
        seq![hex_digit_char(b / 10), hex_digit_char(b % 10)]
    } else {
        seq![hex_digit_char(b / 100), hex_digit_char((b / 10) % 10), hex_digit_char(b % 10)]
    }
}

/// The dotted-decimal text of an address.
pub open spec fn dotted_of(a: Ipv4Address) -> Seq<char> {
    decimal_of_octet(a.o0) + seq!['.'] + decimal_of_octet(a.o1) + seq!['.'] + decimal_of_octet(
        a.o2,
    ) + seq!['.'] + decimal_of_octet(a.o3)
}

/// A decimal digit.
pub open spec fn is_dec_digit(c: char) -> bool {
    48 <= c as u32 && c as u32 <= 57
}

/// The value of a decimal digit.
pub open spec fn dec_val(c: char) -> int {
    c as u32 - 48
}

/// The number named by one to three decimal digits.
pub open spec fn field_num(f: Seq<char>) -> int {
    if f.len() == 1 {
        dec_val(f[0])
    } else if f.len() == 2 {
        10 * dec_val(f[0]) + dec_val(f[1])
    } else {
        100 * dec_val(f[0]) + 10 * dec_val(f[1]) + dec_val(f[2])
    }
}

/// The octet named by one dotted-decimal field, if the field is
/// well-formed: one to three decimal digits, no leading zero, value at
/// most 255.
pub open spec fn octet_value(f: Seq<char>) -> Option<u8> {
    if 1 <= f.len() <= 3 && (forall|i: int| 0 <= i < f.len() ==> is_dec_digit(f[i])) && (f.len()
        > 1 ==> f[0] != '0') && field_num(f) <= 255 {
        Some(field_num(f) as u8)
    } else {
        None
    }
}

/// The address named by a dotted-decimal string: exactly four
/// dot-separated well-formed octet fields.
pub open spec fn dotted_value(s: Seq<char>) -> Option<Ipv4Address> {
    let fs = split_char(s, '.');
    if fs.len() == 4 && octet_value(fs[0]) is Some && octet_value(fs[1]) is Some && octet_value(
        fs[2],
    ) is Some && octet_value(fs[3]) is Some {
        Some(
            Ipv4Address {
                o0: octet_value(fs[0])->0,
                o1: octet_value(fs[1])->0,
                o2: octet_value(fs[2])->0,
                o3: octet_value(fs[3])->0,
            },
        )
    } else {
        None
    }
}

/// Each digit below 16 decodes back to itself.
pub proof fn lemma_hex_digit_char_value(v: u8)
    requires
        v < 16,
    ensures
        hex_char_value(hex_digit_char(v)) == Some(v),
{
}

/// Decoding inverts encoding: the hexadecimal token of any address decodes
/// back to that address, so every encoder output is valid decoder input.
pub proof fn lemma_decode_encode_round_trip(a: Ipv4Address)
    ensures
        decode_spec(hex_token_of(a)) == Ok::<Ipv4Address, AddressDecodeError>(a),
{
    let t = hex_token_of(a);
    assert(t.len() == 8);
    assert(t[0] == hex_digit_char(a.o0 / 16) && t[1] == hex_digit_char(a.o0 % 16) && t[2]
        == hex_digit_char(a.o1 / 16) && t[3] == hex_digit_char(a.o1 % 16) && t[4]
        == hex_digit_char(a.o2 / 16) && t[5] == hex_digit_char(a.o2 % 16) && t[6]
        == hex_digit_char(a.o3 / 16) && t[7] == hex_digit_char(a.o3 % 16));
    assert forall|i: int| 0 <= i < t.len() implies hex_char_value(t[i]) is Some by {
        lemma_hex_digit_char_value(octet_at(a, i / 2) / 16);
        lemma_hex_digit_char_value(octet_at(a, i / 2) % 16);
    }
    lemma_fundamental_div_mod(a.o0 as int, 16);
    lemma_fundamental_div_mod(a.o1 as int, 16);
    lemma_fundamental_div_mod(a.o2 as int, 16);
    lemma_fundamental_div_mod(a.o3 as int, 16);
    assert(token_byte(t, 0) == a.o0) by {
        lemma_hex_digit_char_value(a.o0 / 16);
        lemma_hex_digit_char_value(a.o0 % 16);
    }
    assert(token_byte(t, 1) == a.o1) by {
        lemma_hex_digit_char_value(a.o1 / 16);
        lemma_hex_digit_char_value(a.o1 % 16);
    }
    assert(token_byte(t, 2) == a.o2) by {
        lemma_hex_digit_char_value(a.o2 / 16);
        lemma_hex_digit_char_value(a.o2 % 16);
    }
    assert(token_byte(t, 3) == a.o3) by {
        lemma_hex_digit_char_value(a.o3 / 16);
        lemma_hex_digit_char_value(a.o3 % 16);
    }
}

proof fn lemma_digit_char_props(v: u8)
    requires
        v < 10,
    ensures
        is_dec_digit(hex_digit_char(v)),
        dec_val(hex_digit_char(v)) == v,
        v > 0 ==> hex_digit_char(v) != '0',
{
}

/// The canonical decimal field of an octet is well-formed — one to three
/// decimal digits, no leading zero — and names that octet.
pub proof fn lemma_decimal_of_octet_value(b: u8)
    ensures
        octet_value(decimal_of_octet(b)) == Some(b),
        forall|k: int|
            0 <= k < decimal_of_octet(b).len() ==> is_dec_digit(#[trigger] decimal_of_octet(b)[k]),
{
    let f = decimal_of_octet(b);
    if b < 10 {
        lemma_digit_char_props(b);
        assert(field_num(f) == b);
    } else if b < 100 {
        lemma_digit_char_props(b / 10);
        lemma_digit_char_props(b % 10);
        lemma_fundamental_div_mod(b as int, 10);
        assert(field_num(f) == 10 * (b / 10) + (b % 10));
    } else {
        lemma_digit_char_props(b / 100);
        lemma_digit_char_props((b / 10) % 10);
        lemma_digit_char_props(b % 10);
        assert(100 * (b / 100) + 10 * ((b / 10) % 10) + (b % 10) == b) by (bit_vector);
    }
}

/// The dotted projection round-trips as well: the canonical
/// dotted-decimal text of any address names that address again, so every
/// formatter output is valid parser input.
pub proof fn lemma_dotted_round_trip(a: Ipv4Address)
    ensures
        dotted_value(dotted_of(a)) == Some(a),
{
    let d0 = decimal_of_octet(a.o0);
    let d1 = decimal_of_octet(a.o1);
    let d2 = decimal_of_octet(a.o2);
    let d3 = decimal_of_octet(a.o3);
    lemma_decimal_of_octet_value(a.o0);
    lemma_decimal_of_octet_value(a.o1);
    lemma_decimal_of_octet_value(a.o2);
    lemma_decimal_of_octet_value(a.o3);
    let s = dotted_of(a);
    let rest2 = d2 + seq!['.'] + d3;
    let rest1 = d1 + seq!['.'] + rest2;
    assert(s =~= d0 + seq!['.'] + rest1);
    crate::text::lemma_split_prepend(d0, rest1, '.');
    crate::text::lemma_split_prepend(d1, rest2, '.');
    crate::text::lemma_split_prepend(d2, d3, '.');
    crate::text::lemma_split_single(d3, '.');
    assert(crate::text::split_char(s, '.') =~= seq![d0, d1, d2, d3]);
}

proof fn lemma_dec_digit_inverse(c: char)
    requires
        is_dec_digit(c),
    ensures
        hex_digit_char(dec_val(c) as u8) == c,
{
}

/// A well-formed dotted-decimal field is the canonical decimal text of
/// the octet it names.
proof fn lemma_field_canonical(f: Seq<char>)
    requires
        octet_value(f) is Some,
    ensures
        decimal_of_octet(octet_value(f)->0) == f,
{
    let v = field_num(f);
    let b = octet_value(f)->0;
    if f.len() == 1 {
        lemma_dec_digit_inverse(f[0]);
        assert(decimal_of_octet(b) =~= f);
    } else if f.len() == 2 {
        let e0 = dec_val(f[0]);
        let e1 = dec_val(f[1]);
        lemma_dec_digit_inverse(f[0]);
        lemma_dec_digit_inverse(f[1]);
        assert(e0 >= 1);
        lemma_fundamental_div_mod_converse(v, 10, e0, e1);
        assert(decimal_of_octet(b) =~= f);
    } else {
        let e0 = dec_val(f[0]);
        let e1 = dec_val(f[1]);
        let e2 = dec_val(f[2]);
        lemma_dec_digit_inverse(f[0]);
        lemma_dec_digit_inverse(f[1]);
        lemma_dec_digit_inverse(f[2]);
        assert(e0 >= 1);
        lemma_fundamental_div_mod_converse(v, 100, e0, 10 * e1 + e2);
        lemma_fundamental_div_mod_converse(v, 10, 10 * e0 + e1, e2);
        lemma_fundamental_div_mod_converse(10 * e0 + e1, 10, e0, e1);
        assert(decimal_of_octet(b) =~= f);
    }
}

/// Parsing is the exact inverse of formatting: only the canonical
/// dotted-decimal text of an address names it, so each address has one
/// dotted form and each dotted form one address.
#[verifier::rlimit(60)]
pub proof fn lemma_dotted_sound(s: Seq<char>, a: Ipv4Address)
    requires
        dotted_value(s) == Some(a),
    ensures
        s == dotted_of(a),
{
    let fs = split_char(s, '.');
    lemma_field_canonical(fs[0]);
    lemma_field_canonical(fs[1]);
    lemma_field_canonical(fs[2]);
    lemma_field_canonical(fs[3]);
    crate::text::lemma_split_join(s, '.');
    let t1 = fs.drop_first();
    let t2 = t1.drop_first();
    let t3 = t2.drop_first();
    assert(t1[0] == fs[1] && t2[0] == fs[2] && t3[0] == fs[3]);
    assert(t3.len() == 1);
    assert(crate::text::join_char(t3, '.') == fs[3]);
    assert(crate::text::join_char(t2, '.') == fs[2] + seq!['.'] + fs[3]);
    assert(crate::text::join_char(t1, '.') == fs[1] + seq!['.'] + (fs[2] + seq!['.'] + fs[3]));
    assert(crate::text::join_char(fs, '.') == fs[0] + seq!['.'] + (fs[1] + seq!['.'] + (fs[2]
        + seq!['.'] + fs[3])));
    assert(s =~= dotted_of(a));
}

/// The octets of an address in order, for stating facts per digit pair.
pub open spec fn octet_at(a: Ipv4Address, i: int) -> u8 {
    if i == 0 {
        a.o0
    } else if i == 1 {
        a.o1
    } else if i == 2 {
        a.o2
    } else {
        a.o3
    }
}

/// The one-character string of the lowercase hexadecimal digit for `v`.
fn hex_digit_str(v: u8) -> (r: &'static str)
    requires
        v < 16,
    ensures
        r@ == seq![hex_digit_char(v)],
{
    match v {
        0 => {
            proof {
                reveal_strlit("0");
                assert("0"@ =~= seq![hex_digit_char(0u8)]);
            }
            "0"
        },
        1 => {
            proof {
                reveal_strlit("1");
                assert("1"@ =~= seq![hex_digit_char(1u8)]);
            }
            "1"
        },
        2 => {
            proof {
                reveal_strlit("2");
                assert("2"@ =~= seq![hex_digit_char(2u8)]);
            }
            "2"
        },
        3 => {
            proof {
                reveal_strlit("3");
                assert("3"@ =~= seq![hex_digit_char(3u8)]);
            }
            "3"
        },
        4 => {
            proof {
                reveal_strlit("4");
                assert("4"@ =~= seq![hex_digit_char(4u8)]);
            }
            "4"
        },
        5 => {
            proof {
                reveal_strlit("5");
                assert("5"@ =~= seq![hex_digit_char(5u8)]);
            }
            "5"
        },
        6 => {
            proof {
                reveal_strlit("6");
                assert("6"@ =~= seq![hex_digit_char(6u8)]);
            }
            "6"
        },
        7 => {
            proof {
                reveal_strlit("7");
                assert("7"@ =~= seq![hex_digit_char(7u8)]);
            }
            "7"
        },
        8 => {
            proof {
                reveal_strlit("8");
                assert("8"@ =~= seq![hex_digit_char(8u8)]);
            }
            "8"
        },
        9 => {
            proof {
                reveal_strlit("9");
                assert("9"@ =~= seq![hex_digit_char(9u8)]);
            }
            "9"
        },
        10 => {
            proof {
                reveal_strlit("a");
                assert("a"@ =~= seq![hex_digit_char(10u8)]);
            }
            "a"
        },
        11 => {
            proof {
                reveal_strlit("b");
                assert("b"@ =~= seq![hex_digit_char(11u8)]);
            }
            "b"
        },
        12 => {
            proof {
                reveal_strlit("c");
                assert("c"@ =~= seq![hex_digit_char(12u8)]);
            }
            "c"
        },
        13 => {
            proof {
                reveal_strlit("d");
                assert("d"@ =~= seq![hex_digit_char(13u8)]);
            }
            "d"
        },
        14 => {
            proof {
                reveal_strlit("e");
                assert("e"@ =~= seq![hex_digit_char(14u8)]);
            }
            "e"
        },
        _ => {
            proof {
                reveal_strlit("f");
                assert("f"@ =~= seq![hex_digit_char(15u8)]);
            }
            "f"
        },
    }
}

/// Encode an address as its 8-digit lowercase hexadecimal token.
pub fn encode(addr: &Ipv4Address) -> (t: String)
    ensures
        t@ == hex_token_of(*addr),
{
    let mut t = String::new();
    t.append(hex_digit_str(addr.o0 / 16));
    t.append(hex_digit_str(addr.o0 % 16));
    t.append(hex_digit_str(addr.o1 / 16));
    t.append(hex_digit_str(addr.o1 % 16));
    t.append(hex_digit_str(addr.o2 / 16));
    t.append(hex_digit_str(addr.o2 % 16));
    t.append(hex_digit_str(addr.o3 / 16));
    t.append(hex_digit_str(addr.o3 % 16));
    proof {
        assert(t@ =~= hex_token_of(*addr));
    }
    t
}

/// The value of a hexadecimal digit character, either case.
pub fn hex_value(c: char) -> (r: Option<u8>)
    ensures
        r == hex_char_value(c),
{
    let u = c as u32;
    if 48 <= u && u <= 57 {
        Some((u - 48) as u8)
    } else if 97 <= u && u <= 102 {
        Some((u - 87) as u8)
    } else if 65 <= u && u <= 70 {
        Some((u - 55) as u8)
    } else {
        None
    }
}

/// Decode an 8-digit hexadecimal token into an address. Fails with
/// `InvalidEncoding` when the token holds a non-hexadecimal character or
/// an odd number of digits, and with `WrongLength` when it is well-formed
/// hexadecimal for other than four bytes.
pub fn decode(token: &str) -> (r: Result<Ipv4Address, AddressDecodeError>)
    ensures
        r == decode_spec(token@),
{
    let n = token.unicode_len();
    let mut i: usize = 0;
    while i < n
        invariant
            n == token@.len(),
            0 <= i <= n,
            forall|k: int| 0 <= k < i ==> hex_char_value(token@[k]) is Some,
        decreases n - i,
    {
        if hex_value(token.get_char(i)).is_none() {
            return Err(AddressDecodeError::InvalidEncoding);
        }
        i = i + 1;
    }
    if n % 2 != 0 {
        return Err(AddressDecodeError::InvalidEncoding);
    }
    if n != 8 {
        return Err(AddressDecodeError::WrongLength);
    }
    let o0 = pair_value(token, 0);
    let o1 = pair_value(token, 1);
    let o2 = pair_value(token, 2);
    let o3 = pair_value(token, 3);
    Ok(Ipv4Address { o0, o1, o2, o3 })
}

/// The byte named by the `i`-th digit pair of a well-formed token.
fn pair_value(token: &str, i: usize) -> (b: u8)
    requires
        token@.len() == 8,
        all_hex(token@),
        i < 4,
    ensures
        b == token_byte(token@, i as int),
{
    let hi = match hex_value(token.get_char(2 * i)) {
        Some(v) => v,
        None => 0,
    };
    let lo = match hex_value(token.get_char(2 * i + 1)) {
        Some(v) => v,
        None => 0,
    };
    hi * 16 + lo
}

/// Append the canonical decimal digits of an octet.
fn push_octet(t: &mut String, b: u8)
    ensures
        final(t)@ == old(t)@ + decimal_of_octet(b),
{
    if b >= 100 {
        t.append(hex_digit_str(b / 100));
        t.append(hex_digit_str((b / 10) % 10));
        t.append(hex_digit_str(b % 10));
    } else if b >= 10 {
        t.append(hex_digit_str(b / 10));
        t.append(hex_digit_str(b % 10));
    } else {
        t.append(hex_digit_str(b));
    }
    proof {
        assert(t@ =~= old(t)@ + decimal_of_octet(b));
    }
}

/// Format an address in dotted-decimal form.
pub fn format_dotted(addr: &Ipv4Address) -> (t: String)
    ensures
        t@ == dotted_of(*addr),
{
    proof {
        reveal_strlit(".");
        assert("."@ =~= seq!['.']);
    }
    let mut t = String::new();
    push_octet(&mut t, addr.o0);
    t.append(".");
    push_octet(&mut t, addr.o1);
    t.append(".");
    push_octet(&mut t, addr.o2);
    t.append(".");
    push_octet(&mut t, addr.o3);
    proof {
        assert(t@ =~= dotted_of(*addr));
    }
    t
}

/// The octet named by one dotted-decimal field, if well-formed.
fn octet_field_value(f: &str) -> (r: Option<u8>)
    ensures
        r == octet_value(f@),
{
    let n = f.unicode_len();
    if n < 1 || n > 3 {
        return None;
    }
    let mut i: usize = 0;
    while i < n
        invariant
            n == f@.len(),
            0 <= i <= n,
            forall|k: int| 0 <= k < i ==> is_dec_digit(f@[k]),
        decreases n - i,
    {
        let u = f.get_char(i) as u32;
        if u < 48 || u > 57 {
            return None;
        }
        i = i + 1;
    }
    if n > 1 && f.get_char(0) == '0' {
        return None;
    }
    let mut v: u32 = 0;
    let mut k: usize = 0;
    while k < n
        invariant
            n == f@.len(),
            1 <= n <= 3,
            0 <= k <= n,
            forall|j: int| 0 <= j < n ==> is_dec_digit(f@[j]),
            v == spec_prefix_num(f@, k as int),
            k == 0 ==> v == 0,
            k == 1 ==> v <= 9,
            k == 2 ==> v <= 99,
            k == 3 ==> v <= 999,
        decreases n - k,
    {
        proof {
            assert(is_dec_digit(f@[k as int]));
        }
        let u = f.get_char(k) as u32;
        v = v * 10 + (u - 48);
        k = k + 1;
    }
    proof {
        lemma_prefix_num_is_field_num(f@);
    }
    if v > 255 {
        None
    } else {
        Some(v as u8)
    }
}

/// The number named by the first `k` digits of a field.
pub open spec fn spec_prefix_num(f: Seq<char>, k: int) -> int
    decreases k,
{
    if k <= 0 {
        0
    } else {
        10 * spec_prefix_num(f, k - 1) + dec_val(f[k - 1])
    }
}

proof fn lemma_prefix_num_is_field_num(f: Seq<char>)
    requires
        1 <= f.len() <= 3,
    ensures
        spec_prefix_num(f, f.len() as int) == field_num(f),
{
    assert(spec_prefix_num(f, 0) == 0);
    assert(spec_prefix_num(f, 1) == dec_val(f[0]));
    if f.len() >= 2 {
        assert(spec_prefix_num(f, 2) == 10 * spec_prefix_num(f, 1) + dec_val(f[1]));
    }
    if f.len() == 3 {
        assert(spec_prefix_num(f, 3) == 10 * spec_prefix_num(f, 2) + dec_val(f[2]));
    }
}

/// Parse a dotted-decimal string into an address. Exactly the canonical
/// forms are accepted: four dot-separated fields of one to three decimal
/// digits, no leading zeros, each at most 255.
pub fn parse_dotted(s: &str) -> (r: Option<Ipv4Address>)
    ensures
        r == dotted_value(s@),
{
    let fields = crate::text::split(s, '.');
    if fields.len() != 4 {
        return None;
    }
    proof {
        assert(fields.deep_view()[0] == fields@[0]@);
        assert(fields.deep_view()[1] == fields@[1]@);
        assert(fields.deep_view()[2] == fields@[2]@);
        assert(fields.deep_view()[3] == fields@[3]@);
    }
    let v0 = octet_field_value(fields[0].as_str());
    let v1 = octet_field_value(fields[1].as_str());
    let v2 = octet_field_value(fields[2].as_str());
    let v3 = octet_field_value(fields[3].as_str());
    match (v0, v1, v2, v3) {
        (Some(o0), Some(o1), Some(o2), Some(o3)) => Some(Ipv4Address { o0, o1, o2, o3 }),
        _ => None,
    }
}

/// Turn a dotted-decimal IPv4 address into its 8-digit lowercase
/// hexadecimal token. Exactly the strings that name an address are
/// accepted; anything else is reported back with the offending text.
pub fn hexify_ipv4_address(v4_address: &str) -> (r: Result<String, String>)
    ensures
        match dotted_value(v4_address@) {
            Some(a) => r matches Ok(t) && t@ == hex_token_of(a),
            None => r matches Err(m) && m@ == v4_address@ + " not valid ipv4 address"@,
        },
{
    match parse_dotted(v4_address) {
        Some(a) => Ok(encode(&a)),
        None => {
            let mut m = v4_address.to_owned();
            m.append(" not valid ipv4 address");
            Err(m)
        },
    }
}

/// Turn an 8-digit hexadecimal token into a dotted-decimal IPv4 address.
/// A token that is not well-formed hexadecimal is reported as
/// undecodable; a well-formed token of the wrong length is reported with
/// the offending text, since the two mistakes are diagnosed differently.
pub fn unhexify_ipv4_address(hex_address: &str) -> (r: Result<String, String>)
    ensures
        match decode_spec(hex_address@) {
            Ok(a) => r matches Ok(s) && s@ == dotted_of(a),
            Err(AddressDecodeError::InvalidEncoding) => r matches Err(m) && m@
                == "unable to decode input"@,
            Err(AddressDecodeError::WrongLength) => r matches Err(m) && m@ == hex_address@
                + " does not decode to a 4 byte address"@,
        },
{
    match decode(hex_address) {
        Ok(a) => Ok(format_dotted(&a)),
        Err(AddressDecodeError::InvalidEncoding) => Err(
            String::from_str("unable to decode input"),
        ),
        Err(AddressDecodeError::WrongLength) => {
            let mut m = hex_address.to_owned();
            m.append(" does not decode to a 4 byte address");
            Err(m)
        },
    }
}

} // verus!
