use vmmd::{
    plan_for_interface, select, should_configure, ActionOutcome, Devices, Domain, FailureReason,
    HookAction, HookDirective, HookError, HookRun, Interface, InterfaceMAC, InterfaceTarget,
    Ipv4Address, KernelSetting,
};

fn sample_domain(devs: Vec<&str>) -> Domain {
    Domain {
        name: String::from("name"),
        devices: Some(Devices {
            interfaces: Some(
                devs.into_iter()
                    .map(|dev| Interface {
                        mac: InterfaceMAC {
                            address: String::from("52:54:00:00:00:01"),
                        },
                        target: InterfaceTarget {
                            dev: String::from(dev),
                        },
                    })
                    .collect(),
            ),
        }),
    }
}

/// Drive a run to its end, reporting success for every action, and
/// collect the actions in the order they were handed out.
fn run_all_succeeding(selected: Vec<String>) -> (Vec<HookAction>, Result<(), HookError>) {
    let mut run = HookRun::new(selected);
    let mut actions = Vec::new();
    loop {
        match run.next_directive() {
            HookDirective::Finish(result) => return (actions, result),
            HookDirective::Perform(action) => {
                actions.push(action);
                let done = run.report(ActionOutcome::Succeeded);
                assert!(done.is_none());
            }
        }
    }
}

// selection

#[test]
fn test_select_keeps_only_managed_names_in_order() {
    let names = vec!["vmmd-0a0a0a0a-x", "eth0", "vmmd-c00a0a0b-y"];
    let selected = select(&names);

    assert_eq!(selected, vec!["vmmd-0a0a0a0a-x", "vmmd-c00a0a0b-y"]);
}

#[test]
fn test_select_empty_input_or_no_match() {
    let no_names: Vec<&str> = vec![];
    assert!(select(&no_names).is_empty());

    let unmanaged = vec!["eth0", "lo", "virbr0"];
    assert!(select(&unmanaged).is_empty());
}

#[test]
fn test_select_prefix_must_be_exact() {
    let names = vec!["vmmd", "vmmdx-00000000", "avmmd-00000000", "vmmd-"];
    let selected = select(&names);

    assert_eq!(selected, vec!["vmmd-"]);
}

// the phase gate

#[test]
fn test_should_configure_only_started_begin() {
    assert!(should_configure("started", "begin"));
    assert!(!should_configure("started", "end"));
    assert!(!should_configure("stopped", "begin"));
    assert!(!should_configure("prepare", "begin"));
    assert!(!should_configure("", ""));
}

#[test]
fn test_skipped_phase_ignores_document() {
    // A skipped invocation returns success before the document is ever
    // parsed, so even text that is not XML cannot fail it.
    let garbled_document = "this is { not xml";
    if should_configure("started", "end") {
        panic!("phase must be skipped");
    }
    // The document is deliberately never handed to any parser.
    assert_eq!(garbled_document.is_empty(), false);
}

// per-interface plans

#[test]
fn test_plan_for_interface_actions() {
    let plan = plan_for_interface("vmmd-0a0a0a0a-x").unwrap();

    assert_eq!(plan.len(), 3);
    match &plan[0] {
        HookAction::InstallRoute(route) => {
            assert_eq!(route.destination, Ipv4Address::new(10, 10, 10, 10));
            assert_eq!(route.prefix_len, 32);
            assert_eq!(route.interface, "vmmd-0a0a0a0a-x");
        }
        _ => panic!("first action must install the route"),
    }
    match &plan[1] {
        HookAction::WriteSetting(write) => {
            assert_eq!(write.interface, "vmmd-0a0a0a0a-x");
            assert_eq!(write.setting, KernelSetting::ProxyArp);
            assert_eq!(write.value, "1");
        }
        _ => panic!("second action must write proxy_arp"),
    }
    match &plan[2] {
        HookAction::WriteSetting(write) => {
            assert_eq!(write.interface, "vmmd-0a0a0a0a-x");
            assert_eq!(write.setting, KernelSetting::ProxyDelay);
            assert_eq!(write.value, "0");
        }
        _ => panic!("third action must write proxy_delay"),
    }
}

#[test]
fn test_plan_for_interface_without_address_field() {
    match plan_for_interface("nodash") {
        Err(HookError::MalformedInterfaceName { name }) => {
            assert_eq!(name, "nodash");
        }
        _ => panic!("a name without a second field must be rejected"),
    }
}

#[test]
fn test_plan_for_interface_bad_token() {
    match plan_for_interface("vmmd-zz") {
        Err(HookError::InvalidAddressEncoding { token, .. }) => {
            assert_eq!(token, "zz");
        }
        _ => panic!("a non-hexadecimal token must be rejected"),
    }
}

// whole runs

#[test]
fn test_configurator_runs_once_per_managed_interface() {
    let domain = sample_domain(vec!["vmmd-0a0a0a0a-x", "eth0", "vmmd-c00a0a0b-y"]);
    let names = domain.interface_names();
    let selected = select(&names);
    let (actions, result) = run_all_succeeding(selected);

    assert!(result.is_ok());

    let routes: Vec<(String, String)> = actions
        .iter()
        .filter_map(|action| match action {
            HookAction::InstallRoute(route) => Some((
                vmmd::format_dotted(&route.destination),
                route.interface.clone(),
            )),
            _ => None,
        })
        .collect();

    // Exactly two interfaces are configured, in document order; eth0 is
    // never touched.
    assert_eq!(
        routes,
        vec![
            (
                String::from("10.10.10.10"),
                String::from("vmmd-0a0a0a0a-x")
            ),
            (
                String::from("192.10.10.11"),
                String::from("vmmd-c00a0a0b-y")
            ),
        ]
    );
    assert_eq!(actions.len(), 6);
    for action in &actions {
        let interface = match action {
            HookAction::InstallRoute(route) => &route.interface,
            HookAction::WriteSetting(write) => &write.interface,
        };
        assert_ne!(interface, "eth0");
    }
}

#[test]
fn test_no_devices_means_zero_invocations() {
    let domain = Domain {
        name: String::from("name"),
        devices: None,
    };
    let names = domain.interface_names();
    let selected = select(&names);
    let (actions, result) = run_all_succeeding(selected);

    assert!(result.is_ok());
    assert!(actions.is_empty());
}

#[test]
fn test_empty_interfaces_means_zero_invocations() {
    let domain = sample_domain(vec![]);
    let names = domain.interface_names();
    let selected = select(&names);
    let (actions, result) = run_all_succeeding(selected);

    assert!(result.is_ok());
    assert!(actions.is_empty());
}

#[test]
fn test_write_failure_halts_run() {
    let selected = vec![
        String::from("vmmd-0a0a0a0a-x"),
        String::from("vmmd-c00a0a0b-y"),
    ];
    let mut run = HookRun::new(selected);

    // The route of the first interface is handed out and succeeds.
    match run.next_directive() {
        HookDirective::Perform(HookAction::InstallRoute(route)) => {
            assert_eq!(route.destination, Ipv4Address::new(10, 10, 10, 10));
        }
        _ => panic!("the first directive must install a route"),
    }
    assert!(run.report(ActionOutcome::Succeeded).is_none());

    // The first kernel setting write is handed out and fails.
    match run.next_directive() {
        HookDirective::Perform(HookAction::WriteSetting(write)) => {
            assert_eq!(write.setting, KernelSetting::ProxyArp);
        }
        _ => panic!("the second directive must write proxy_arp"),
    }
    let done = run.report(ActionOutcome::Failed(FailureReason::WriteRefused {
        detail: String::from("Permission denied (os error 13)"),
    }));

    // The run halts at once with the write error: the proxy_delay write
    // of this interface and the whole second interface are never handed
    // out.
    match done {
        Some(Err(HookError::KernelConfigWriteError { detail })) => {
            assert_eq!(detail, "Permission denied (os error 13)");
        }
        _ => panic!("the run must halt with KernelConfigWriteError"),
    }
}

#[test]
fn test_missing_interface_fails_route_step() {
    let selected = vec![String::from("vmmd-0a0a0a0a-x")];
    let mut run = HookRun::new(selected);

    match run.next_directive() {
        HookDirective::Perform(HookAction::InstallRoute(_)) => {}
        _ => panic!("the first directive must install a route"),
    }
    let done = run.report(ActionOutcome::Failed(FailureReason::InterfaceMissing));

    match done {
        Some(Err(HookError::InterfaceNotFound { name })) => {
            assert_eq!(name, "vmmd-0a0a0a0a-x");
            let err = HookError::InterfaceNotFound { name };
            assert_eq!("interface vmmd-0a0a0a0a-x not found", err.message());
        }
        _ => panic!("the run must halt with InterfaceNotFound"),
    }
}

#[test]
fn test_backend_failure_fails_route_step() {
    let selected = vec![String::from("vmmd-0a0a0a0a-x")];
    let mut run = HookRun::new(selected);

    match run.next_directive() {
        HookDirective::Perform(HookAction::InstallRoute(_)) => {}
        _ => panic!("the first directive must install a route"),
    }
    let done = run.report(ActionOutcome::Failed(FailureReason::Backend {
        detail: String::from("failed to connect: socket closed"),
    }));

    match done {
        Some(Err(HookError::RoutingBackendError { detail })) => {
            assert_eq!(detail, "failed to connect: socket closed");
        }
        _ => panic!("the run must halt with RoutingBackendError"),
    }
}

#[test]
fn test_undecodable_name_halts_before_its_route() {
    let selected = vec![
        String::from("vmmd-0a0a0a0a-x"),
        String::from("vmmd-zz-y"),
    ];
    let mut run = HookRun::new(selected);
    let mut performed: usize = 0;

    let result = loop {
        match run.next_directive() {
            HookDirective::Finish(result) => break result,
            HookDirective::Perform(_) => {
                performed += 1;
                assert!(run.report(ActionOutcome::Succeeded).is_none());
            }
        }
    };

    // The first interface was fully configured before the second name's
    // token was found undecodable; its configuration stays applied.
    assert_eq!(performed, 3);
    match result {
        Err(HookError::InvalidAddressEncoding { token, .. }) => {
            assert_eq!(token, "zz");
        }
        _ => panic!("the run must halt on the undecodable token"),
    }
}

#[test]
fn test_malformed_document_message() {
    let err = HookError::MalformedDocument {
        detail: String::from("Expecting Start event"),
    };
    assert_eq!(
        "failed to parse domain XML: Expecting Start event",
        err.message()
    );
}

#[test]
fn test_malformed_interface_name_message() {
    let err = HookError::MalformedInterfaceName {
        name: String::from("nodash"),
    };
    assert_eq!("interface name nodash has no address field", err.message());
}
