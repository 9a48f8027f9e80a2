//! Host-side network configuration for hypervisor lifecycle hooks.
//!
//! A virtual machine ("domain") may carry network interfaces whose names
//! embed a peer IPv4 address as an 8-digit hexadecimal token
//! (`vmmd-<hex-address>[-<suffix>]`). When the hypervisor reports that a
//! domain has started, the hook decodes the address of each such interface
//! and configures a host route and proxy-ARP settings for it.
//!
//! This crate holds the verified core: the address codec, the typed domain
//! model, the interface selector, and the per-interface configuration
//! protocol as a step machine. Argument handling, XML deserialization,
//! logging and the netlink / sysctl side effects live in the surrounding
//! (unverified) binary, which drives the step machine and reports each
//! action's outcome back to it.

pub mod codec;
pub mod domain;
pub mod hook;
pub mod text;

pub use codec::{
    decode, encode, format_dotted, hexify_ipv4_address, parse_dotted, unhexify_ipv4_address,
    AddressDecodeError, Ipv4Address,
};
pub use domain::{Devices, Domain, Interface, InterfaceMAC, InterfaceTarget};
pub use hook::{
    plan_for_interface, select, should_configure, ActionOutcome, FailureReason, HookAction,
    HookDirective, HookError, HookRun, HookStep, KernelSetting, KernelWrite, RouteSpec,
};
pub use text::{has_prefix, split, str_eq};
