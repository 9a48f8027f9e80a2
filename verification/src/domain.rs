//! The typed model of a virtualization domain descriptor: a name and the
//! network interfaces of its device list. A descriptor may lack the device
//! list, and a device list may lack interfaces; both simply mean the
//! domain has no interfaces to consider.

use vstd::prelude::*;

verus! {

/// The MAC address element of one interface.
pub struct InterfaceMAC {
    pub address: String,
}

/// The target element of one interface: the host-side device name.
pub struct InterfaceTarget {
    pub dev: String,
}

/// One network interface of a domain: its MAC address and its host-side
/// target device name. Only the target device name drives the hook; the
/// MAC address is part of the schema and is carried along.
pub struct Interface {
    pub mac: InterfaceMAC,
    pub target: InterfaceTarget,
}

/// The device list of a domain.
pub struct Devices {
    pub interfaces: Option<Vec<Interface>>,
}

/// One domain descriptor: its name and its devices.
pub struct Domain {
    pub devices: Option<Devices>,
    pub name: String,
}

/// The target device names of a domain's interfaces, in document order;
/// empty when the domain has no device list or no interfaces.
pub open spec fn spec_interface_names(d: &Domain) -> Seq<Seq<char>> {
    match d.devices {
        None => Seq::empty(),
        Some(devices) => match devices.interfaces {
            None => Seq::empty(),
            Some(interfaces) => interfaces.deep_view().map_values(|i: InterfaceModel| i.target_dev),
        },
    }
}

/// The view of one interface: its MAC address and target device name.
pub struct InterfaceModel {
    pub mac_address: Seq<char>,
    pub target_dev: Seq<char>,
}

impl DeepView for Interface {
    type V = InterfaceModel;

    open spec fn deep_view(&self) -> InterfaceModel {
        InterfaceModel { mac_address: self.mac.address@, target_dev: self.target.dev@ }
    }
}

impl Domain {
    /// The target device name of every interface, in document order.
    pub fn interface_names<'a>(&'a self) -> (names: Vec<&'a str>)
        ensures
            names.deep_view() == spec_interface_names(self),
    {
        let devices = match &self.devices {
            Some(devices) => devices,
            None => {
                let names: Vec<&'a str> = Vec::new();
                proof {
                    assert(names.deep_view() =~= spec_interface_names(self));
                }
                return names;
            },
        };
        let interfaces = match &devices.interfaces {
            Some(interfaces) => interfaces,
            None => {
                let names: Vec<&'a str> = Vec::new();
                proof {
                    assert(names.deep_view() =~= spec_interface_names(self));
                }
                return names;
            },
        };
        let mut names: Vec<&'a str> = Vec::new();
        let n = interfaces.len();
        let mut i: usize = 0;
        while i < n
            invariant
                n == interfaces@.len(),
                0 <= i <= n,
                names@.len() == i,
                forall|k: int| 0 <= k < i ==> names.deep_view()[k] == interfaces@[k].target.dev@,
            decreases n - i,
        {
            let ghost pre = names.deep_view();
            names.push(interfaces[i].target.dev.as_str());
            proof {
                assert(names.deep_view() =~= pre.push(interfaces@[i as int].target.dev@));
            }
            i = i + 1;
        }
        proof {
            assert(names.deep_view() =~= spec_interface_names(self));
        }
        names
    }
}

} // verus!
