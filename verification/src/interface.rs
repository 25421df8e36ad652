//! Network interfaces: their configuration, counters, and the table of
//! interfaces by name.
use vstd::prelude::*;
use vstd::string::StringExecFns;

use crate::addr::IpAddress;
use crate::buffer::bytes_mut_limit;
use crate::error::{NetError, NetResult};
use crate::ethernet::{EthernetFrame, MacAddress, ethernet_header_bytes};

verus! {

/// The configuration of a network interface.
#[derive(Debug)]
pub struct InterfaceConfig {
    pub name: String,
    pub mac_address: MacAddress,
    pub ip_addresses: Vec<IpAddress>,
    pub mtu: usize,
    pub is_up: bool,
    pub is_promiscuous: bool,
}

/// An interface configuration as plain values.
#[verifier::ext_equal]
pub struct InterfaceConfigModel {
    pub name: Seq<char>,
    pub mac_address: Seq<u8>,
    pub ip_addresses: Seq<IpAddress>,
    pub mtu: usize,
    pub is_up: bool,
    pub is_promiscuous: bool,
}

impl View for InterfaceConfig {
    type V = InterfaceConfigModel;

    open spec fn view(&self) -> InterfaceConfigModel {
        InterfaceConfigModel {
            name: self.name@,
            mac_address: self.mac_address@,
            ip_addresses: self.ip_addresses@,
            mtu: self.mtu,
            is_up: self.is_up,
            is_promiscuous: self.is_promiscuous,
        }
    }
}

impl Clone for InterfaceConfig {
    fn clone(&self) -> (r: Self)
        ensures
            r@ == self@,
    {
        InterfaceConfig {
            name: self.name.clone(),
            mac_address: self.mac_address,
            ip_addresses: vstd::slice::slice_to_vec(self.ip_addresses.as_slice()),
            mtu: self.mtu,
            is_up: self.is_up,
            is_promiscuous: self.is_promiscuous,
        }
    }
}

/// Whether `ip` occurs in `ips`.
fn contains_ip(ips: &Vec<IpAddress>, ip: &IpAddress) -> (r: bool)
    ensures
        r == ips@.contains(*ip),
{
    let mut i: usize = 0;
    while i < ips.len()
        invariant
            i <= ips@.len(),
            forall|j: int| 0 <= j < i ==> ips@[j] != *ip,
        decreases ips@.len() - i,
    {
        if ips[i] == *ip {
            assert(ips@[i as int] == *ip);
            return true;
        }
        i = i + 1;
    }
    false
}

impl InterfaceConfig {
    /// A configuration for interface `name`: no addresses, MTU 1500, down,
    /// not promiscuous.
    pub fn new(name: String, mac_address: MacAddress) -> (r: Self)
        ensures
            r@ == (InterfaceConfigModel {
                name: name@,
                mac_address: mac_address@,
                ip_addresses: Seq::empty(),
                mtu: 1500,
                is_up: false,
                is_promiscuous: false,
            }),
    {
        let r = Self {
            name,
            mac_address,
            ip_addresses: Vec::new(),
            mtu: 1500,
            is_up: false,
            is_promiscuous: false,
        };
        assert(r@ =~= (InterfaceConfigModel {
            name: r.name@,
            mac_address: mac_address@,
            ip_addresses: Seq::empty(),
            mtu: 1500,
            is_up: false,
            is_promiscuous: false,
        }));
        r
    }

    /// Adds `ip` unless it is already there.
    pub fn add_ip(&mut self, ip: IpAddress)
        ensures
            final(self)@ == (InterfaceConfigModel {
                ip_addresses: if old(self)@.ip_addresses.contains(ip) {
                    old(self)@.ip_addresses
                } else {
                    old(self)@.ip_addresses.push(ip)
                },
                ..old(self)@
            }),
    {
        if !contains_ip(&self.ip_addresses, &ip) {
            self.ip_addresses.push(ip);
        }
        assert(self@ =~= (InterfaceConfigModel {
            ip_addresses: if old(self)@.ip_addresses.contains(ip) {
                old(self)@.ip_addresses
            } else {
                old(self)@.ip_addresses.push(ip)
            },
            ..old(self)@
        }));
    }

    /// Removes every occurrence of `ip`.
    pub fn remove_ip(&mut self, ip: &IpAddress)
        ensures
            final(self)@ == (InterfaceConfigModel {
                ip_addresses: old(self)@.ip_addresses.filter(|a: IpAddress| a != *ip),
                ..old(self)@
            }),
    {
        let mut kept: Vec<IpAddress> = Vec::new();
        let mut i: usize = 0;
        let ghost all = self.ip_addresses@;
        while i < self.ip_addresses.len()
            invariant
                all == self.ip_addresses@,
                i <= all.len(),
                kept@ == all.take(i as int).filter(|a: IpAddress| a != *ip),
            decreases all.len() - i,
        {
            let a = self.ip_addresses[i];
            proof {
                assert(all.take(i + 1).drop_last() =~= all.take(i as int));
                reveal_with_fuel(Seq::filter, 1);
            }
            if a != *ip {
                kept.push(a);
            }
            i = i + 1;
        }
        proof {
            assert(all.take(i as int) =~= all);
        }
        self.ip_addresses = kept;
        assert(self@ =~= (InterfaceConfigModel {
            ip_addresses: old(self)@.ip_addresses.filter(|a: IpAddress| a != *ip),
            ..old(self)@
        }));
    }

    /// Whether `ip` is one of the addresses.
    pub fn has_ip(&self, ip: &IpAddress) -> (r: bool)
        ensures
            r == self@.ip_addresses.contains(*ip),
    {
        contains_ip(&self.ip_addresses, ip)
    }
}

/// Counters of an interface.
#[derive(Debug, Clone, Copy, PartialEq, Eq, Structural)]
pub struct IntefaceStats {
    pub packets_sent: u64,
    pub packets_received: u64,
    pub bytes_sent: u64,
    pub bytes_received: u64,
    pub errors_sent: u64,
    pub errors_received: u64,
    pub dropped_packets: u64,
}

/// All counters zero.
pub open spec fn zero_stats() -> IntefaceStats {
    IntefaceStats {
        packets_sent: 0,
        packets_received: 0,
        bytes_sent: 0,
        bytes_received: 0,
        errors_sent: 0,
        errors_received: 0,
        dropped_packets: 0,
    }
}

impl Default for IntefaceStats {
    fn default() -> (r: Self)
        ensures
            r == zero_stats(),
    {
        IntefaceStats {
            packets_sent: 0,
            packets_received: 0,
            bytes_sent: 0,
            bytes_received: 0,
            errors_sent: 0,
            errors_received: 0,
            dropped_packets: 0,
        }
    }
}

/// A network interface: its configuration and its counters.
pub struct NetworkInterface {
    config: InterfaceConfig,
    stats: IntefaceStats,
}

/// An interface as plain values.
#[verifier::ext_equal]
pub struct NetworkInterfaceModel {
    pub config: InterfaceConfigModel,
    pub stats: IntefaceStats,
}

impl View for NetworkInterface {
    type V = NetworkInterfaceModel;

    closed spec fn view(&self) -> NetworkInterfaceModel {
        NetworkInterfaceModel { config: self.config@, stats: self.stats }
    }
}

impl NetworkInterface {
    /// An interface with configuration `config` and zero counters.
    pub fn new(config: InterfaceConfig) -> (r: Self)
        ensures
            r@ == (NetworkInterfaceModel { config: config@, stats: zero_stats() }),
    {
        NetworkInterface { config, stats: IntefaceStats::default() }
    }

    /// Marks the interface up.
    pub fn bring_up(&mut self) -> (r: NetResult<()>)
        ensures
            r is Ok,
            final(self)@ == (NetworkInterfaceModel {
                config: InterfaceConfigModel { is_up: true, ..old(self)@.config },
                ..old(self)@
            }),
    {
        self.config.is_up = true;
        assert(self@ =~= (NetworkInterfaceModel {
            config: InterfaceConfigModel { is_up: true, ..old(self)@.config },
            ..old(self)@
        }));
        Ok(())
    }

    /// Marks the interface down.
    pub fn bring_down(&mut self) -> (r: NetResult<()>)
        ensures
            r is Ok,
            final(self)@ == (NetworkInterfaceModel {
                config: InterfaceConfigModel { is_up: false, ..old(self)@.config },
                ..old(self)@
            }),
    {
        self.config.is_up = false;
        assert(self@ =~= (NetworkInterfaceModel {
            config: InterfaceConfigModel { is_up: false, ..old(self)@.config },
            ..old(self)@
        }));
        Ok(())
    }

    /// Sends `frame` on an interface that is up, counting one packet and the
    /// frame's serialized length.
    pub fn send_frame(&mut self, frame: EthernetFrame) -> (r: NetResult<()>)
        requires
            frame.payload@.len() + 14 <= bytes_mut_limit(),
            old(self)@.config.is_up ==> old(self)@.stats.packets_sent < u64::MAX,
            old(self)@.config.is_up ==> old(self)@.stats.bytes_sent + frame.payload@.len() + 14
                <= u64::MAX,
        ensures
            !old(self)@.config.is_up ==> (r matches Err(NetError::Interface { message }) && message@
                == "inteface is down"@ && final(self)@ == old(self)@),
            old(self)@.config.is_up ==> (r is Ok && final(self)@ == (NetworkInterfaceModel {
                stats: IntefaceStats {
                    packets_sent: (old(self)@.stats.packets_sent + 1) as u64,
                    bytes_sent: (old(self)@.stats.bytes_sent + frame.payload@.len() + 14) as u64,
                    ..old(self)@.stats
                },
                ..old(self)@
            })),
    {
        if !self.config.is_up {
            return Err(NetError::interface("inteface is down"));
        }

        let frame_size = frame.serialize().len();
        proof {
            crate::ethernet::lemma_mac_len(frame.header.destination);
            crate::ethernet::lemma_mac_len(frame.header.source);
        }

        self.stats.packets_sent = self.stats.packets_sent + 1;
        self.stats.bytes_sent = self.stats.bytes_sent + frame_size as u64;
        assert(self@ =~= (NetworkInterfaceModel {
            stats: IntefaceStats {
                packets_sent: (old(self)@.stats.packets_sent + 1) as u64,
                bytes_sent: (old(self)@.stats.bytes_sent + frame.payload@.len() + 14) as u64,
                ..old(self)@.stats
            },
            ..old(self)@
        }));
        Ok(())
    }

    /// Receiving is not supported: an interface that is up has no frames.
    pub fn receive_frame(&self) -> (r: NetResult<EthernetFrame>)
        ensures
            !self@.config.is_up ==> (r matches Err(NetError::Interface { message }) && message@
                == "inteface is down"@),
            self@.config.is_up ==> (r matches Err(NetError::Interface { message }) && message@
                == "no frames available"@),
    {
        if !self.config.is_up {
            return Err(NetError::interface("inteface is down"));
        }
        Err(NetError::interface("no frames available"))
    }

    /// A copy of the configuration.
    pub fn get_config(&self) -> (r: InterfaceConfig)
        ensures
            r@ == self@.config,
    {
        self.config.clone()
    }

    /// A copy of the interface.
    fn duplicate(&self) -> (r: NetworkInterface)
        ensures
            r@ == self@,
    {
        NetworkInterface { config: self.config.clone(), stats: self.stats }
    }

    /// A copy of the counters.
    pub fn get_stats(&self) -> (r: IntefaceStats)
        ensures
            r == self@.stats,
    {
        self.stats
    }

    /// Sets every counter to zero.
    pub fn reset_stats(&mut self)
        ensures
            final(self)@ == (NetworkInterfaceModel { stats: zero_stats(), ..old(self)@ }),
    {
        self.stats = IntefaceStats::default();
        assert(self@ =~= (NetworkInterfaceModel { stats: zero_stats(), ..old(self)@ }));
    }

    /// Whether the interface is up.
    pub fn is_up(&self) -> (r: bool)
        ensures
            r == self@.config.is_up,
    {
        self.config.is_up
    }

    /// The MAC address.
    pub fn get_mac_address(&self) -> (r: MacAddress)
        ensures
            r@ == self@.config.mac_address,
    {
        self.config.mac_address
    }

    /// The IP addresses.
    pub fn get_ip_address(&self) -> (r: Vec<IpAddress>)
        ensures
            r@ == self@.config.ip_addresses,
    {
        vstd::slice::slice_to_vec(self.config.ip_addresses.as_slice())
    }

    /// Adds `ip` unless it is already there.
    pub fn add_ip_address(&mut self, ip: IpAddress) -> (r: NetResult<()>)
        ensures
            r is Ok,
            final(self)@ == (NetworkInterfaceModel {
                config: InterfaceConfigModel {
                    ip_addresses: if old(self)@.config.ip_addresses.contains(ip) {
                        old(self)@.config.ip_addresses
                    } else {
                        old(self)@.config.ip_addresses.push(ip)
                    },
                    ..old(self)@.config
                },
                ..old(self)@
            }),
    {
        self.config.add_ip(ip);
        assert(self@ =~= (NetworkInterfaceModel {
            config: InterfaceConfigModel {
                ip_addresses: if old(self)@.config.ip_addresses.contains(ip) {
                    old(self)@.config.ip_addresses
                } else {
                    old(self)@.config.ip_addresses.push(ip)
                },
                ..old(self)@.config
            },
            ..old(self)@
        }));
        Ok(())
    }

    /// Removes every occurrence of `ip`.
    pub fn remove_ip_address(&mut self, ip: &IpAddress) -> (r: NetResult<()>)
        ensures
            r is Ok,
            final(self)@ == (NetworkInterfaceModel {
                config: InterfaceConfigModel {
                    ip_addresses: old(self)@.config.ip_addresses.filter(|a: IpAddress| a != *ip),
                    ..old(self)@.config
                },
                ..old(self)@
            }),
    {
        self.config.remove_ip(ip);
        assert(self@ =~= (NetworkInterfaceModel {
            config: InterfaceConfigModel {
                ip_addresses: old(self)@.config.ip_addresses.filter(|a: IpAddress| a != *ip),
                ..old(self)@.config
            },
            ..old(self)@
        }));
        Ok(())
    }
}

impl NetworkInterface {
    /// Applies `update_fn` to the configuration: the configuration becomes
    /// what the closure leaves behind when it runs on the old one; the
    /// counters stay as they are.
    pub fn update_config<F>(&mut self, update_fn: F) -> (r: NetResult<()>) where
        F: FnOnce(&mut InterfaceConfig),
        requires
            forall|c: &mut InterfaceConfig| update_fn.requires((c,)),
        ensures
            r is Ok,
            final(self)@.stats == old(self)@.stats,
            exists|c: &mut InterfaceConfig|
                #[trigger] update_fn.ensures((c,), ()) && (*c)@ == old(self)@.config
                    && (*final(c))@ == final(self)@.config,
    {
        update_fn(&mut self.config);
        Ok(())
    }
}

/// The interface names of `ifaces`, in order.
pub open spec fn interface_names(ifaces: Seq<NetworkInterfaceModel>) -> Seq<Seq<char>> {
    ifaces.map_values(|i: NetworkInterfaceModel| i.config.name)
}

/// No two interfaces share a name.
pub open spec fn names_distinct(ifaces: Seq<NetworkInterfaceModel>) -> bool {
    forall|i: int, j: int|
        0 <= i < ifaces.len() && 0 <= j < ifaces.len() && i != j ==> ifaces[i].config.name
            != ifaces[j].config.name
}

/// The position of the interface named `name`, if any.
pub open spec fn index_of_name(ifaces: Seq<NetworkInterfaceModel>, name: Seq<char>) -> Option<int> {
    if exists|i: int| 0 <= i < ifaces.len() && ifaces[i].config.name == name {
        Some(choose|i: int| 0 <= i < ifaces.len() && ifaces[i].config.name == name)
    } else {
        None
    }
}

/// The position of the first interface satisfying `p`, if any.
pub open spec fn first_index(ifaces: Seq<NetworkInterfaceModel>, p: spec_fn(NetworkInterfaceModel) -> bool) -> Option<int> {
    if exists|i: int| 0 <= i < ifaces.len() && p(ifaces[i]) {
        Some(choose|i: int| 0 <= i < ifaces.len() && p(ifaces[i]) && forall|j: int| 0 <= j < i ==> !p(ifaces[j]))
    } else {
        None
    }
}

/// Whether an interface other than the one at position `i` is named `name`.
pub open spec fn name_taken_elsewhere(ifaces: Seq<NetworkInterfaceModel>, i: int, name: Seq<char>) -> bool {
    exists|j: int| 0 <= j < ifaces.len() && j != i && ifaces[j].config.name == name
}

/// Whether one of `ifaces` is named `name`.
fn name_in(ifaces: &Vec<NetworkInterface>, name: &String) -> (r: bool)
    ensures
        r == exists|j: int| 0 <= j < ifaces@.len() && ifaces@[j]@.config.name == name@,
{
    let mut i: usize = 0;
    while i < ifaces.len()
        invariant
            i <= ifaces@.len(),
            forall|j: int| 0 <= j < i ==> ifaces@[j]@.config.name != name@,
        decreases ifaces@.len() - i,
    {
        if ifaces[i].config.name == *name {
            return true;
        }
        i = i + 1;
    }
    false
}

/// The interfaces of the stack, each under a distinct name.
pub struct InterfaceManager {
    interfaces: Vec<NetworkInterface>,
}

impl View for InterfaceManager {
    type V = Seq<NetworkInterfaceModel>;

    /// The interfaces in the order they were added.
    closed spec fn view(&self) -> Seq<NetworkInterfaceModel> {
        self.interfaces@.map_values(|i: NetworkInterface| i@)
    }
}

/// `"interface " + name + " already exists"`.
pub open spec fn duplicate_interface_message(name: Seq<char>) -> Seq<char> {
    "interface "@ + name + " already exists"@
}

impl InterfaceManager {
    #[verifier::type_invariant]
    spec fn unique_names(self) -> bool {
        names_distinct(self@)
    }

    /// An empty table.
    pub fn new() -> (r: Self)
        ensures
            r@ == Seq::<NetworkInterfaceModel>::empty(),
            names_distinct(r@),
    {
        let r = InterfaceManager { interfaces: Vec::new() };
        assert(r@ =~= Seq::<NetworkInterfaceModel>::empty());
        r
    }

    /// The position of the interface named `name`.
    fn position(&self, name: &String) -> (r: Option<usize>)
        ensures
            r matches Some(i) ==> i < self@.len() && self@[i as int].config.name == name@,
            r is None ==> forall|i: int| 0 <= i < self@.len() ==> self@[i].config.name != name@,
    {
        let mut i: usize = 0;
        while i < self.interfaces.len()
            invariant
                i <= self@.len(),
                self@.len() == self.interfaces@.len(),
                forall|j: int| 0 <= j < i ==> self@[j].config.name != name@,
            decreases self@.len() - i,
        {
            if self.interfaces[i].config.name == *name {
                return Some(i);
            }
            i = i + 1;
        }
        None
    }

    /// Adds `interface` under its name; fails if an interface of that name
    /// is already there.
    pub fn add_inteface(&mut self, interface: NetworkInterface) -> (r: NetResult<()>)
        ensures
            interface_names(old(self)@).contains(interface@.config.name) ==> (r matches Err(
                NetError::Interface { message },
            ) && message@ == duplicate_interface_message(interface@.config.name) && final(self)@
                == old(self)@),
            !interface_names(old(self)@).contains(interface@.config.name) ==> (r is Ok && final(self)@ == old(self)@.push(interface@)),
            names_distinct(final(self)@),
    {
        proof {
            use_type_invariant(&*self);
        }
        let config = interface.get_config();
        let name = config.name;

        if let Some(i) = self.position(&name) {
            proof {
                assert(interface_names(old(self)@)[i as int] == name@);
            }
            let mut message = String::from_str("interface ");
            message.append(name.as_str());
            message.append(" already exists");
            return Err(NetError::interface(message.as_str()));
        }
        proof {
            if interface_names(old(self)@).contains(name@) {
                let k = choose|k: int| 0 <= k < interface_names(old(self)@).len() && interface_names(old(self)@)[k] == name@;
                assert(old(self)@[k].config.name == name@);
            }
        }

        let mut interfaces = Vec::new();
        std::mem::swap(&mut interfaces, &mut self.interfaces);
        interfaces.push(interface);
        proof {
            let v = interfaces@.map_values(|i: NetworkInterface| i@);
            assert(v =~= old(self)@.push(interface@));
            assert(names_distinct(v)) by {
                assert forall|a: int, b: int|
                    0 <= a < v.len() && 0 <= b < v.len() && a != b implies v[a].config.name
                    != v[b].config.name by {
                    if a == v.len() - 1 {
                        assert(interface_names(old(self)@)[b] == v[b].config.name);
                    } else if b == v.len() - 1 {
                        assert(interface_names(old(self)@)[a] == v[a].config.name);
                    }
                }
            }
        }
        self.interfaces = interfaces;
        assert(self@ =~= old(self)@.push(interface@));
        Ok(())
    }

    /// Removes the interface named `name`; fails if there is none.
    pub fn remove_interface(&mut self, name: &str) -> (r: NetResult<()>)
        ensures
            index_of_name(old(self)@, name@) matches Some(i) ==> (r is Ok && final(self)@ == old(self)@.remove(i)),
            index_of_name(old(self)@, name@) is None ==> (r matches Err(
                NetError::Interface { message },
            ) && message@ == "interface not found"@ && final(self)@ == old(self)@),
            names_distinct(old(self)@),
            names_distinct(final(self)@),
    {
        proof {
            use_type_invariant(&*self);
        }
        let key = name.to_string();
        match self.position(&key) {
            Some(i) => {
                let mut interfaces = Vec::new();
                std::mem::swap(&mut interfaces, &mut self.interfaces);
                let _removed = interfaces.remove(i);
                proof {
                    let v = interfaces@.map_values(|i: NetworkInterface| i@);
                    assert(v =~= old(self)@.remove(i as int));
                    assert(names_distinct(v)) by {
                        assert forall|a: int, b: int|
                            0 <= a < v.len() && 0 <= b < v.len() && a != b implies v[a].config.name
                            != v[b].config.name by {
                            let a2 = if a < i { a } else { a + 1 };
                            let b2 = if b < i { b } else { b + 1 };
                            assert(v[a] == old(self)@[a2] && v[b] == old(self)@[b2]);
                        }
                    }
                }
                self.interfaces = interfaces;
                proof {
                    assert(index_of_name(old(self)@, name@) == Some(i as int));
                    assert(self@ =~= old(self)@.remove(i as int));
                }
                Ok(())
            },
            None => Err(NetError::interface("interface not found")),
        }
    }

    /// The interface named `name`, if any.
    pub fn get_interface(&self, name: &str) -> (r: Option<&NetworkInterface>)
        ensures
            index_of_name(self@, name@) matches Some(i) ==> (r matches Some(iface) && iface@
                == self@[i]),
            index_of_name(self@, name@) is None ==> r is None,
            names_distinct(self@),
    {
        proof {
            use_type_invariant(self);
        }
        let key = name.to_string();
        match self.position(&key) {
            Some(i) => {
                assert(index_of_name(self@, name@) == Some(i as int));
                Some(&self.interfaces[i])
            },
            None => None,
        }
    }

    /// Applies `update_fn` to the interface named `name`, so that a managed
    /// interface can be brought up or down, send frames or be reconfigured.
    /// Fails if there is no such interface. If the update renames the
    /// interface to the name of another one, the update is undone and the
    /// call fails as adding that name would.
    pub fn update_interface<F>(&mut self, name: &str, update_fn: F) -> (r: NetResult<()>) where
        F: FnOnce(&mut NetworkInterface),
        requires
            forall|c: &mut NetworkInterface| update_fn.requires((c,)),
        ensures
            names_distinct(final(self)@),
            index_of_name(old(self)@, name@) is None ==> (r matches Err(
                NetError::Interface { message },
            ) && message@ == "interface not found"@ && final(self)@ == old(self)@),
            index_of_name(old(self)@, name@) matches Some(i) ==> exists|c: &mut NetworkInterface|
                #[trigger] update_fn.ensures((c,), ()) && (*c)@ == old(self)@[i] && ({
                    let updated = (*final(c))@;
                    if name_taken_elsewhere(old(self)@, i, updated.config.name) {
                        &&& r matches Err(NetError::Interface { message })
                        &&& message@ == duplicate_interface_message(updated.config.name)
                        &&& final(self)@ == old(self)@
                    } else {
                        &&& r is Ok
                        &&& final(self)@ == old(self)@.update(i, updated)
                    }
                }),
    {
        proof {
            use_type_invariant(&*self);
        }
        let key = name.to_string();
        match self.position(&key) {
            None => Err(NetError::interface("interface not found")),
            Some(i) => {
                proof {
                    assert(index_of_name(old(self)@, name@) == Some(i as int));
                }
                let ghost orig = old(self)@;
                let mut interfaces = Vec::new();
                std::mem::swap(&mut interfaces, &mut self.interfaces);
                let saved = interfaces[i].duplicate();
                let mut iface = interfaces.remove(i);
                proof {
                    assert(interfaces@.map_values(|x: NetworkInterface| x@) =~= orig.remove(i as int));
                    assert(iface@ == orig[i as int]);
                }
                update_fn(&mut iface);
                let new_name = iface.config.name.clone();
                let taken = name_in(&interfaces, &new_name);
                proof {
                    assert(taken == name_taken_elsewhere(orig, i as int, iface@.config.name)) by {
                        let others = orig.remove(i as int);
                        if taken {
                            let j = choose|j: int| 0 <= j < interfaces@.len() && interfaces@[j]@.config.name == new_name@;
                            let j2 = if j < i { j } else { j + 1 };
                            assert(others[j] == orig[j2]);
                        }
                        if name_taken_elsewhere(orig, i as int, iface@.config.name) {
                            let j = choose|j: int| 0 <= j < orig.len() && j != i && orig[j].config.name == iface@.config.name;
                            let j1 = if j < i { j } else { j - 1 };
                            assert(others[j1] == orig[j]);
                            assert(interfaces@[j1]@ == others[j1]);
                        }
                    }
                }
                if taken {
                    interfaces.insert(i, saved);
                    proof {
                        assert(interfaces@.map_values(|x: NetworkInterface| x@) =~= orig);
                    }
                    self.interfaces = interfaces;
                    let mut message = String::from_str("interface ");
                    message.append(new_name.as_str());
                    message.append(" already exists");
                    Err(NetError::interface(message.as_str()))
                } else {
                    let ghost updated = iface@;
                    interfaces.insert(i, iface);
                    proof {
                        let v = interfaces@.map_values(|x: NetworkInterface| x@);
                        assert(v =~= orig.update(i as int, updated));
                        assert forall|a: int, b: int|
                            0 <= a < v.len() && 0 <= b < v.len() && a != b implies v[a].config.name
                            != v[b].config.name by {
                            if a != i && b != i {
                                assert(v[a] == orig[a] && v[b] == orig[b]);
                            } else if a == i {
                                assert(v[b] == orig[b]);
                            } else {
                                assert(v[a] == orig[a]);
                            }
                        }
                    }
                    self.interfaces = interfaces;
                    Ok(())
                }
            },
        }
    }

    /// The names of all interfaces.
    pub fn list_interface(&self) -> (r: Vec<String>)
        ensures
            r@.map_values(|s: String| s@) == interface_names(self@),
    {
        let mut names: Vec<String> = Vec::new();
        let mut i: usize = 0;
        while i < self.interfaces.len()
            invariant
                i <= self@.len(),
                self@.len() == self.interfaces@.len(),
                names@.len() == i,
                names@.map_values(|s: String| s@) == interface_names(self@).take(i as int),
            decreases self@.len() - i,
        {
            let ghost before = names@;
            names.push(self.interfaces[i].config.name.clone());
            proof {
                assert(self@[i as int] == self.interfaces@[i as int]@);
                assert(names@ == before.push(names@[i as int]));
            }
            i = i + 1;
            assert(names@.map_values(|s: String| s@) =~= interface_names(self@).take(i as int));
        }
        assert(interface_names(self@).take(i as int) =~= interface_names(self@));
        names
    }

    /// The first interface that has address `ip`, if any.
    pub fn find_interface_by_ip(&self, ip: &IpAddress) -> (r: Option<&NetworkInterface>)
        ensures
            first_index(self@, has_address(*ip)) matches Some(i) ==> (r matches Some(iface)
                && iface@ == self@[i]),
            first_index(self@, has_address(*ip)) is None ==> r is None,
    {
        let ghost p = has_address(*ip);
        let mut i: usize = 0;
        while i < self.interfaces.len()
            invariant
                p == has_address(*ip),
                i <= self@.len(),
                self@.len() == self.interfaces@.len(),
                forall|j: int| 0 <= j < i ==> !p(#[trigger] self@[j]),
            decreases self@.len() - i,
        {
            proof {
                assert(self@[i as int] == self.interfaces@[i as int]@);
            }
            let found = self.interfaces[i].config.has_ip(ip);
            if found {
                proof {
                    lemma_first_index(self@, p, i as int);
                }
                return Some(&self.interfaces[i]);
            }
            i = i + 1;
        }
        None
    }

    /// The first interface with MAC address `mac`, if any.
    pub fn find_interface_by_name(&self, mac: &MacAddress) -> (r: Option<&NetworkInterface>)
        ensures
            first_index(self@, has_mac(mac@)) matches Some(i) ==> (r matches Some(iface)
                && iface@ == self@[i]),
            first_index(self@, has_mac(mac@)) is None ==> r is None,
    {
        let ghost p = has_mac(mac@);
        let mut i: usize = 0;
        while i < self.interfaces.len()
            invariant
                p == has_mac(mac@),
                i <= self@.len(),
                self@.len() == self.interfaces@.len(),
                forall|j: int| 0 <= j < i ==> !p(#[trigger] self@[j]),
            decreases self@.len() - i,
        {
            proof {
                assert(self@[i as int] == self.interfaces@[i as int]@);
            }
            let found = self.interfaces[i].config.mac_address.eq(mac);
            if found {
                proof {
                    lemma_first_index(self@, p, i as int);
                }
                return Some(&self.interfaces[i]);
            }
            i = i + 1;
        }
        None
    }

    /// The first interface that is up, if any.
    pub fn get_default_interface(&self) -> (r: Option<&NetworkInterface>)
        ensures
            first_index(self@, is_up_pred()) matches Some(i) ==> (r matches Some(iface) && iface@
                == self@[i]),
            first_index(self@, is_up_pred()) is None ==> r is None,
    {
        let ghost p = is_up_pred();
        let mut i: usize = 0;
        while i < self.interfaces.len()
            invariant
                p == is_up_pred(),
                i <= self@.len(),
                self@.len() == self.interfaces@.len(),
                forall|j: int| 0 <= j < i ==> !p(#[trigger] self@[j]),
            decreases self@.len() - i,
        {
            proof {
                assert(self@[i as int] == self.interfaces@[i as int]@);
            }
            let found = self.interfaces[i].is_up();
            if found {
                proof {
                    lemma_first_index(self@, p, i as int);
                }
                return Some(&self.interfaces[i]);
            }
            i = i + 1;
        }
        None
    }
}

/// Interfaces that have address `ip`.
pub open spec fn has_address(ip: IpAddress) -> spec_fn(NetworkInterfaceModel) -> bool {
    |m: NetworkInterfaceModel| m.config.ip_addresses.contains(ip)
}

/// Interfaces whose MAC address is `mac`.
pub open spec fn has_mac(mac: Seq<u8>) -> spec_fn(NetworkInterfaceModel) -> bool {
    |m: NetworkInterfaceModel| m.config.mac_address == mac
}

/// Interfaces that are up.
pub open spec fn is_up_pred() -> spec_fn(NetworkInterfaceModel) -> bool {
    |m: NetworkInterfaceModel| m.config.is_up
}

/// The first position satisfying `p` is `i` when `i` satisfies it and no
/// earlier one does.
proof fn lemma_first_index(
    ifaces: Seq<NetworkInterfaceModel>,
    p: spec_fn(NetworkInterfaceModel) -> bool,
    i: int,
)
    requires
        0 <= i < ifaces.len(),
        p(ifaces[i]),
        forall|j: int| 0 <= j < i ==> !p(#[trigger] ifaces[j]),
    ensures
        first_index(ifaces, p) == Some(i),
{
    assert(exists|k: int| 0 <= k < ifaces.len() && p(ifaces[k]));
    let c = choose|k: int|
        0 <= k < ifaces.len() && p(ifaces[k]) && forall|j: int| 0 <= j < k ==> !p(ifaces[j]);
    assert(0 <= i < ifaces.len() && p(ifaces[i]) && forall|j: int| 0 <= j < i ==> !p(ifaces[j]));
    if c < i {
        assert(!p(ifaces[c]));
    } else if c > i {
        assert(!p(ifaces[i]));
    }
}

/// Law: an interface added under a name not yet taken is the one found under
/// that name afterwards (`add_inteface`, then `get_interface`).
pub proof fn lemma_added_interface_found(ifaces: Seq<NetworkInterfaceModel>, added: NetworkInterfaceModel)
    requires
        !interface_names(ifaces).contains(added.config.name),
    ensures
        index_of_name(ifaces.push(added), added.config.name) == Some(ifaces.len() as int),
        ifaces.push(added)[ifaces.len() as int] == added,
{
    let s = ifaces.push(added);
    assert(s[ifaces.len() as int].config.name == added.config.name);
    let i = choose|i: int| 0 <= i < s.len() && s[i].config.name == added.config.name;
    if i != ifaces.len() {
        assert(interface_names(ifaces)[i] == added.config.name);
    }
}

/// Law: once the interface of a name is removed, in a table whose names are
/// distinct, nothing is found under that name (`remove_interface`, then
/// `get_interface`).
pub proof fn lemma_removed_interface_gone(ifaces: Seq<NetworkInterfaceModel>, name: Seq<char>, i: int)
    requires
        names_distinct(ifaces),
        index_of_name(ifaces, name) == Some(i),
    ensures
        index_of_name(ifaces.remove(i), name) is None,
{
    let s = ifaces.remove(i);
    assert(0 <= i < ifaces.len() && ifaces[i].config.name == name);
    assert forall|k: int| 0 <= k < s.len() implies s[k].config.name != name by {
        let k2 = if k < i { k } else { k + 1 };
        assert(s[k] == ifaces[k2]);
    }
}

impl Default for InterfaceManager {
    fn default() -> (r: Self)
        ensures
            r@ == Seq::<NetworkInterfaceModel>::empty(),
    {
        Self::new()
    }
}

} // verus!
