use tcpstack::addr::{IpAddress, Ipv4Address, Ipv6Address};
use tcpstack::ethernet::{EtherType, EthernetFrame, EthernetHeader, MacAddress};
use tcpstack::interface::{IntefaceStats, InterfaceConfig, InterfaceManager};
use tcpstack::packet::Packet;
use tcpstack::{NetError, NetworkInterface};

fn ip(last: u8) -> IpAddress {
    IpAddress::V4(Ipv4Address::new(192, 168, 0, last))
}

fn config(name: &str, mac_last: u8) -> InterfaceConfig {
    InterfaceConfig::new(name.to_string(), MacAddress::new([2, 0, 0, 0, 0, mac_last]))
}

fn interface_message(r: Result<impl Sized, NetError>) -> String {
    match r {
        Err(NetError::Interface { message }) => message,
        Err(_) => panic!("expected an interface error"),
        Ok(_) => panic!("expected an error"),
    }
}

#[test]
fn config_defaults_and_addresses() {
    let mut c = config("eth0", 1);
    assert_eq!(c.name, "eth0");
    assert_eq!(c.mtu, 1500);
    assert!(!c.is_up && !c.is_promiscuous);
    assert!(c.ip_addresses.is_empty());
    c.add_ip(ip(1));
    c.add_ip(IpAddress::V6(Ipv6Address(1)));
    c.add_ip(ip(1));
    assert_eq!(c.ip_addresses, vec![ip(1), IpAddress::V6(Ipv6Address(1))]);
    assert!(c.has_ip(&ip(1)));
    c.remove_ip(&ip(1));
    assert!(!c.has_ip(&ip(1)));
    assert_eq!(c.ip_addresses.len(), 1);
    let copy = c.clone();
    assert_eq!(copy.ip_addresses, c.ip_addresses);
}

#[test]
fn interface_up_down_and_frames() {
    let mut iface = NetworkInterface::new(config("eth0", 1));
    assert!(!iface.is_up());
    let frame = || {
        EthernetFrame::new(
            EthernetHeader::new(MacAddress::broadcast(), MacAddress::zero(), EtherType::Ipv4),
            Packet::from_vec(vec![0; 10]),
        )
    };
    assert_eq!(interface_message(iface.send_frame(frame())), "inteface is down");
    assert_eq!(interface_message(iface.receive_frame()), "inteface is down");
    iface.bring_up().unwrap();
    assert!(iface.is_up());
    iface.send_frame(frame()).unwrap();
    iface.send_frame(frame()).unwrap();
    let stats = iface.get_stats();
    assert_eq!(stats.packets_sent, 2);
    assert_eq!(stats.bytes_sent, 48);
    assert_eq!(stats.packets_received, 0);
    assert_eq!(interface_message(iface.receive_frame()), "no frames available");
    iface.reset_stats();
    assert_eq!(iface.get_stats(), IntefaceStats::default());
    iface.bring_down().unwrap();
    assert!(!iface.get_config().is_up);
}

#[test]
fn interface_addresses_and_config_update() {
    let mut iface = NetworkInterface::new(config("wlan0", 7));
    assert!(iface.get_mac_address() == MacAddress::new([2, 0, 0, 0, 0, 7]));
    iface.add_ip_address(ip(5)).unwrap();
    iface.add_ip_address(ip(6)).unwrap();
    iface.add_ip_address(ip(5)).unwrap();
    assert_eq!(iface.get_ip_address(), vec![ip(5), ip(6)]);
    iface.remove_ip_address(&ip(5)).unwrap();
    assert_eq!(iface.get_ip_address(), vec![ip(6)]);
    iface.update_config(|c: &mut InterfaceConfig| c.mtu = 9000).unwrap();
    assert_eq!(iface.get_config().mtu, 9000);
}

#[test]
fn manager_add_get_remove() {
    let mut m = InterfaceManager::new();
    assert!(m.get_interface("eth0").is_none());
    m.add_inteface(NetworkInterface::new(config("eth0", 1))).unwrap();
    m.add_inteface(NetworkInterface::new(config("lo", 2))).unwrap();
    assert_eq!(
        interface_message(m.add_inteface(NetworkInterface::new(config("eth0", 3)))),
        "interface eth0 already exists"
    );
    assert!(m.get_interface("eth0").unwrap().get_mac_address() == MacAddress::new([2, 0, 0, 0, 0, 1]));
    assert_eq!(m.list_interface(), vec!["eth0".to_string(), "lo".to_string()]);
    m.remove_interface("eth0").unwrap();
    assert!(m.get_interface("eth0").is_none());
    assert_eq!(interface_message(m.remove_interface("eth0")), "interface not found");
    assert_eq!(m.list_interface(), vec!["lo".to_string()]);
}

#[test]
fn manager_finds_by_address_mac_and_state() {
    let mut m = InterfaceManager::default();
    let mut a = config("a", 1);
    a.add_ip(ip(1));
    let mut b = config("b", 2);
    b.add_ip(ip(2));
    b.is_up = true;
    let mut c = config("c", 3);
    c.is_up = true;
    m.add_inteface(NetworkInterface::new(a)).unwrap();
    m.add_inteface(NetworkInterface::new(b)).unwrap();
    m.add_inteface(NetworkInterface::new(c)).unwrap();
    assert_eq!(m.find_interface_by_ip(&ip(2)).unwrap().get_config().name, "b");
    assert!(m.find_interface_by_ip(&ip(3)).is_none());
    let by_mac = m.find_interface_by_name(&MacAddress::new([2, 0, 0, 0, 0, 3])).unwrap();
    assert_eq!(by_mac.get_config().name, "c");
    assert!(m.find_interface_by_name(&MacAddress::zero()).is_none());
    assert_eq!(m.get_default_interface().unwrap().get_config().name, "b");
    let empty = InterfaceManager::new();
    assert!(empty.get_default_interface().is_none());
}

#[test]
fn manager_updates_interface_in_place() {
    let mut m = InterfaceManager::new();
    m.add_inteface(NetworkInterface::new(config("eth0", 1))).unwrap();
    m.add_inteface(NetworkInterface::new(config("eth1", 2))).unwrap();
    m.update_interface("eth0", |i: &mut NetworkInterface| {
        i.bring_up().unwrap();
    })
    .unwrap();
    assert!(m.get_interface("eth0").unwrap().is_up());
    assert_eq!(m.get_default_interface().unwrap().get_config().name, "eth0");
    assert_eq!(
        interface_message(m.update_interface("nope", |_i: &mut NetworkInterface| {})),
        "interface not found"
    );
    // renaming onto another interface's name is undone
    assert_eq!(
        interface_message(m.update_interface("eth0", |i: &mut NetworkInterface| {
            i.update_config(|c: &mut InterfaceConfig| c.name = "eth1".to_string()).unwrap();
        })),
        "interface eth1 already exists"
    );
    assert!(m.get_interface("eth0").unwrap().is_up());
    // renaming to a free name keeps the update
    m.update_interface("eth0", |i: &mut NetworkInterface| {
        i.update_config(|c: &mut InterfaceConfig| c.name = "wan".to_string()).unwrap();
    })
    .unwrap();
    assert!(m.get_interface("eth0").is_none());
    assert!(m.get_interface("wan").unwrap().is_up());
}
