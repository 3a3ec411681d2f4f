use pcap2socks::{interface, interfaces, Interface};

fn inter(name: &str, is_loopback: bool) -> Interface {
    Interface {
        name: String::from(name),
        is_loopback,
    }
}

#[test]
fn interfaces_leaves_out_loopback() {
    let inters = interfaces(vec![
        inter("lo", true),
        inter("eth0", false),
        inter("eth1", false),
    ]);
    assert_eq!(inters.len(), 2);
    assert_eq!(inters[0].name, "eth0");
    assert_eq!(inters[1].name, "eth1");
}

#[test]
fn interface_without_name_is_the_only_one() {
    let chosen = interface(vec![inter("lo", true), inter("eth0", false)], None);
    assert_eq!(chosen.unwrap().name, "eth0");
}

#[test]
fn interface_without_name_is_ambiguous() {
    let all = vec![inter("eth0", false), inter("eth1", false)];
    assert!(interface(all, None).is_none());
}

#[test]
fn interface_without_name_needs_one() {
    assert!(interface(vec![inter("lo", true)], None).is_none());
}

#[test]
fn interface_with_name() {
    let all = vec![inter("lo", true), inter("eth0", false), inter("eth1", false)];
    let chosen = interface(all, Some(String::from("eth1")));
    assert_eq!(chosen.unwrap().name, "eth1");
}

#[test]
fn interface_with_unknown_name() {
    let all = vec![inter("lo", true), inter("eth0", false)];
    assert!(interface(all, Some(String::from("lo"))).is_none());
}
