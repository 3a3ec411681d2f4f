use pcap2socks::addr::{flow_key, SocketAddrV4};
use pcap2socks::sequence::{advance, distance, following, is_in_window};

#[test]
fn numbers_move_forward() {
    assert_eq!(advance(10, 5), 15);
    assert_eq!(advance(u32::MAX - 1, 1), u32::MAX);
    assert_eq!(advance(u32::MAX, 1), 1);
    assert_eq!(advance(u32::MAX - 4, 10), 6);
    assert_eq!(advance(advance(u32::MAX - 4, 3), 7), 6);
}

#[test]
fn distance_undoes_advance() {
    assert_eq!(distance(10, 15), 5);
    assert_eq!(distance(u32::MAX - 4, 6), 10);
    assert_eq!(distance(u32::MAX, 1), 1);
    assert_eq!(distance(5, 4), u32::MAX - 1);
}

#[test]
fn window_ends_before_its_size() {
    assert!(is_in_window(0, 0));
    assert!(is_in_window(0, 262143));
    assert!(!is_in_window(0, 262144));
    assert!(!is_in_window(1, 0));
}

#[test]
fn syn_is_followed_by_zero_at_the_end() {
    assert_eq!(following(7), 8);
    assert_eq!(following(u32::MAX), 0);
}

#[test]
fn keys_tell_connections_apart() {
    let addr = SocketAddrV4::new(0x0102_0304, 80);
    assert_eq!(flow_key(0x1122, addr), 0x1122_0102_0304_0050);
    assert_ne!(flow_key(1, addr), flow_key(2, addr));
    assert_ne!(
        flow_key(1, addr),
        flow_key(1, SocketAddrV4::new(0x0102_0304, 81))
    );
    assert_ne!(
        flow_key(1, addr),
        flow_key(1, SocketAddrV4::new(0x0102_0305, 80))
    );
}
