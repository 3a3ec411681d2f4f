use pcap2socks::addr::{HardwareAddr, SocketAddrV4};
use pcap2socks::downstream::Downstreamer;
use pcap2socks::packet::{Frame, Ipv4, LayerType, Network, Tcp, Transport};
use pcap2socks::transmission::Transmission;

const SRC: u32 = 0x0a06_0001;
const LOCAL: u32 = 0x0a06_0002;
const PORT: u16 = 49152;

fn hardware(last: u8) -> HardwareAddr {
    HardwareAddr(2, 0, 0, 0, 0, last)
}

fn dst() -> SocketAddrV4 {
    SocketAddrV4::new(0x0808_0808, 443)
}

fn downstreamer() -> Downstreamer {
    let mut tx = Downstreamer::new(hardware(1), SRC, LOCAL);
    tx.set_src_hardware_addr(hardware(9));
    tx
}

fn send(tx: &mut Downstreamer, mut transmission: Transmission) -> Vec<Frame> {
    let mut frames = Vec::new();
    while let Some(frame) = tx.frame(&transmission) {
        frames.push(frame);
        transmission = tx.sent(transmission);
    }
    frames
}

fn ipv4(frame: &Frame) -> Ipv4 {
    match frame.indicator.network {
        Some(Network::Ipv4(ipv4)) => ipv4,
        _ => panic!("not IPv4"),
    }
}

fn tcp(frame: &Frame) -> Tcp {
    match frame.indicator.transport {
        Some(Transport::Tcp(tcp)) => tcp,
        _ => panic!("not TCP"),
    }
}

fn payload(frame: &Frame) -> Vec<u8> {
    match &frame.payload {
        Some(payload) => payload.clone(),
        None => Vec::new(),
    }
}

fn bytes(n: usize) -> Vec<u8> {
    (0..n).map(|i| (i % 251) as u8).collect()
}

#[test]
fn arp_reply_is_one_frame_from_local() {
    let mut tx = downstreamer();
    tx.set_local_ip_addr(7);
    let job = tx.send_arp_reply();
    let frames = send(&mut tx, job);
    assert_eq!(frames.len(), 1);
    assert_eq!(frames[0].indicator.link.kind, LayerType::Arp);
    assert_eq!(frames[0].indicator.link.src, hardware(1));
    assert_eq!(frames[0].indicator.link.dst, hardware(9));
    match frames[0].indicator.network {
        Some(Network::Arp(arp)) => {
            assert!(!arp.is_request);
            assert_eq!(arp.src_hardware_addr, hardware(1));
            assert_eq!(arp.src_ip_addr, 7);
            assert_eq!(arp.dst_hardware_addr, hardware(9));
            assert_eq!(arp.dst_ip_addr, SRC);
        }
        _ => panic!("not ARP"),
    }
    assert!(frames[0].payload.is_none());
    assert_eq!(frames[0].indicator.get_size(), 42);
}

#[test]
fn source_hardware_addr_is_unspecified_at_first() {
    let mut tx = Downstreamer::new(hardware(1), SRC, LOCAL);
    let job = tx.send_arp_reply();
    let frames = send(&mut tx, job);
    assert_eq!(frames[0].indicator.link.dst, HardwareAddr::unspecified());
}

#[test]
fn control_segments_have_their_flags() {
    let mut tx = downstreamer();
    tx.set_tcp_acknowledgement(dst(), PORT, 1000);
    tx.set_tcp_window(dst(), PORT, 77);
    let jobs = vec![
        (tx.send_tcp_ack_0(dst(), PORT), true, false, false, 1000),
        (tx.send_tcp_ack_rst(dst(), PORT), true, true, false, 1000),
        (tx.send_tcp_ack_fin(dst(), PORT), true, false, true, 1000),
        (tx.send_tcp_rst(dst(), PORT), false, true, false, 0),
    ];
    for (i, (job, is_ack, is_rst, is_fin, acknowledgement)) in jobs.into_iter().enumerate() {
        let frames = send(&mut tx, job);
        assert_eq!(frames.len(), 1);
        let tcp = tcp(&frames[0]);
        assert_eq!(tcp.is_ack, is_ack);
        assert_eq!(tcp.is_rst, is_rst);
        assert_eq!(tcp.is_fin, is_fin);
        assert!(!tcp.is_syn);
        assert_eq!(tcp.acknowledgement, acknowledgement);
        assert_eq!(tcp.window, 77);
        assert_eq!(tcp.sequence, 0);
        assert_eq!((tcp.src_ip_addr, tcp.src), (dst().ip, dst().port));
        assert_eq!((tcp.dst_ip_addr, tcp.dst), (SRC, PORT));
        assert_eq!(ipv4(&frames[0]).identification, i as u16);
        assert_eq!(ipv4(&frames[0]).src, dst().ip);
        assert_eq!(ipv4(&frames[0]).dst, SRC);
        assert!(!ipv4(&frames[0]).is_fragment());
        assert_eq!(frames[0].indicator.get_size(), 54);
        assert!(frames[0].payload.is_none());
    }
}

#[test]
fn ack_syn_takes_one_number() {
    let mut tx = downstreamer();
    let job = tx.send_tcp_ack_syn(dst(), PORT);
    let frames = send(&mut tx, job);
    assert!(tcp(&frames[0]).is_syn && tcp(&frames[0]).is_ack);
    assert_eq!(tcp(&frames[0]).sequence, 0);
    assert_eq!(tcp(&frames[0]).window, 65535);
    let job = tx.send_tcp_ack_0(dst(), PORT);
    let frames = send(&mut tx, job);
    assert_eq!(tcp(&frames[0]).sequence, 1);
}

#[test]
fn ack_syn_that_is_not_sent_takes_no_number() {
    let mut tx = downstreamer();
    let job = tx.send_tcp_ack_syn(dst(), PORT);
    assert!(tx.frame(&job).is_some());
    drop(job);
    let job = tx.send_tcp_ack_0(dst(), PORT);
    let frames = send(&mut tx, job);
    assert_eq!(tcp(&frames[0]).sequence, 0);
    assert_eq!(ipv4(&frames[0]).identification, 0);
}

#[test]
fn nothing_is_sent_without_send_window() {
    let mut tx = downstreamer();
    let job = tx.append_to_cache(dst(), PORT, &bytes(10)).unwrap();
    assert!(send(&mut tx, job).is_empty());
    assert_eq!(tx.get_cache_size(dst(), PORT), 10);
    let job = tx.resend_tcp_ack(dst(), PORT);
    assert!(send(&mut tx, job).is_empty());
}

#[test]
fn segments_carry_the_payload() {
    let mut tx = downstreamer();
    tx.set_tcp_send_window(dst(), PORT, 5000);
    let data = bytes(3000);
    let job = tx.append_to_cache(dst(), PORT, &data).unwrap();
    let frames = send(&mut tx, job);
    let lens: Vec<usize> = frames.iter().map(|frame| payload(frame).len()).collect();
    assert_eq!(lens, vec![1160, 1160, 680]);
    let sequences: Vec<u32> = frames.iter().map(|frame| tcp(frame).sequence).collect();
    assert_eq!(sequences, vec![0, 1160, 2320]);
    let identifications: Vec<u16> = frames
        .iter()
        .map(|frame| ipv4(frame).identification)
        .collect();
    assert_eq!(identifications, vec![0, 1, 2]);
    let carried: Vec<u8> = frames.iter().flat_map(payload).collect();
    assert_eq!(carried, data);
    let job = tx.send_tcp_ack_0(dst(), PORT);
    assert_eq!(tcp(&send(&mut tx, job)[0]).sequence, 3000);
}

#[test]
fn segments_stop_where_sending_fails() {
    let mut tx = downstreamer();
    tx.set_tcp_send_window(dst(), PORT, 5000);
    let job = tx.append_to_cache(dst(), PORT, &bytes(3000)).unwrap();
    let job = tx.sent(job);
    drop(job);
    let job = tx.send_tcp_ack_0(dst(), PORT);
    assert_eq!(tcp(&send(&mut tx, job)[0]).sequence, 1160);
    assert_eq!(tx.get_cache_size(dst(), PORT), 3000);
    let job = tx.resend_tcp_ack(dst(), PORT);
    let carried: Vec<u8> = send(&mut tx, job).iter().flat_map(payload).collect();
    assert_eq!(carried, bytes(3000));
}

#[test]
fn send_window_limits_what_is_sent() {
    let mut tx = downstreamer();
    tx.set_tcp_send_window(dst(), PORT, 100);
    let data = bytes(250);
    let job = tx.append_to_cache(dst(), PORT, &data).unwrap();
    let frames = send(&mut tx, job);
    assert_eq!(frames.len(), 1);
    assert_eq!(payload(&frames[0]), data[..100].to_vec());
    let job = tx.send_tcp_ack(dst(), PORT);
    assert!(send(&mut tx, job).is_empty());
    tx.invalidate_cache_to(dst(), PORT, 60);
    assert_eq!(tx.get_cache_size(dst(), PORT), 190);
    let job = tx.send_tcp_ack(dst(), PORT);
    let frames = send(&mut tx, job);
    assert_eq!(tcp(&frames[0]).sequence, 100);
    assert_eq!(payload(&frames[0]), data[100..160].to_vec());
    tx.invalidate_cache_to(dst(), PORT, 160);
    let job = tx.send_tcp_ack(dst(), PORT);
    assert_eq!(payload(&send(&mut tx, job)[0]), data[160..].to_vec());
    tx.invalidate_cache_to(dst(), PORT, 250);
    assert_eq!(tx.get_cache_size(dst(), PORT), 0);
}

#[test]
fn a_smaller_send_window_holds_back_everything() {
    let mut tx = downstreamer();
    tx.set_tcp_send_window(dst(), PORT, 100);
    let job = tx.append_to_cache(dst(), PORT, &bytes(250)).unwrap();
    assert_eq!(send(&mut tx, job).len(), 1);
    tx.set_tcp_send_window(dst(), PORT, 50);
    let job = tx.send_tcp_ack(dst(), PORT);
    assert!(send(&mut tx, job).is_empty());
}

#[test]
fn acknowledged_bytes_are_not_resent() {
    let mut tx = downstreamer();
    tx.set_tcp_send_window(dst(), PORT, 5000);
    let data = bytes(3000);
    let job = tx.append_to_cache(dst(), PORT, &data).unwrap();
    send(&mut tx, job);
    tx.invalidate_cache_to(dst(), PORT, 1200);
    let job = tx.resend_tcp_ack(dst(), PORT);
    let frames = send(&mut tx, job);
    assert_eq!(tcp(&frames[0]).sequence, 1200);
    let carried: Vec<u8> = frames.iter().flat_map(payload).collect();
    assert_eq!(carried, data[1200..].to_vec());
    let job = tx.send_tcp_ack_0(dst(), PORT);
    assert_eq!(tcp(&send(&mut tx, job)[0]).sequence, 3000);
}

#[test]
fn an_old_acknowledgement_is_ignored() {
    let mut tx = downstreamer();
    tx.set_tcp_send_window(dst(), PORT, 5000);
    let job = tx.append_to_cache(dst(), PORT, &bytes(500)).unwrap();
    send(&mut tx, job);
    tx.invalidate_cache_to(dst(), PORT, 400);
    tx.invalidate_cache_to(dst(), PORT, 100);
    assert_eq!(tx.get_cache_size(dst(), PORT), 100);
}

#[test]
fn acknowledgement_wraps_past_the_last_number() {
    let mut tx = downstreamer();
    tx.set_tcp_acknowledgement(dst(), PORT, u32::MAX - 5);
    tx.add_tcp_acknowledgement(dst(), PORT, 5);
    let job = tx.send_tcp_ack_0(dst(), PORT);
    assert_eq!(tcp(&send(&mut tx, job)[0]).acknowledgement, u32::MAX);
    tx.add_tcp_acknowledgement(dst(), PORT, 10);
    let job = tx.send_tcp_ack_0(dst(), PORT);
    assert_eq!(tcp(&send(&mut tx, job)[0]).acknowledgement, 10);
}

#[test]
fn identification_wraps_and_is_kept_per_address() {
    let mut tx = downstreamer();
    for _ in 0..65536u32 {
        let job = tx.send_tcp_ack_0(dst(), PORT);
        tx.sent(job);
    }
    let job = tx.send_tcp_ack_0(dst(), PORT);
    assert_eq!(ipv4(&send(&mut tx, job)[0]).identification, 0);
    let job = tx.send_tcp_ack_0(SocketAddrV4::new(1, 2), PORT);
    assert_eq!(ipv4(&send(&mut tx, job)[0]).identification, 0);
    let job = tx.send_tcp_ack_0(SocketAddrV4::new(dst().ip, 80), PORT);
    assert_eq!(ipv4(&send(&mut tx, job)[0]).identification, 1);
}

#[test]
fn removed_connection_is_forgotten() {
    let mut tx = downstreamer();
    let other = SocketAddrV4::new(dst().ip, 80);
    for addr in [dst(), other] {
        tx.set_tcp_send_window(addr, PORT, 100);
        tx.set_tcp_acknowledgement(addr, PORT, 9);
        tx.set_tcp_window(addr, PORT, 8);
        let job = tx.append_to_cache(addr, PORT, &bytes(250)).unwrap();
        send(&mut tx, job);
    }
    tx.remove(dst(), PORT);
    assert_eq!(tx.get_cache_size(dst(), PORT), 0);
    let job = tx.send_tcp_ack_0(dst(), PORT);
    let segment = tcp(&send(&mut tx, job)[0]);
    assert_eq!(
        (segment.sequence, segment.acknowledgement, segment.window),
        (0, 0, 65535)
    );
    let job = tx.append_to_cache(dst(), PORT, &bytes(3)).unwrap();
    assert!(send(&mut tx, job).is_empty());
    assert_eq!(tx.get_cache_size(other, PORT), 250);
    let job = tx.send_tcp_ack_0(other, PORT);
    let segment = tcp(&send(&mut tx, job)[0]);
    assert_eq!(
        (segment.sequence, segment.acknowledgement, segment.window),
        (100, 9, 8)
    );
}

fn packets(n: usize) -> Vec<Frame> {
    let mut tx = downstreamer();
    let job = tx.send_udp(dst(), PORT, &bytes(n));
    let frames = send(&mut tx, job);
    let carried: Vec<u8> = frames.iter().flat_map(payload).collect();
    assert_eq!(carried, bytes(n));
    for frame in &frames {
        assert_eq!(ipv4(frame).identification, 0);
        assert_eq!(ipv4(frame).kind, LayerType::Udp);
    }
    let job = tx.send_udp(dst(), PORT, &bytes(1));
    assert_eq!(ipv4(&send(&mut tx, job)[0]).identification, 1);
    frames
}

#[test]
fn empty_datagram_is_one_packet() {
    let frames = packets(0);
    assert_eq!(frames.len(), 1);
    match frames[0].indicator.transport {
        Some(Transport::Udp(udp)) => {
            assert_eq!((udp.src_ip_addr, udp.src), (dst().ip, dst().port));
            assert_eq!((udp.dst_ip_addr, udp.dst), (SRC, PORT));
        }
        _ => panic!("not UDP"),
    }
    assert_eq!(frames[0].indicator.get_size(), 42);
}

#[test]
fn datagram_that_fits_is_one_packet() {
    let frames = packets(1172);
    assert_eq!(frames.len(), 1);
    assert!(!ipv4(&frames[0]).is_fragment());
}

#[test]
fn last_packet_has_at_least_a_unit() {
    let frames = packets(1173);
    assert_eq!(frames.len(), 2);
    assert_eq!(payload(&frames[0]).len(), 1160);
    assert!(ipv4(&frames[0]).more_fragments);
    assert!(frames[0].indicator.transport.is_some());
    assert_eq!(payload(&frames[1]).len(), 13);
    assert!(!ipv4(&frames[1]).more_fragments);
    assert_eq!(ipv4(&frames[1]).fragment_offset, 146);
    assert!(frames[1].indicator.transport.is_none());
}

#[test]
fn datagram_is_split_in_units() {
    let frames = packets(3000);
    let lens: Vec<usize> = frames.iter().map(|frame| payload(frame).len()).collect();
    assert_eq!(lens, vec![1168, 1176, 656]);
    let offsets: Vec<u16> = frames
        .iter()
        .map(|frame| ipv4(frame).fragment_offset)
        .collect();
    assert_eq!(offsets, vec![0, 147, 294]);
    let more: Vec<bool> = frames
        .iter()
        .map(|frame| ipv4(frame).more_fragments)
        .collect();
    assert_eq!(more, vec![true, true, false]);
}

#[test]
fn stopped_datagram_keeps_the_identification() {
    let mut tx = downstreamer();
    let job = tx.send_udp(dst(), PORT, &bytes(3000));
    let job = tx.sent(job);
    let job = tx.sent(job);
    assert!(tx.frame(&job).is_some());
    drop(job);
    let job = tx.send_udp(dst(), PORT, &bytes(1));
    assert_eq!(ipv4(&send(&mut tx, job)[0]).identification, 0);
    let job = tx.send_udp(dst(), PORT, &bytes(1));
    assert_eq!(ipv4(&send(&mut tx, job)[0]).identification, 1);
}

#[test]
fn stopped_segments_move_by_segment() {
    let mut tx = downstreamer();
    let job = Downstreamer::send_tcp_ack_raw(dst(), PORT, 0, bytes(3000));
    let job = tx.sent(job);
    let job = tx.sent(job);
    drop(job);
    let job = tx.send_tcp_ack_0(dst(), PORT);
    let frames = send(&mut tx, job);
    assert_eq!(tcp(&frames[0]).sequence, 2320);
    assert_eq!(ipv4(&frames[0]).identification, 2);
}

#[test]
fn resent_bytes_keep_the_sequence() {
    let mut tx = downstreamer();
    let job = Downstreamer::send_tcp_ack_raw(dst(), PORT, 0, bytes(5000));
    assert_eq!(send(&mut tx, job).len(), 5);
    let job = Downstreamer::send_tcp_ack_raw(dst(), PORT, 100, bytes(2000));
    let sequences: Vec<u32> = send(&mut tx, job)
        .iter()
        .map(|frame| tcp(frame).sequence)
        .collect();
    assert_eq!(sequences, vec![100, 1260]);
    let job = tx.send_tcp_ack_0(dst(), PORT);
    assert_eq!(tcp(&send(&mut tx, job)[0]).sequence, 5000);
}

#[test]
fn payload_beyond_a_window_is_cut_too() {
    let mut tx = downstreamer();
    let data = bytes(100_000);
    let job = Downstreamer::send_tcp_ack_raw(dst(), PORT, 7, data.clone());
    let frames = send(&mut tx, job);
    assert_eq!(frames.len(), 87);
    let carried: Vec<u8> = frames.iter().flat_map(payload).collect();
    assert_eq!(carried, data);
    assert_eq!(tcp(&frames[86]).sequence, 7 + 86 * 1160);
    let job = Downstreamer::send_tcp_ack_raw(dst(), PORT, 7, Vec::new());
    assert!(send(&mut tx, job).is_empty());
}

#[test]
fn queued_bytes_follow_the_sent_ones() {
    let mut tx = downstreamer();
    tx.set_tcp_send_window(dst(), PORT, 1000);
    let job = tx.append_to_cache(dst(), PORT, &bytes(10)).unwrap();
    send(&mut tx, job);
    tx.invalidate_cache_to(dst(), PORT, 4);
    let job = tx.append_to_cache(dst(), PORT, &[9]).unwrap();
    assert_eq!(tcp(&send(&mut tx, job)[0]).sequence, 10);
    let job = tx.resend_tcp_ack(dst(), PORT);
    let frames = send(&mut tx, job);
    assert_eq!(tcp(&frames[0]).sequence, 4);
    assert_eq!(payload(&frames[0]), vec![4, 5, 6, 7, 8, 9, 9]);
}

#[test]
fn stopped_transmission_spares_other_connections() {
    let mut tx = downstreamer();
    let other = SocketAddrV4::new(dst().ip, 80);
    tx.set_tcp_send_window(other, PORT, 10);
    let job = tx.append_to_cache(other, PORT, &bytes(30)).unwrap();
    send(&mut tx, job);
    let job = Downstreamer::send_tcp_ack_raw(dst(), PORT, 0, bytes(3000));
    let job = tx.sent(job);
    drop(job);
    assert_eq!(tx.get_cache_size(other, PORT), 30);
    let job = tx.send_tcp_ack_0(other, PORT);
    assert_eq!(tcp(&send(&mut tx, job)[0]).sequence, 10);
}
