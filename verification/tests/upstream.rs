use pcap2socks::addr::{flow_key, HardwareAddr, SocketAddrV4};
use pcap2socks::downstream::Downstreamer;
use pcap2socks::packet::{
    Arp, Ethernet, Frame, Indicator, Ipv4, LayerType, Network, Tcp, Transport, Udp,
};
use pcap2socks::step::{AfterTransmit, Command, Delivery, Failure, Next, Step};
use pcap2socks::transmission::Transmission;
use pcap2socks::upstream::{Received, Reception, Upstreamer};

const SRC: u32 = 0x0a06_0001;
const LOCAL: u32 = 0x0a06_0002;
const PORT: u16 = 49152;
const SECOND: u64 = 1_000_000_000;

type JobStep = Step<Transmission, Vec<u8>>;

fn hardware(last: u8) -> HardwareAddr {
    HardwareAddr(2, 0, 0, 0, 0, last)
}

fn dst() -> SocketAddrV4 {
    SocketAddrV4::new(0x0808_0808, 443)
}

fn remote() -> SocketAddrV4 {
    SocketAddrV4::new(0x7f00_0001, 1080)
}

fn key() -> u64 {
    flow_key(PORT, dst())
}

fn open() -> (Upstreamer, Downstreamer) {
    let mut tx = Downstreamer::new(hardware(1), SRC, 0);
    let up = Upstreamer::new(&mut tx, SRC, Some(LOCAL), remote());
    (up, tx)
}

fn indicator(ipv4_src: u32, transport: Option<Transport>) -> Indicator {
    Indicator {
        link: Ethernet {
            kind: LayerType::Ipv4,
            src: hardware(9),
            dst: hardware(1),
        },
        network: Some(Network::Ipv4(Ipv4 {
            identification: 0,
            kind: LayerType::Tcp,
            more_fragments: false,
            fragment_offset: 0,
            src: ipv4_src,
            dst: dst().ip,
            header_size: 20,
        })),
        transport,
    }
}

fn segment(flags: &str, sequence: u32, acknowledgement: u32, window: u16) -> Tcp {
    Tcp {
        src_ip_addr: SRC,
        dst_ip_addr: dst().ip,
        src: PORT,
        dst: dst().port,
        sequence,
        acknowledgement,
        window,
        is_ack: flags.contains('A'),
        is_rst: flags.contains('R'),
        is_syn: flags.contains('S'),
        is_fin: flags.contains('F'),
        header_size: 20,
    }
}

fn handle(up: &mut Upstreamer, tx: &mut Downstreamer, indicator: Indicator, payload: &[u8]) -> JobStep {
    let mut buffer = vec![0u8; indicator.get_size()];
    buffer.extend_from_slice(payload);
    assert!(up.is_admissible(&indicator, buffer.len()));
    let received = Received::Frame {
        indicator: Some(indicator),
        buffer,
    };
    match up.open(tx, received) {
        Reception::Handle(step) => step,
        _ => panic!("not handled"),
    }
}

fn handle_tcp(up: &mut Upstreamer, tx: &mut Downstreamer, tcp: Tcp, payload: &[u8]) -> JobStep {
    handle(up, tx, indicator(SRC, Some(Transport::Tcp(tcp))), payload)
}

fn send(tx: &mut Downstreamer, mut transmission: Transmission) -> Vec<Frame> {
    let mut frames = Vec::new();
    while let Some(frame) = tx.frame(&transmission) {
        frames.push(frame);
        transmission = tx.sent(transmission);
    }
    frames
}

fn tcp_of(frame: &Frame) -> Tcp {
    match frame.indicator.transport {
        Some(Transport::Tcp(tcp)) => tcp,
        _ => panic!("not TCP"),
    }
}

fn transmit(tx: &mut Downstreamer, step: JobStep) -> (Vec<Frame>, AfterTransmit) {
    match step.next {
        Next::Transmit { job, then } => (send(tx, job), then),
        _ => panic!("nothing to send"),
    }
}

fn assert_finished(step: &JobStep) {
    assert!(matches!(step.next, Next::Finish));
    assert_eq!(step.command, Command::Nothing);
}

/// Connects the stream for which a SYN with the number `sequence` asks.
fn establish(up: &mut Upstreamer, tx: &mut Downstreamer, sequence: u32) {
    let syn = segment("S", sequence, 0, 1000);
    let step = handle_tcp(up, tx, syn, &[]);
    match step.next {
        Next::Connect {
            key: asked,
            dst: to,
            remote: through,
            tcp,
        } => {
            assert_eq!(asked, key());
            assert_eq!(to, dst());
            assert_eq!(through, remote());
            assert_eq!(tcp, syn);
        }
        _ => panic!("no stream asked for"),
    }
    let step = up.after_connect(tx, syn, true);
    let (frames, then) = transmit(tx, step);
    assert_eq!(frames.len(), 1);
    assert!(tcp_of(&frames[0]).is_syn && tcp_of(&frames[0]).is_ack);
    assert_eq!(tcp_of(&frames[0]).acknowledgement, sequence.wrapping_add(1));
    let step = up.after_transmit(tx, then, true, 0);
    assert_finished(&step);
}

/// Handles an ACK on a stream that is not closed.
fn acknowledge(
    up: &mut Upstreamer,
    tx: &mut Downstreamer,
    tcp: Tcp,
    payload: &[u8],
    now: u64,
) -> JobStep {
    let step = handle_tcp(up, tx, tcp, payload);
    match step.next {
        Next::Inspect {
            key: asked,
            tcp,
            payload,
        } => {
            assert_eq!(asked, key());
            up.after_inspect(tx, tcp, payload, false, now)
        }
        _ => panic!("no stream"),
    }
}

#[test]
fn reception_waits_and_stops() {
    let (mut up, mut tx) = open();
    assert!(matches!(
        up.open(&mut tx, Received::TimedOut),
        Reception::Wait(20)
    ));
    assert!(matches!(
        up.open(&mut tx, Received::Failed),
        Reception::Stop
    ));
    let unknown = Received::Frame {
        indicator: None,
        buffer: vec![1, 2, 3],
    };
    match up.open(&mut tx, unknown) {
        Reception::Handle(step) => assert_finished(&step),
        _ => panic!("not handled"),
    }
}

#[test]
fn arp_request_is_answered() {
    let (mut up, mut tx) = open();
    let arp = Arp {
        is_request: true,
        src_hardware_addr: hardware(9),
        src_ip_addr: SRC,
        dst_hardware_addr: HardwareAddr::unspecified(),
        dst_ip_addr: LOCAL,
    };
    let asked = |arp| Indicator {
        link: Ethernet {
            kind: LayerType::Arp,
            src: hardware(9),
            dst: hardware(1),
        },
        network: Some(Network::Arp(arp)),
        transport: None,
    };
    for other in [
        Arp {
            is_request: false,
            ..arp
        },
        Arp {
            src_ip_addr: 3,
            ..arp
        },
        Arp {
            dst_ip_addr: 3,
            ..arp
        },
    ] {
        let step = handle(&mut up, &mut tx, asked(other), &[]);
        assert_finished(&step);
    }
    let step = handle(&mut up, &mut tx, asked(arp), &[]);
    let (frames, then) = transmit(&mut tx, step);
    assert_eq!(then, AfterTransmit::Finish);
    match frames[0].indicator.network {
        Some(Network::Arp(arp)) => {
            assert_eq!(arp.src_ip_addr, LOCAL);
            assert_eq!(arp.dst_hardware_addr, hardware(9));
        }
        _ => panic!("not ARP"),
    }
}

#[test]
fn arp_is_ignored_without_local_addr() {
    let mut tx = Downstreamer::new(hardware(1), SRC, 0);
    let mut up = Upstreamer::new(&mut tx, SRC, None, remote());
    let arp = Arp {
        is_request: true,
        src_hardware_addr: hardware(9),
        src_ip_addr: SRC,
        dst_hardware_addr: HardwareAddr::unspecified(),
        dst_ip_addr: 0,
    };
    let asked = Indicator {
        link: Ethernet {
            kind: LayerType::Arp,
            src: hardware(9),
            dst: hardware(1),
        },
        network: Some(Network::Arp(arp)),
        transport: None,
    };
    let step = handle(&mut up, &mut tx, asked, &[]);
    assert_finished(&step);
}

#[test]
fn first_hardware_addr_is_kept() {
    let (mut up, mut tx) = open();
    let mut first = indicator(SRC, None);
    let step = handle(&mut up, &mut tx, first, &[]);
    assert_finished(&step);
    first.link.src = hardware(8);
    let step = handle(&mut up, &mut tx, first, &[]);
    assert_finished(&step);
    let job = tx.send_arp_reply();
    assert_eq!(tx.frame(&job).unwrap().indicator.link.dst, hardware(9));
}

#[test]
fn other_hosts_are_ignored() {
    let (mut up, mut tx) = open();
    let tcp = segment("A", 1, 1, 1);
    let step = handle(
        &mut up,
        &mut tx,
        indicator(SRC + 1, Some(Transport::Tcp(tcp))),
        &[],
    );
    assert_finished(&step);
    let job = tx.send_arp_reply();
    assert_eq!(
        tx.frame(&job).unwrap().indicator.link.dst,
        HardwareAddr::unspecified()
    );
}

#[test]
fn fragments_are_reassembled_first() {
    let (mut up, mut tx) = open();
    let mut part = indicator(SRC, None);
    if let Some(Network::Ipv4(ipv4)) = &mut part.network {
        ipv4.more_fragments = true;
    }
    let step = handle(&mut up, &mut tx, part, &[1, 2]);
    assert!(matches!(step.next, Next::Reassemble));
    let step = up.after_reassemble(&mut tx, None);
    assert_finished(&step);
    let whole = indicator(SRC, Some(Transport::Tcp(segment("A", 5, 6, 7))));
    assert!(Upstreamer::is_transport_admissible(&whole, 54));
    let step = up.after_reassemble(&mut tx, Some((whole, vec![0; 54])));
    let (frames, _) = transmit(&mut tx, step);
    assert!(tcp_of(&frames[0]).is_rst);
}

#[test]
fn unknown_connection_is_refused() {
    let (mut up, mut tx) = open();
    for flags in ["A", "F", "AF", "AS"] {
        let step = handle_tcp(&mut up, &mut tx, segment(flags, 5, 6, 7), &[]);
        let (frames, then) = transmit(&mut tx, step);
        assert_eq!(frames.len(), 1);
        let tcp = tcp_of(&frames[0]);
        assert!(tcp.is_rst && !tcp.is_ack);
        assert_eq!((tcp.sequence, tcp.acknowledgement), (0, 0));
        let step = up.after_transmit(&mut tx, then, true, 0);
        assert_finished(&step);
    }
    for flags in ["R", "RA", ""] {
        let step = handle_tcp(&mut up, &mut tx, segment(flags, 5, 6, 7), &[]);
        assert_finished(&step);
    }
}

#[test]
fn link_failure_is_reported() {
    let (mut up, mut tx) = open();
    let step = up.after_transmit(&mut tx, AfterTransmit::Finish, false, 0);
    assert!(matches!(step.next, Next::Fail(Failure::Link)));
    let then = AfterTransmit::Established {
        dst: dst(),
        src_port: PORT,
    };
    let step = up.after_transmit(&mut tx, then, false, 0);
    assert!(matches!(step.next, Next::Fail(Failure::Link)));
    assert_eq!(step.command, Command::Drop(key()));
    let step = handle_tcp(&mut up, &mut tx, segment("A", 1, 1, 1), &[]);
    assert!(matches!(step.next, Next::Transmit { .. }));
}

#[test]
fn syn_opens_a_stream_once() {
    let (mut up, mut tx) = open();
    establish(&mut up, &mut tx, 99);
    let step = handle_tcp(&mut up, &mut tx, segment("S", 99, 0, 1000), &[]);
    assert_finished(&step);
}

#[test]
fn syn_with_the_last_number_is_acknowledged_with_zero() {
    let (mut up, mut tx) = open();
    establish(&mut up, &mut tx, u32::MAX);
    let job = tx.send_tcp_ack_0(dst(), PORT);
    assert_eq!(tcp_of(&send(&mut tx, job)[0]).acknowledgement, 0);
}

#[test]
fn refused_stream_is_reset() {
    let (mut up, mut tx) = open();
    let syn = segment("S", 99, 0, 1000);
    handle_tcp(&mut up, &mut tx, syn, &[]);
    let step = up.after_connect(&mut tx, syn, false);
    assert_eq!(step.command, Command::Nothing);
    let (frames, then) = transmit(&mut tx, step);
    let tcp = tcp_of(&frames[0]);
    assert!(tcp.is_ack && tcp.is_rst);
    assert_eq!(tcp.acknowledgement, 100);
    let step = up.after_transmit(&mut tx, then, true, 0);
    assert!(matches!(step.next, Next::Fail(Failure::Connect)));
    let job = tx.send_tcp_ack_0(dst(), PORT);
    assert_eq!(tcp_of(&send(&mut tx, job)[0]).acknowledgement, 0);
}

#[test]
fn payload_is_written_and_acknowledged() {
    let (mut up, mut tx) = open();
    establish(&mut up, &mut tx, 99);
    let tcp = segment("A", 100, 1, 1000);
    let step = acknowledge(&mut up, &mut tx, tcp, &[1, 2, 3], 0);
    let delivery = match step.next {
        Next::Write {
            key: to,
            payload,
            delivery,
        } => {
            assert_eq!(to, key());
            assert_eq!(payload, vec![1, 2, 3]);
            delivery
        }
        _ => panic!("nothing to write"),
    };
    assert_eq!(
        delivery,
        Delivery {
            dst: dst(),
            src_port: PORT,
            len: 3,
            remaining: 65535
        }
    );
    let step = up.after_write(&mut tx, delivery, true);
    let (frames, then) = transmit(&mut tx, step);
    let tcp = tcp_of(&frames[0]);
    assert_eq!(
        (tcp.sequence, tcp.acknowledgement, tcp.window),
        (1, 103, 65535)
    );
    let step = up.after_transmit(&mut tx, then, true, 0);
    let (frames, then) = transmit(&mut tx, step);
    assert!(frames.is_empty());
    assert_eq!(then, AfterTransmit::Finish);
}

#[test]
fn swapped_payload_is_written_together() {
    let (mut up, mut tx) = open();
    establish(&mut up, &mut tx, 99);
    let first = acknowledge(&mut up, &mut tx, segment("A", 100, 1, 1000), &[1], 0);
    match first.next {
        Next::Write { delivery, .. } => {
            up.after_write(&mut tx, delivery, true);
        }
        _ => panic!("nothing to write"),
    }
    let step = acknowledge(&mut up, &mut tx, segment("A", 103, 1, 1000), &[4, 5], 0);
    let (frames, then) = transmit(&mut tx, step);
    assert_eq!(tcp_of(&frames[0]).acknowledgement, 101);
    assert_eq!(
        then,
        AfterTransmit::Flush {
            dst: dst(),
            src_port: PORT
        }
    );
    let step = acknowledge(&mut up, &mut tx, segment("A", 101, 1, 1000), &[2, 3], 0);
    match step.next {
        Next::Write {
            payload, delivery, ..
        } => {
            assert_eq!(payload, vec![2, 3, 4, 5]);
            assert_eq!(delivery.len, 4);
            let step = up.after_write(&mut tx, delivery, true);
            let (frames, _) = transmit(&mut tx, step);
            assert_eq!(tcp_of(&frames[0]).acknowledgement, 105);
        }
        _ => panic!("nothing to write"),
    }
    let step = acknowledge(&mut up, &mut tx, segment("A", 101, 1, 1000), &[2, 3], 0);
    let (frames, _) = transmit(&mut tx, step);
    assert_eq!(tcp_of(&frames[0]).acknowledgement, 105);
}

#[test]
fn payload_outside_the_window_is_refused() {
    let (mut up, mut tx) = open();
    establish(&mut up, &mut tx, 99);
    let step = acknowledge(&mut up, &mut tx, segment("A", 100, 1, 1000), &[1], 0);
    assert!(matches!(step.next, Next::Write { .. }));
    let step = acknowledge(&mut up, &mut tx, segment("A", 100 + 65536, 1, 1000), &[1], 0);
    assert!(matches!(step.next, Next::Fail(Failure::Cache)));
}

#[test]
fn failed_write_resets_the_connection() {
    let (mut up, mut tx) = open();
    establish(&mut up, &mut tx, 99);
    let step = acknowledge(&mut up, &mut tx, segment("A", 100, 1, 1000), &[1], 0);
    let delivery = match step.next {
        Next::Write { delivery, .. } => delivery,
        _ => panic!("nothing to write"),
    };
    let step = up.after_write(&mut tx, delivery, false);
    assert_eq!(step.command, Command::Drop(key()));
    let (frames, then) = transmit(&mut tx, step);
    let tcp = tcp_of(&frames[0]);
    assert!(tcp.is_ack && tcp.is_rst);
    assert_eq!(tcp.acknowledgement, 100);
    let step = up.after_transmit(&mut tx, then, true, 0);
    assert!(matches!(step.next, Next::Fail(Failure::Stream)));
    let step = handle_tcp(&mut up, &mut tx, segment("A", 101, 1, 1000), &[]);
    let (frames, _) = transmit(&mut tx, step);
    assert!(tcp_of(&frames[0]).is_rst && !tcp_of(&frames[0]).is_ack);
    assert_eq!(tcp_of(&frames[0]).sequence, 0);
}

#[test]
fn reset_forgets_the_connection() {
    let (mut up, mut tx) = open();
    establish(&mut up, &mut tx, 99);
    let step = handle_tcp(&mut up, &mut tx, segment("R", 100, 1, 1000), &[]);
    assert_eq!(step.command, Command::Drop(key()));
    assert!(matches!(step.next, Next::Finish));
    let job = tx.send_tcp_ack_0(dst(), PORT);
    assert_eq!(tcp_of(&send(&mut tx, job)[0]).acknowledgement, 0);
    establish(&mut up, &mut tx, 199);
}

#[test]
fn acknowledgement_after_close_forgets_the_connection() {
    let (mut up, mut tx) = open();
    establish(&mut up, &mut tx, 99);
    let tcp = segment("A", 100, 1, 1000);
    let step = up.after_inspect(&mut tx, tcp, vec![1, 2], true, 0);
    assert_eq!(step.command, Command::Drop(key()));
    assert!(matches!(step.next, Next::Finish));
    let step = handle_tcp(&mut up, &mut tx, tcp, &[]);
    let (frames, _) = transmit(&mut tx, step);
    assert!(tcp_of(&frames[0]).is_rst);
}

#[test]
fn fin_waits_for_data() {
    let (mut up, mut tx) = open();
    establish(&mut up, &mut tx, 99);
    let job = tx.append_to_cache(dst(), PORT, &[1, 2, 3]).unwrap();
    assert!(send(&mut tx, job).is_empty());
    tx.set_tcp_send_window(dst(), PORT, 2);
    let step = handle_tcp(&mut up, &mut tx, segment("F", 100, 1, 2), &[]);
    assert_eq!(step.command, Command::Nothing);
    let (frames, then) = transmit(&mut tx, step);
    assert_eq!(then, AfterTransmit::Finish);
    assert_eq!(frames[0].payload, Some(vec![1, 2]));
    let step = acknowledge(&mut up, &mut tx, segment("A", 100, 3, 2), &[], 0);
    let (frames, _) = transmit(&mut tx, step);
    assert_eq!(frames[0].payload, Some(vec![3]));
    let step = acknowledge(&mut up, &mut tx, segment("A", 100, 4, 2), &[], 0);
    let (frames, _) = transmit(&mut tx, step);
    assert!(frames.is_empty());
    let step = handle_tcp(&mut up, &mut tx, segment("F", 100, 4, 2), &[]);
    assert_eq!(step.command, Command::Close(key()));
    let (frames, _) = transmit(&mut tx, step);
    assert!(tcp_of(&frames[0]).is_ack && tcp_of(&frames[0]).is_fin);
}

/// Repeats an acknowledgement until a retransmission comes, and returns the number of repetitions.
fn duplicates_until_retransmission(
    up: &mut Upstreamer,
    tx: &mut Downstreamer,
    acknowledgement: u32,
    now: u64,
    limit: usize,
) -> usize {
    for i in 1..=limit {
        let step = acknowledge(up, tx, segment("A", 100, acknowledgement, 1000), &[], now);
        let (frames, then) = transmit(tx, step);
        if let AfterTransmit::Retransmitted { .. } = then {
            assert_eq!(frames[0].payload, Some(vec![1, 2, 3]));
            let step = up.after_transmit(tx, then, true, now);
            let (frames, then) = transmit(tx, step);
            assert!(frames.is_empty());
            assert_eq!(then, AfterTransmit::Finish);
            return i;
        }
        assert!(frames.is_empty());
    }
    0
}

#[test]
fn retransmission_takes_duplicates_and_cools_down() {
    let (mut up, mut tx) = open();
    establish(&mut up, &mut tx, 99);
    tx.set_tcp_send_window(dst(), PORT, 1000);
    let job = tx.append_to_cache(dst(), PORT, &[1, 2, 3]).unwrap();
    assert_eq!(send(&mut tx, job).len(), 1);
    let step = acknowledge(&mut up, &mut tx, segment("A", 100, 1, 1000), &[], 0);
    let (frames, _) = transmit(&mut tx, step);
    assert!(frames.is_empty());
    assert_eq!(
        duplicates_until_retransmission(&mut up, &mut tx, 1, SECOND, 9),
        4
    );
    assert_eq!(
        duplicates_until_retransmission(&mut up, &mut tx, 1, 2 * SECOND - 1, 9),
        0
    );
    assert_eq!(
        duplicates_until_retransmission(&mut up, &mut tx, 1, 2 * SECOND, 9),
        1
    );
}

#[test]
fn closed_window_holds_back_retransmission() {
    let (mut up, mut tx) = open();
    establish(&mut up, &mut tx, 99);
    tx.set_tcp_send_window(dst(), PORT, 1000);
    let job = tx.append_to_cache(dst(), PORT, &[1, 2, 3]).unwrap();
    assert_eq!(send(&mut tx, job).len(), 1);
    for _ in 0..9 {
        let step = acknowledge(&mut up, &mut tx, segment("A", 100, 1, 0), &[], 0);
        let (frames, then) = transmit(&mut tx, step);
        assert!(frames.is_empty());
        assert_eq!(then, AfterTransmit::Finish);
    }
}

#[test]
fn new_acknowledgement_resets_the_count() {
    let (mut up, mut tx) = open();
    establish(&mut up, &mut tx, 99);
    tx.set_tcp_send_window(dst(), PORT, 1000);
    let job = tx.append_to_cache(dst(), PORT, &[0, 1, 2, 3]).unwrap();
    assert_eq!(send(&mut tx, job).len(), 1);
    for _ in 0..4 {
        acknowledge(&mut up, &mut tx, segment("A", 100, 1, 1000), &[], 0);
    }
    let step = acknowledge(&mut up, &mut tx, segment("A", 100, 2, 1000), &[], 0);
    let (frames, then) = transmit(&mut tx, step);
    assert!(frames.is_empty());
    assert_eq!(then, AfterTransmit::Finish);
    assert_eq!(
        duplicates_until_retransmission(&mut up, &mut tx, 2, 0, 9),
        4
    );
}

#[test]
fn other_connections_are_spared() {
    let (mut up, mut tx) = open();
    establish(&mut up, &mut tx, 99);
    let mut other = segment("R", 5, 5, 5);
    other.src = PORT + 1;
    let step = handle_tcp(&mut up, &mut tx, other, &[]);
    assert_finished(&step);
    let step = acknowledge(&mut up, &mut tx, segment("A", 100, 1, 1000), &[7], 0);
    assert!(matches!(step.next, Next::Write { .. }));
}

fn datagram(src: u16) -> Udp {
    Udp {
        src_ip_addr: SRC,
        dst_ip_addr: dst().ip,
        src,
        dst: 53,
    }
}

fn handle_udp(up: &mut Upstreamer, tx: &mut Downstreamer, src: u16) -> JobStep {
    let indicator = indicator(SRC, Some(Transport::Udp(datagram(src))));
    handle(up, tx, indicator, &[1, 2])
}

/// Sends a datagram from port `src` of the source, and returns the index of its worker and the
/// source port it was told, if any.
fn send_datagram(up: &mut Upstreamer, tx: &mut Downstreamer, src: u16) -> (usize, Option<u16>) {
    let mut step = handle_udp(up, tx, src);
    let mut told = None;
    loop {
        if let Command::SetSource { src_port, .. } = step.command {
            told = Some(src_port);
        }
        match step.next {
            Next::InspectDatagram {
                index,
                udp,
                payload,
            } => step = up.after_inspect_datagram(index, udp, payload, false),
            Next::Bind {
                index,
                src_port,
                local_port,
                remote: through,
                dst: to,
                payload,
            } => {
                assert_eq!(local_port, 32768 + index as u16);
                assert_eq!(through, remote());
                told = Some(src_port);
                step = up.after_bind(index, src_port, to, payload, true);
            }
            Next::SendDatagram {
                index,
                dst: to,
                payload,
            } => {
                assert_eq!(to, SocketAddrV4::new(dst().ip, 53));
                assert_eq!(payload, vec![1, 2]);
                assert_finished(&Upstreamer::after_send_datagram(true));
                return (index, told);
            }
            _ => panic!("not sent"),
        }
    }
}

#[test]
fn source_ports_get_local_ports_in_turn() {
    let (mut up, mut tx) = open();
    assert_eq!(send_datagram(&mut up, &mut tx, 5000), (0, Some(5000)));
    assert_eq!(send_datagram(&mut up, &mut tx, 5001), (1, Some(5001)));
    assert_eq!(send_datagram(&mut up, &mut tx, 5000), (0, None));
    assert_eq!(send_datagram(&mut up, &mut tx, 65534), (2, Some(65534)));
}

#[test]
fn local_port_is_taken_after_all_others() {
    let (mut up, mut tx) = open();
    for i in 0..64u16 {
        assert_eq!(
            send_datagram(&mut up, &mut tx, 5000 + i),
            (i as usize, Some(5000 + i))
        );
    }
    assert_eq!(send_datagram(&mut up, &mut tx, 5000), (0, None));
    assert_eq!(send_datagram(&mut up, &mut tx, 6000), (0, Some(6000)));
    assert_eq!(send_datagram(&mut up, &mut tx, 5001), (1, None));
    assert_eq!(send_datagram(&mut up, &mut tx, 5000), (1, Some(5000)));
    assert_eq!(send_datagram(&mut up, &mut tx, 5001), (2, Some(5001)));
}

#[test]
fn closed_worker_is_replaced() {
    let (mut up, mut tx) = open();
    assert_eq!(send_datagram(&mut up, &mut tx, 5000), (0, Some(5000)));
    let step = up.after_inspect_datagram(0, datagram(5000), vec![1, 2], true);
    assert_eq!(step.command, Command::Nothing);
    assert!(matches!(
        step.next,
        Next::Bind {
            index: 0,
            src_port: 5000,
            local_port: 32768,
            ..
        }
    ));
}

#[test]
fn datagram_failures_are_reported() {
    let (mut up, mut tx) = open();
    let step = handle_udp(&mut up, &mut tx, 5000);
    assert!(matches!(step.next, Next::Bind { index: 0, .. }));
    let step = up.after_bind(0, 5000, dst(), vec![1], false);
    assert!(matches!(step.next, Next::Fail(Failure::Bind)));
    let step = handle_udp(&mut up, &mut tx, 5000);
    assert!(matches!(step.next, Next::Bind { index: 0, .. }));
    let step = Upstreamer::after_send_datagram(false);
    assert!(matches!(step.next, Next::Fail(Failure::Datagram)));
}

#[test]
fn last_source_port_and_short_datagrams_are_not_admissible() {
    let (up, _) = open();
    let last = indicator(SRC, Some(Transport::Udp(datagram(65535))));
    assert!(!up.is_admissible(&last, 100));
    let mut other = last;
    if let Some(Network::Ipv4(ipv4)) = &mut other.network {
        ipv4.src = SRC + 1;
    }
    assert!(up.is_admissible(&other, 100));
    let usual = indicator(SRC, Some(Transport::Udp(datagram(65534))));
    assert!(up.is_admissible(&usual, 42));
    assert!(!up.is_admissible(&usual, 41));
}

#[test]
fn giving_a_local_port_takes_it_from_one() {
    let (mut up, _) = open();
    for i in 0..64u16 {
        assert_eq!(up.get_local_udp_port(5000 + i), 32768 + i);
    }
    assert_eq!(up.get_local_udp_port(6000), 32768);
    assert_eq!(up.get_local_udp_port(6000), 32768);
    for i in 1..64u16 {
        assert_eq!(up.get_local_udp_port(5000 + i), 32768 + i);
    }
    assert_eq!(up.get_local_udp_port(5000), 32769);
}

#[test]
fn source_port_zero_may_share_a_local_port() {
    let (mut up, _) = open();
    assert_eq!(up.get_local_udp_port(0), 32768);
    for i in 1..64u16 {
        assert_eq!(up.get_local_udp_port(5000 + i), 32768 + i);
    }
    assert_eq!(up.get_local_udp_port(6000), 32768);
    assert_eq!(up.get_local_udp_port(0), 32768);
}
