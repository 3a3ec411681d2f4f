use pcap2socks::addr::{HardwareAddr, SocketAddrV4};
use pcap2socks::downstream::Downstreamer;
use pcap2socks::packet::Transport;
use pcap2socks::worker::{DatagramRead, DatagramWorker, Reading, StreamRead, StreamWorker};

fn dst() -> SocketAddrV4 {
    SocketAddrV4::new(0x0808_0808, 53)
}

fn downstreamer() -> Downstreamer {
    Downstreamer::new(HardwareAddr::unspecified(), 1, 2)
}

#[test]
fn stream_bytes_are_queued_for_the_source() {
    let mut tx = downstreamer();
    tx.set_tcp_send_window(dst(), 4000, 2);
    let mut worker = StreamWorker::connect(4000, dst());
    match worker.receive(&mut tx, StreamRead::Bytes(vec![1, 2, 3])) {
        Reading::Transmit(job) => {
            let frame = tx.frame(&job).unwrap();
            assert_eq!(frame.payload, Some(vec![1, 2]));
            let job = tx.sent(job);
            assert!(tx.frame(&job).is_none());
        }
        _ => panic!("nothing to send"),
    }
    assert_eq!(tx.get_cache_size(dst(), 4000), 3);
    assert!(!worker.is_closed());
}

#[test]
fn end_of_stream_closes_the_worker() {
    let mut tx = downstreamer();
    let mut worker = StreamWorker::connect(4000, dst());
    assert!(matches!(
        worker.receive(&mut tx, StreamRead::Bytes(Vec::new())),
        Reading::Stop
    ));
    assert!(worker.is_closed());
    assert!(matches!(
        worker.receive(&mut tx, StreamRead::Bytes(vec![1])),
        Reading::Stop
    ));
    assert_eq!(tx.get_cache_size(dst(), 4000), 0);
}

#[test]
fn stream_failure_closes_the_worker() {
    let mut tx = downstreamer();
    let mut worker = StreamWorker::connect(4000, dst());
    assert!(matches!(
        worker.receive(&mut tx, StreamRead::TimedOut),
        Reading::Wait(20)
    ));
    assert!(!worker.is_closed());
    assert!(matches!(
        worker.receive(&mut tx, StreamRead::Failed),
        Reading::Stop
    ));
    assert!(worker.is_closed());
}

#[test]
fn closed_worker_stays_closed() {
    let mut tx = downstreamer();
    let mut worker = StreamWorker::connect(4000, dst());
    worker.close();
    assert!(worker.is_closed());
    assert!(matches!(
        worker.receive(&mut tx, StreamRead::TimedOut),
        Reading::Wait(20)
    ));
    assert!(worker.is_closed());
}

#[test]
fn datagrams_go_to_the_source_port_in_charge() {
    let mut tx = downstreamer();
    let mut worker = DatagramWorker::bind(4000, 32768);
    assert_eq!(worker.get_src_port(), 4000);
    worker.set_src_port(5000);
    assert_eq!(worker.get_src_port(), 5000);
    let read = DatagramRead::Datagram {
        addr: dst(),
        payload: vec![9],
    };
    match worker.receive(&tx, read) {
        Reading::Transmit(job) => {
            let frame = tx.frame(&job).unwrap();
            assert_eq!(frame.payload, Some(vec![9]));
            match frame.indicator.transport {
                Some(Transport::Udp(udp)) => {
                    assert_eq!((udp.src_ip_addr, udp.src), (dst().ip, 53));
                    assert_eq!((udp.dst_ip_addr, udp.dst), (1, 5000));
                }
                _ => panic!("not UDP"),
            }
            let job = tx.sent(job);
            assert!(tx.frame(&job).is_none());
        }
        _ => panic!("nothing to send"),
    }
}

#[test]
fn datagram_failure_closes_the_worker() {
    let tx = downstreamer();
    let mut worker = DatagramWorker::bind(4000, 32768);
    assert!(matches!(
        worker.receive(&tx, DatagramRead::TimedOut),
        Reading::Wait(20)
    ));
    assert!(!worker.is_closed());
    assert!(matches!(
        worker.receive(&tx, DatagramRead::Failed),
        Reading::Stop
    ));
    assert!(worker.is_closed());
    let read = DatagramRead::Datagram {
        addr: dst(),
        payload: Vec::new(),
    };
    assert!(matches!(worker.receive(&tx, read), Reading::Stop));
}
