use catnip::collections::waker_page::WakerRef;
use catnip::fail::Fail;
use catnip::protocols::ip::Port;
use catnip::collections::bytes::Bytes;
use catnip::protocols::ipv4::{octets, Endpoint, Ipv4Header};
use catnip::runtime::RuntimeBuf;
use catnip::protocols::udp::listener::Listener;
use catnip::protocols::udp::options::UdpOptions;
use catnip::protocols::udp::socket::Socket;
use catnip::protocols::udp::UdpHeader;
use std::collections::VecDeque;

/// Tests instantiations flavors for [UdpOptions].
#[test]
fn test_udp_options() {
    //Default options.
    let options_default = UdpOptions::default();
    assert!(!options_default.rx_checksum());
    assert!(!options_default.tx_checksum());

    // Custom options.
    let options_custom = UdpOptions::new(true, true);
    assert!(options_custom.rx_checksum());
    assert!(options_custom.tx_checksum());
}

#[test]
fn udp_options_are_independent() {
    let rx_only = UdpOptions::new(true, false);
    assert!(rx_only.rx_checksum());
    assert!(!rx_only.tx_checksum());
    let tx_only = UdpOptions::new(false, true);
    assert!(!tx_only.rx_checksum());
    assert!(tx_only.tx_checksum());
}

#[test]
fn port_zero_is_refused() {
    match Port::try_from(0) {
        Err(Fail::OutOfRange { details }) => assert_eq!(details, "port number may not be zero"),
        _ => panic!("port zero was accepted"),
    }
    assert_eq!(Port::try_from(80).unwrap().into(), 80);
    assert_eq!(Port::try_from(u16::MAX).unwrap().into(), u16::MAX);
}

#[test]
fn socket_local_and_remote() {
    let mut socket = Socket::default();
    assert_eq!(socket.local(), None);
    assert_eq!(socket.remote(), None);
    let local = Endpoint::new(0xC0A8_0101, Port::try_from(80).unwrap());
    socket.set_local(Some(local));
    assert_eq!(socket.local(), Some(local));
    assert_eq!(socket.remote(), None);
    socket.set_local(None);
    assert_eq!(socket.local(), None);
}

#[test]
fn endpoint_getters() {
    let port = Port::try_from(8080).unwrap();
    let endpoint = Endpoint::new(0x0A00_0001, port);
    assert_eq!(endpoint.address(), 0x0A00_0001);
    assert_eq!(endpoint.port(), port);
}

#[test]
fn udp_header_getters() {
    let src = Port::try_from(1234).unwrap();
    let dst = Port::try_from(80).unwrap();
    let header = UdpHeader::new(Some(src), dst);
    assert_eq!(header.src_port(), Some(src));
    assert_eq!(header.dest_port(), dst);
    assert_eq!(header.size(), 8);
    let anonymous = UdpHeader::new(None, dst);
    assert_eq!(anonymous.src_port(), None);
    assert_eq!(anonymous.dest_port(), dst);
}

#[test]
fn listener_is_a_queue() {
    let from = Endpoint::new(1, Port::try_from(9).unwrap());
    let mut listener: Listener<u32> = Listener::default();
    assert_eq!(listener.len(), 0);
    assert_eq!(listener.pop_data(), None);
    listener.push_data(Some(from), 10);
    listener.push_data(None, 20);
    listener.push_data(Some(from), 30);
    assert_eq!(listener.len(), 3);
    assert_eq!(listener.pop_data(), Some((Some(from), 10)));
    assert_eq!(listener.pop_data(), Some((None, 20)));
    assert_eq!(listener.len(), 1);
    assert_eq!(listener.pop_data(), Some((Some(from), 30)));
    assert_eq!(listener.pop_data(), None);
}

#[test]
fn listener_keeps_one_waker() {
    let mut queue = VecDeque::new();
    queue.push_back((None, 1u8));
    let mut listener = Listener::new(queue, Some(WakerRef::from_raw(5)));
    assert_eq!(listener.len(), 1);
    assert_eq!(listener.take_waker(), Some(WakerRef::from_raw(5)));
    assert_eq!(listener.take_waker(), None);
    listener.put_waker(Some(WakerRef::from_raw(6)));
    listener.put_waker(Some(WakerRef::from_raw(7)));
    assert_eq!(listener.take_waker(), Some(WakerRef::from_raw(7)));
    listener.put_waker(None);
    assert_eq!(listener.take_waker(), None);
    assert_eq!(listener.pop_data(), Some((None, 1)));
}

fn addresses() -> Ipv4Header {
    Ipv4Header { src_addr: 0xC0A8_0101, dst_addr: 0xC0A8_0102 }
}

fn port(n: u16) -> Port {
    Port::try_from(n).unwrap()
}

#[test]
fn octets_are_in_network_order() {
    assert_eq!(octets(0xC0A8_0102), vec![192, 168, 1, 2]);
    assert_eq!(octets(0), vec![0, 0, 0, 0]);
    assert_eq!(octets(u32::MAX), vec![255, 255, 255, 255]);
}

#[test]
fn udp_header_serializes_with_checksum() {
    let header = UdpHeader::new(Some(port(1234)), port(80));
    let data = [0x5au8; 32];
    let mut buf = vec![0xeeu8; 10];
    header.serialize(&mut buf, &addresses(), &data, false);
    assert_eq!(buf, vec![4, 210, 0, 80, 0, 40, 209, 130, 0xee, 0xee]);
    // An odd number of bytes is padded with a zero byte for the sum.
    let anonymous = UdpHeader::new(None, port(53));
    let mut buf = vec![0u8; 8];
    anonymous.serialize(&mut buf, &addresses(), &[1, 2, 3], false);
    assert_eq!(buf, vec![0, 0, 0, 53, 0, 11, 120, 77]);
}

#[test]
fn udp_header_serializes_without_checksum() {
    let header = UdpHeader::new(Some(port(1234)), port(80));
    let mut buf = vec![0xffu8; 8];
    header.serialize(&mut buf, &addresses(), &[0x5a; 32], true);
    assert_eq!(buf, vec![4, 210, 0, 80, 0, 40, 0, 0]);
    let mut empty = vec![0xffu8; 8];
    header.serialize(&mut empty, &addresses(), &[], true);
    assert_eq!(empty, vec![4, 210, 0, 80, 0, 8, 0, 0]);
}

fn datagram(header: &[u8], data: &[u8]) -> Bytes {
    let mut bytes = header.to_vec();
    bytes.extend_from_slice(data);
    Bytes::from_slice(&bytes)
}

#[test]
fn udp_header_parses_what_was_serialized() {
    let data = [0x5au8; 32];
    for no_checksum in [false, true] {
        let header = UdpHeader::new(Some(port(1234)), port(80));
        let mut buf = vec![0u8; 8];
        header.serialize(&mut buf, &addresses(), &data, no_checksum);
        for skip_check in [false, true] {
            let (parsed, payload) =
                UdpHeader::parse(&addresses(), datagram(&buf, &data), skip_check).unwrap();
            assert_eq!(parsed.src_port(), Some(port(1234)));
            assert_eq!(parsed.dest_port(), port(80));
            assert_eq!(*payload, data);
        }
    }
    // No source port.
    let (parsed, payload) =
        UdpHeader::parse(&addresses(), datagram(&[0, 0, 0, 53, 0, 11, 120, 77], &[1, 2, 3]), false)
            .unwrap();
    assert_eq!(parsed.src_port(), None);
    assert_eq!(parsed.dest_port(), port(53));
    assert_eq!(*payload, [1, 2, 3]);
}

fn refusal(header: &[u8], data: &[u8], no_checksum: bool) -> Fail {
    match UdpHeader::parse(&addresses(), datagram(header, data), no_checksum) {
        Ok(_) => panic!("a bad datagram was accepted"),
        Err(fail) => fail,
    }
}

#[test]
fn udp_header_refuses_bad_datagrams() {
    assert_eq!(
        refusal(&[4, 210, 0, 80, 0, 40, 209], &[], false),
        Fail::Malformed { details: "UDP segment too small" }
    );
    assert_eq!(refusal(&[], &[], true), Fail::Malformed { details: "UDP segment too small" });
    assert_eq!(
        refusal(&[4, 210, 0, 0, 0, 8, 0, 0], &[], false),
        Fail::OutOfRange { details: "port number may not be zero" }
    );
    assert_eq!(
        refusal(&[4, 210, 0, 80, 0, 41, 209, 130], &[0x5a; 32], false),
        Fail::Malformed { details: "UDP length mismatch" }
    );
    assert_eq!(
        refusal(&[4, 210, 0, 80, 0, 40, 209, 130], &[0x5a; 31], true),
        Fail::Malformed { details: "UDP length mismatch" }
    );
    assert_eq!(
        refusal(&[4, 210, 0, 80, 0, 40, 209, 131], &[0x5a; 32], false),
        Fail::Malformed { details: "UDP checksum mismatch" }
    );
    let mut corrupted = [0x5au8; 32];
    corrupted[7] = 0x5b;
    assert_eq!(
        refusal(&[4, 210, 0, 80, 0, 40, 209, 130], &corrupted, false),
        Fail::Malformed { details: "UDP checksum mismatch" }
    );
    // The checksum is not looked at where that is switched off.
    assert!(UdpHeader::parse(
        &addresses(),
        datagram(&[4, 210, 0, 80, 0, 40, 209, 131], &[0x5a; 32]),
        true
    )
    .is_ok());
    // Another pair of addresses gives another checksum.
    let elsewhere = Ipv4Header { src_addr: 0xC0A8_0101, dst_addr: 0xC0A8_0103 };
    assert!(UdpHeader::parse(
        &elsewhere,
        datagram(&[4, 210, 0, 80, 0, 40, 209, 130], &[0x5a; 32]),
        false
    )
    .is_err());
}

#[test]
fn listener_pop_waits_for_data() {
    let from = Endpoint::new(7, port(9));
    let mut listener: Listener<u8> = Listener::default();
    // Nothing waits: the task leaves its wake handle.
    assert_eq!(listener.poll_pop(WakerRef::from_raw(3)), None);
    assert_eq!(listener.poll_pop(WakerRef::from_raw(4)), None);
    listener.push_data(Some(from), 1);
    listener.push_data(None, 2);
    // The one who pushes finds the task to wake.
    assert_eq!(listener.take_waker(), Some(WakerRef::from_raw(4)));
    assert_eq!(listener.poll_pop(WakerRef::from_raw(4)), Some((Some(from), 1)));
    // Data was there: no wake handle is left behind.
    assert_eq!(listener.take_waker(), None);
    assert_eq!(listener.poll_pop(WakerRef::from_raw(4)), Some((None, 2)));
    assert_eq!(listener.poll_pop(WakerRef::from_raw(5)), None);
    assert_eq!(listener.take_waker(), Some(WakerRef::from_raw(5)));
}

#[test]
fn listener_pops_batch_in_order() {
    let mut listener: Listener<u8> = Listener::default();
    assert_eq!(listener.poll_pop_batch(WakerRef::from_raw(1)), None);
    assert_eq!(listener.take_waker(), Some(WakerRef::from_raw(1)));
    for n in 0..5 {
        listener.push_data(None, n);
    }
    assert_eq!(
        listener.poll_pop_batch(WakerRef::from_raw(1)),
        Some(vec![(None, 0), (None, 1), (None, 2), (None, 3), (None, 4)])
    );
    assert_eq!(listener.len(), 0);
    assert_eq!(listener.take_waker(), None);
    assert_eq!(listener.poll_pop_batch(WakerRef::from_raw(2)), None);
}
