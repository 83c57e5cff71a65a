use rtc_datachannel::port::get_available_port;
use rtc_datachannel::shim::{ClientSslPackets, ShimReadError};
use rtc_datachannel::tsn::max_tsn;

#[test]
fn max_tsn_examples() {
    assert_eq!(max_tsn(1, 2), 2);
    assert_eq!(max_tsn(2, 1), 2);
    assert_eq!(max_tsn(7, 7), 7);
    assert_eq!(max_tsn(0xFFFF_FFFF, 1), 1);
    assert_eq!(max_tsn(1, 0xFFFF_FFFF), 1);
    assert_eq!(max_tsn(5, 5u32.wrapping_add(0x7FFF_FFFF)), 5u32.wrapping_add(0x7FFF_FFFF));
    assert_eq!(max_tsn(0, 0x8000_0000), 0);
    for a in [0u32, 1, 0x7FFF_FFFF, 0x8000_0000, 0xFFFF_FFFF] {
        for k in [0u32, 1, 1000, 0x7FFF_FFFF] {
            let b = a.wrapping_add(k);
            assert_eq!(max_tsn(a, b), b);
            assert_eq!(max_tsn(a, b), max_tsn(b, a));
        }
    }
}

#[test]
fn shim_reads_whole_datagrams() {
    let mut q = ClientSslPackets::new();
    assert_eq!(q.read(100), Err(ShimReadError::WouldBlock));
    q.push_incoming(vec![1, 2, 3]);
    q.push_incoming(vec![4, 5, 6, 7, 8]);
    assert_eq!(q.read(100), Ok(vec![1, 2, 3]));
    assert_eq!(q.read(4), Err(ShimReadError::IncompletePacketRead));
    assert_eq!(q.read(100), Err(ShimReadError::WouldBlock));
}

#[test]
fn shim_writes_whole_datagrams() {
    let mut q = ClientSslPackets::new();
    assert_eq!(q.write(&[9, 9]), 2);
    assert_eq!(q.write(&[]), 0);
    assert_eq!(q.write(&[1]), 1);
    assert_eq!(q.take_outgoing(), vec![vec![9, 9], vec![], vec![1]]);
    assert!(q.take_outgoing().is_empty());
}

#[test]
fn first_available_port() {
    assert_eq!(get_available_port(|p| p >= 8042), Some(8042));
    assert_eq!(get_available_port(|_| true), Some(8000));
    assert_eq!(get_available_port(|p| p == 8999), Some(8999));
    assert_eq!(get_available_port(|_| false), None);
    assert_eq!(get_available_port(|p| p == 9000), None);
}
