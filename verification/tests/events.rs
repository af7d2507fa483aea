use gpiocdev::line::{EdgeKind, Value, Values};
use gpiocdev::request::{
    edge_event_from_slice, edge_event_size, edge_event_u64_size, lone_index, offset_index,
    reconfiguration, v1_set_values, v1_single_value, v2_set_values, v2_single_value,
    v2_value_query, Config, EventBufferState, Reconfiguration,
};
use gpiocdev::{AbiVersion, Error, UapiCall, UapiError};

fn words(lo: [u8; 4], hi: [u8; 4]) -> u64 {
    u64::from_ne_bytes([lo[0], lo[1], lo[2], lo[3], hi[0], hi[1], hi[2], hi[3]])
}

#[test]
fn request_edge_event_size() {
    assert_eq!(
        edge_event_size(AbiVersion::V1),
        std::mem::size_of::<gpiocdev_uapi::v1::LineEdgeEvent>()
    );
    assert_eq!(
        edge_event_size(AbiVersion::V2),
        std::mem::size_of::<gpiocdev_uapi::v2::LineEdgeEvent>()
    );
    assert_eq!(edge_event_u64_size(AbiVersion::V1), 2);
    assert_eq!(edge_event_u64_size(AbiVersion::V2), 6);
}

#[test]
fn request_edge_event_from_slice() {
    // v2: timestamp, then kind and offset, then seqno and line_seqno
    let rising = gpiocdev_uapi::v2::LineEdgeEventKind::RisingEdge as u32;
    let buf = [
        1234u64,
        words(rising.to_ne_bytes(), 23u32.to_ne_bytes()),
        words(2u32.to_ne_bytes(), 1u32.to_ne_bytes()),
        0,
        0,
        0,
    ];
    let ee = edge_event_from_slice(AbiVersion::V2, &[23], &buf).expect("event should decode");
    assert_eq!(ee.timestamp_ns, 1234);
    assert_eq!(ee.kind, EdgeKind::Rising);
    assert_eq!(ee.offset, 23);
    assert_eq!(ee.seqno, 2);
    assert_eq!(ee.line_seqno, 1);

    // too short
    let err = edge_event_from_slice(AbiVersion::V2, &[23], &buf[0..5]).unwrap_err();
    assert_eq!(
        err,
        Error::Uapi(
            UapiCall::LEEFromBuf,
            UapiError::UnderRead {
                obj: "LineEdgeEvent".into(),
                expected: 48,
                found: 40
            }
        )
    );

    // v1: timestamp, then kind; the offset is the requested line's
    let falling = gpiocdev_uapi::v1::LineEdgeEventKind::FallingEdge as u32;
    let buf = [77u64, words(falling.to_ne_bytes(), [0; 4])];
    let ee = edge_event_from_slice(AbiVersion::V1, &[9], &buf).expect("event should decode");
    assert_eq!(ee.timestamp_ns, 77);
    assert_eq!(ee.kind, EdgeKind::Falling);
    assert_eq!(ee.offset, 9);
    assert_eq!(ee.seqno, 0);
    assert_eq!(ee.line_seqno, 0);

    // unknown kind
    let buf = [77u64, words(42u32.to_ne_bytes(), [0; 4])];
    let err = edge_event_from_slice(AbiVersion::V1, &[9], &buf).unwrap_err();
    assert_eq!(err.message(), "Unexpected kind in uAPI response: 42");
}

#[test]
fn value_helpers() {
    assert_eq!(offset_index(&[3, 5, 7], 5), Ok(1));
    assert_eq!(
        offset_index(&[3, 5, 7], 4).unwrap_err().message(),
        "offset is not a requested line."
    );
    assert_eq!(lone_index(&[3]), Ok(0));
    assert_eq!(
        lone_index(&[3, 4]).unwrap_err().message(),
        "request contains multiple lines."
    );
    let q = v2_value_query(3);
    assert_eq!(q.bits, 0);
    assert_eq!(q.mask, 0b1000);
    let s = v2_single_value(2, Value::Active);
    assert_eq!((s.bits, s.mask), (0b100, 0b100));
    let s = v2_single_value(2, Value::Inactive);
    assert_eq!((s.bits, s.mask), (0, 0b100));
    let v = v1_single_value(1, 0, Value::Active).unwrap();
    assert_eq!(v.get(0), 1);
    assert_eq!(
        v1_single_value(2, 0, Value::Active).unwrap_err().message(),
        "uAPI ABI v1 requires all requested lines."
    );
}

#[test]
fn set_values_helpers() {
    let offsets = [1, 3, 5];
    let vv = Values::from_pairs(&[(1, Value::Active), (3, Value::Inactive), (5, Value::Active)]);
    let v1 = v1_set_values(&vv, &offsets).unwrap();
    assert_eq!((v1.get(0), v1.get(1), v1.get(2)), (1, 0, 1));
    let partial = Values::from_pairs(&[(1, Value::Active)]);
    assert_eq!(
        v1_set_values(&partial, &offsets).unwrap_err().message(),
        "uAPI ABI v1 requires all requested lines."
    );
    let v2 = v2_set_values(&partial, &offsets).unwrap();
    assert_eq!((v2.bits, v2.mask), (0b1, 0b1));
    let other = Values::from_pairs(&[(2, Value::Active)]);
    assert_eq!(
        v2_set_values(&other, &offsets).unwrap_err().message(),
        "no requested lines in set values."
    );
}

#[test]
fn event_buffer_state() {
    let mut s = EventBufferState::new(6, 3);
    assert_eq!(s.capacity(), 3);
    assert_eq!(s.buffer_len(), 18);
    assert!(s.is_empty());
    assert_eq!(s.next_buffered(), None);
    assert_eq!(s.refill(12), (0, 6));
    assert_eq!(s.len(), 1);
    assert_eq!(s.next_buffered(), Some((6, 12)));
    assert_eq!(s.next_buffered(), None);
    assert!(s.is_empty());
    // a capacity of zero holds one event
    let s = EventBufferState::new(2, 0);
    assert_eq!(s.capacity(), 1);
}

#[test]
fn reconfiguration_by_abi() {
    let mut current = Config::default();
    current.with_lines(&[1, 2]).as_input();
    let mut update = Config::default();
    update.with_lines(&[1, 2]).as_output(Value::Active);
    let cfg = current.overlay(&update);
    match reconfiguration(&current, &cfg, AbiVersion::V1).unwrap() {
        Reconfiguration::V1(hc) => {
            assert_eq!(hc.values.get(0), 1);
            assert_eq!(hc.values.get(1), 1);
        }
        _ => panic!("not a v1 reconfiguration"),
    }
    match reconfiguration(&current, &cfg, AbiVersion::V2).unwrap() {
        Reconfiguration::V2(lc) => assert_eq!(lc.num_attrs, 1),
        _ => panic!("not a v2 reconfiguration"),
    }
    let mut edges = Config::default();
    edges.with_line(1).with_edge_detection(Some(gpiocdev::line::EdgeDetection::RisingEdge));
    let mut cur = Config::default();
    cur.with_line(1).as_input();
    let cfg = cur.overlay(&edges);
    assert_eq!(
        reconfiguration(&cur, &cfg, AbiVersion::V1).unwrap_err().message(),
        "uAPI ABI v1 cannot reconfigure edge detection."
    );
}
