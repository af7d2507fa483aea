use gpiocdev::chip::{
    check_chip_device, device_numbers_text, info_change_event_from_slice, info_change_event_size,
    info_change_event_u64_size, is_chip_dev_path, order_chip_paths, ErrorKind,
};
use gpiocdev::line::{Direction, Info, InfoChangeKind};
use gpiocdev::{
    detect_abi_version, lines, supports_abi_version,
    AbiSupportKind, AbiVersion, ChipLines, Error, FoundLine, UapiCall, UapiError, UapiField,
};
use std::cmp::Ordering;

#[test]
fn path_compare() {
    assert_eq!(gpiocdev::chip::path_compare("/dev/gpiochip0", "/dev/gpiochip0"), Ordering::Equal);
    assert_eq!(gpiocdev::chip::path_compare("/dev/gpiochip0", "/dev/gpiochip1"), Ordering::Less);
    assert_eq!(gpiocdev::chip::path_compare("/dev/gpiochip3", "/dev/gpiochip10"), Ordering::Less);
    assert_eq!(gpiocdev::chip::path_compare("/dev/gpiochip3", "/dev/gpiochip30"), Ordering::Less);
    assert_eq!(gpiocdev::chip::path_compare("/dev/gpiochip10", "/dev/gpiochip3"), Ordering::Greater);
    assert_eq!(gpiocdev::chip::path_compare("/dev/gpiochip", "/dev/gpiochip1"), Ordering::Less);
    assert_eq!(gpiocdev::chip::path_compare("/dev/gpiechip0", "/dev/gpiochip1"), Ordering::Less);
}

#[test]
fn chip_numbers_order_numerically() {
    for (n, m) in [(0u32, 0u32), (9, 12), (12, 9), (99, 100), (100, 99), (7, 7), (21, 3), (4, 40)] {
        let a = format!("/dev/gpiochip{}", n);
        let b = format!("/dev/gpiochip{}", m);
        assert_eq!(gpiocdev::chip::path_compare(&a, &b), n.cmp(&m), "{} vs {}", a, b);
    }
}

#[test]
fn lib_display() {
    let uc = UapiCall::GetChipInfo;
    assert_eq!(uc.name(), "get_chip_info");
    let uc = UapiCall::GetLine;
    assert_eq!(uc.name(), "get_line");
    let uc = UapiCall::GetLineEvent;
    assert_eq!(uc.name(), "get_line_event");
    let uc = UapiCall::GetLineHandle;
    assert_eq!(uc.name(), "get_line_handle");
    let uc = UapiCall::GetLineInfo;
    assert_eq!(uc.name(), "get_line_info");
    let uc = UapiCall::GetLineValues;
    assert_eq!(uc.name(), "get_line_values");
    let uc = UapiCall::HasEvent;
    assert_eq!(uc.name(), "has_event");
    let uc = UapiCall::LEEFromBuf;
    assert_eq!(uc.name(), "LineEdgeEvent::from_buf");
    let uc = UapiCall::LICEFromBuf;
    assert_eq!(uc.name(), "LineInfoChangeEvent::from_buf");
    let uc = UapiCall::ReadEvent;
    assert_eq!(uc.name(), "read_event");
    let uc = UapiCall::SetLineConfig;
    assert_eq!(uc.name(), "set_line_config");
    let uc = UapiCall::SetLineValues;
    assert_eq!(uc.name(), "set_line_values");
    let uc = UapiCall::WaitEvent;
    assert_eq!(uc.name(), "wait_event");
    let uc = UapiCall::WatchLineInfo;
    assert_eq!(uc.name(), "watch_line_info");
    let uc = UapiCall::UnwatchLineInfo;
    assert_eq!(uc.name(), "unwatch_line_info");
}

#[test]
fn display() {
    let ask = AbiSupportKind::Build;
    assert_eq!(ask.name(), "build");
    let ask = AbiSupportKind::Kernel;
    assert_eq!(ask.name(), "kernel");
}

#[test]
fn error_messages() {
    assert_eq!(
        Error::AbiLimitation(AbiVersion::V1, "does not support debounce".into()).message(),
        "uAPI ABI v1 does not support debounce."
    );
    assert_eq!(
        Error::GpioChip("/dev/null".into(), ErrorKind::NotGpioDevice).message(),
        "\"/dev/null\" is not a GPIO character device."
    );
    assert_eq!(
        Error::GpioChip("/tmp".into(), ErrorKind::NotCharacterDevice).message(),
        "\"/tmp\" is not a character device."
    );
    assert_eq!(Error::InvalidArgument("bad".into()).message(), "bad");
    assert_eq!(Error::NoGpioChips().message(), "No GPIO chips are available");
    assert_eq!(
        Error::NonuniqueLineName("LED0".into()).message(),
        "Line name 'LED0' is not unique"
    );
    assert_eq!(
        Error::Uapi(
            UapiCall::LEEFromBuf,
            UapiError::UnderRead {
                obj: "LineEdgeEvent".into(),
                expected: 48,
                found: 16
            }
        )
        .message(),
        "uAPI LineEdgeEvent::from_buf returned: Reading LineEdgeEvent returned 16 bytes, expected 48."
    );
    assert_eq!(
        Error::UnexpectedResponse(UapiField::Kind, "42".into()).message(),
        "Unexpected kind in uAPI response: 42"
    );
    assert_eq!(
        Error::UnsupportedAbi(AbiVersion::V2, AbiSupportKind::Kernel).message(),
        "uAPI ABI v2 is not supported by the kernel."
    );
    assert_eq!(
        Error::NoAbiSupport().message(),
        "uAPI ABI is not supported by the kernel."
    );
    let os = Error::Uapi(UapiCall::GetLineInfo, UapiError::Os(2)).message();
    assert!(os.starts_with("uAPI get_line_info returned: "));
    assert_eq!(
        Error::Os(2).message(),
        gpiocdev_uapi::Errno(2).to_string()
    );
}

#[test]
fn chip_dev_paths() {
    assert!(is_chip_dev_path("/dev/gpiochip0"));
    assert!(is_chip_dev_path("/dev/gpiochip123"));
    assert!(is_chip_dev_path("/dev/gpiochip"));
    assert!(!is_chip_dev_path("/dev/gpiochip0a"));
    assert!(!is_chip_dev_path("/dev/gpiochi"));
    assert!(!is_chip_dev_path("/sys/gpiochip0"));
    assert!(!is_chip_dev_path("/dev/gpiochip٣"));
}

#[test]
fn chip_device_checks() {
    // major 254, minor 3
    let rdev: u64 = (254 << 8) | 3;
    assert_eq!(device_numbers_text(rdev), "254:3");
    assert_eq!(check_chip_device("/dev/mychip", 0x2000 | 0o600, rdev, Some("254:3\n")), Ok(()));
    assert_eq!(
        check_chip_device("/dev/mychip", 0x2000 | 0o600, rdev, Some("254:4\n")),
        Err(Error::GpioChip("/dev/mychip".into(), ErrorKind::NotGpioDevice))
    );
    assert_eq!(
        check_chip_device("/dev/mychip", 0x2000 | 0o600, rdev, None),
        Err(Error::GpioChip("/dev/mychip".into(), ErrorKind::NotGpioDevice))
    );
    assert_eq!(
        check_chip_device("/tmp/file", 0x8000 | 0o644, rdev, Some("254:3")),
        Err(Error::GpioChip("/tmp/file".into(), ErrorKind::NotCharacterDevice))
    );
    // trailing whitespace of the sysfs entry is ignored, leading is not
    assert_eq!(check_chip_device("/dev/c", 0x2000, rdev, Some("254:3 \t\n")), Ok(()));
    assert!(check_chip_device("/dev/c", 0x2000, rdev, Some(" 254:3")).is_err());
}

#[test]
fn chips_sorted_and_deduplicated() {
    let paths = vec![
        "/dev/gpiochip10".to_string(),
        "/dev/gpiochip2".to_string(),
        "/dev/gpiochip0".to_string(),
        "/dev/gpiochip2".to_string(),
        "/dev/gpiochip1".to_string(),
    ];
    assert_eq!(
        order_chip_paths(paths),
        vec![
            "/dev/gpiochip0".to_string(),
            "/dev/gpiochip1".to_string(),
            "/dev/gpiochip2".to_string(),
            "/dev/gpiochip10".to_string(),
        ]
    );
}

#[test]
fn abi_detection() {
    assert_eq!(detect_abi_version(None), Err(Error::NoGpioChips()));
    assert_eq!(detect_abi_version(Some((true, true))), Ok(AbiVersion::V2));
    assert_eq!(detect_abi_version(Some((true, false))), Ok(AbiVersion::V2));
    assert_eq!(detect_abi_version(Some((false, true))), Ok(AbiVersion::V1));
    assert_eq!(detect_abi_version(Some((false, false))), Err(Error::NoAbiSupport()));
    assert_eq!(supports_abi_version(AbiVersion::V1, None), Err(Error::NoGpioChips()));
    assert_eq!(supports_abi_version(AbiVersion::V1, Some(true)), Ok(()));
    assert_eq!(
        supports_abi_version(AbiVersion::V2, Some(false)),
        Err(Error::UnsupportedAbi(AbiVersion::V2, AbiSupportKind::Kernel))
    );
}

#[test]
fn info_change_event_sizes() {
    assert_eq!(
        info_change_event_size(Some(AbiVersion::V1)),
        std::mem::size_of::<gpiocdev_uapi::v1::LineInfoChangeEvent>()
    );
    assert_eq!(
        info_change_event_size(Some(AbiVersion::V2)),
        std::mem::size_of::<gpiocdev_uapi::v2::LineInfoChangeEvent>()
    );
    assert_eq!(
        info_change_event_size(None),
        std::mem::size_of::<gpiocdev_uapi::v2::LineInfoChangeEvent>()
    );
    assert_eq!(info_change_event_u64_size(None) * 8, info_change_event_size(None));
}

fn words(lo: [u8; 4], hi: [u8; 4]) -> [u8; 8] {
    [lo[0], lo[1], lo[2], lo[3], hi[0], hi[1], hi[2], hi[3]]
}

#[test]
fn info_change_event_decoding() {
    let mut buf = vec![0u64; info_change_event_u64_size(Some(AbiVersion::V1))];
    assert_eq!(buf.len(), 13);
    // kind zero is not a known change kind
    let ev = info_change_event_from_slice(AbiVersion::V1, &buf);
    assert_eq!(ev, Err(Error::UnexpectedResponse(UapiField::Kind, "0".into())));
    // a v1 event, laid out in native order: the info (offset and flags, then
    // name and consumer), the timestamp, and the kind
    let output = gpiocdev_uapi::v1::LineInfoFlags::OUTPUT.bits();
    let kind = gpiocdev_uapi::v1::LineInfoChangeKind::Released as u32;
    buf[0] = u64::from_ne_bytes(words(7u32.to_ne_bytes(), output.to_ne_bytes()));
    buf[1] = u64::from_ne_bytes([b'a', b'b', 0, 0, 0, 0, 0, 0]);
    buf[9] = 99;
    buf[10] = u64::from_ne_bytes(words(kind.to_ne_bytes(), [0; 4]));
    let ev = info_change_event_from_slice(AbiVersion::V1, &buf).expect("event should decode");
    assert_eq!(ev.kind, InfoChangeKind::Released);
    assert_eq!(ev.timestamp_ns, 99);
    assert_eq!(ev.info.offset, 7);
    assert_eq!(ev.info.name, "ab");
    assert_eq!(ev.info.direction, Direction::Output);
    // too short for a v2 event
    let ev = info_change_event_from_slice(AbiVersion::V2, &buf);
    assert_eq!(
        ev,
        Err(Error::Uapi(
            UapiCall::LICEFromBuf,
            UapiError::UnderRead {
                obj: "LineInfoChangeEvent".into(),
                expected: 288,
                found: 104
            }
        ))
    );
}

fn info(offset: u32, name: &str) -> Info {
    let mut i = Info::default();
    i.offset = offset;
    i.name = name.into();
    i
}

fn chip_lines(path: &str, names: &[&str]) -> ChipLines {
    ChipLines {
        path: path.into(),
        lines: Some(
            names
                .iter()
                .enumerate()
                .map(|(o, n)| Some(info(o as u32, n)))
                .collect(),
        ),
    }
}

fn sim_chips() -> Vec<ChipLines> {
    vec![
        chip_lines("/dev/gpiochip0", &["", "banana", "apple", "", "pear"]),
        ChipLines {
            path: "/dev/gpiochip1".into(),
            lines: None,
        },
        chip_lines("/dev/gpiochip2", &["", "apple", "", "kiwi"]),
    ]
}

#[test]
fn find_named_line() {
    let chips = sim_chips();
    let fl = gpiocdev::find_named_line("banana", &chips).expect("banana should be found");
    assert_eq!(fl.chip, "/dev/gpiochip0");
    assert_eq!(fl.info.offset, 1);
    // the first of the lines with the name
    let fl = gpiocdev::find_named_line("apple", &chips).expect("apple should be found");
    assert_eq!(fl.chip, "/dev/gpiochip0");
    assert_eq!(fl.info.offset, 2);
    let fl = gpiocdev::find_named_line("kiwi", &chips).expect("kiwi should be found");
    assert_eq!(fl.chip, "/dev/gpiochip2");
    assert_eq!(fl.info.offset, 3);
    assert!(gpiocdev::find_named_line("mango", &chips).is_none());
    assert!(gpiocdev::find_named_line("banana", &[]).is_none());
}

fn lookup<'a>(found: &'a [(String, FoundLine)], name: &str) -> Option<&'a FoundLine> {
    found.iter().find(|(n, _)| n == name).map(|(_, l)| l)
}

#[test]
fn find_named_lines() {
    let chips = sim_chips();
    // non-strict
    let found = gpiocdev::find_named_lines(&["banana", "apple", "mango"], false, &chips)
        .expect("search should succeed");
    assert_eq!(found.len(), 2);
    let banana = lookup(&found, "banana").expect("banana should be found");
    assert_eq!(banana.chip, "/dev/gpiochip0");
    assert_eq!(banana.info.offset, 1);
    let apple = lookup(&found, "apple").expect("apple should be found");
    assert_eq!(apple.chip, "/dev/gpiochip0");
    assert_eq!(apple.info.offset, 2);
    assert!(lookup(&found, "mango").is_none());

    // strict, unique names
    let found = gpiocdev::find_named_lines(&["banana", "kiwi"], true, &chips).expect("search should succeed");
    assert_eq!(found.len(), 2);
    let kiwi = lookup(&found, "kiwi").expect("kiwi should be found");
    assert_eq!(kiwi.chip, "/dev/gpiochip2");
    assert_eq!(kiwi.info.offset, 3);

    // strict, duplicate line names
    assert_eq!(
        gpiocdev::find_named_lines(&["kiwi", "apple"], true, &chips),
        Err(Error::NonuniqueLineName("apple".into()))
    );
    // strict, a name given twice that only one line has is unique
    let found = gpiocdev::find_named_lines(&["pear", "pear"], true, &chips).expect("pear is unique");
    assert_eq!(found.len(), 1);
    assert_eq!(lookup(&found, "pear").expect("pear should be found").info.offset, 4);
    // non-strict, a name given twice
    let found = gpiocdev::find_named_lines(&["pear", "pear"], false, &chips).expect("search should succeed");
    assert_eq!(found.len(), 1);
    // no chips
    assert_eq!(gpiocdev::find_named_lines(&["pear"], false, &[]), Err(Error::NoGpioChips()));
}

#[test]
fn line_iteration() {
    let chips = sim_chips();
    let mut it = lines(&chips).expect("chips should be readable");
    let mut seen = Vec::new();
    while let Some(fl) = it.next() {
        seen.push((fl.chip.clone(), fl.info.offset));
    }
    assert_eq!(seen.len(), 9);
    assert_eq!(seen[0], ("/dev/gpiochip0".to_string(), 0));
    assert_eq!(seen[5], ("/dev/gpiochip2".to_string(), 0));
    assert!(lines(&[ChipLines { path: "/dev/gpiochip0".into(), lines: None }]).is_err());
    // a line whose info could not be read is skipped
    let chips = vec![ChipLines {
        path: "/dev/gpiochip0".into(),
        lines: Some(vec![None, Some(info(1, "x"))]),
    }];
    let mut it = lines(&chips).expect("chips should be readable");
    assert_eq!(it.next().map(|l| l.info.offset), Some(1));
    assert!(it.next().is_none());
}

#[test]
fn strict_and_loose_searches_agree() {
    let chips = sim_chips();
    let names = ["pear", "banana", "kiwi", "mango"];
    let strict = gpiocdev::find_named_lines(&names, true, &chips).expect("names are unique");
    let loose = gpiocdev::find_named_lines(&names, false, &chips).expect("search should succeed");
    assert_eq!(strict.len(), loose.len());
    for (n, l) in &strict {
        let other = lookup(&loose, n).expect("both searches find the name");
        assert_eq!(other, l);
    }
}

#[test]
fn v2_info_change_event_decoding() {
    let mut buf = vec![0u64; info_change_event_u64_size(Some(AbiVersion::V2))];
    assert_eq!(buf.len(), 36);
    // the info: name, consumer, offset and number of attributes, flags,
    // then the attributes; after it the timestamp and the kind
    buf[0] = u64::from_ne_bytes([b'l', b'e', b'd', 0, 0, 0, 0, 0]);
    buf[8] = u64::from_ne_bytes(words(5u32.to_ne_bytes(), 1u32.to_ne_bytes()));
    buf[9] = (gpiocdev_uapi::v2::LineFlags::INPUT | gpiocdev_uapi::v2::LineFlags::EDGE_RISING).bits();
    buf[10] = u64::from_ne_bytes(words((gpiocdev_uapi::v2::LineAttributeKind::Debounce as u32).to_ne_bytes(), [0; 4]));
    buf[11] = u64::from_ne_bytes(words(24u32.to_ne_bytes(), [0; 4]));
    buf[32] = 4321;
    let kind = gpiocdev_uapi::v2::LineInfoChangeKind::Requested as u32;
    buf[33] = u64::from_ne_bytes(words(kind.to_ne_bytes(), [0; 4]));
    let ev = info_change_event_from_slice(AbiVersion::V2, &buf).expect("event should decode");
    assert_eq!(ev.kind, InfoChangeKind::Requested);
    assert_eq!(ev.timestamp_ns, 4321);
    assert_eq!(ev.info.offset, 5);
    assert_eq!(ev.info.name, "led");
    assert_eq!(ev.info.direction, Direction::Input);
    assert_eq!(ev.info.edge_detection, Some(gpiocdev::line::EdgeDetection::RisingEdge));
    assert_eq!(ev.info.debounce_period, Some(gpiocdev::line::Period::from_micros(24)));
}
