use gpiocdev::line::{
    Bias, Config, Direction, Drive, EdgeDetection, EdgeEvent, EdgeKind, EventClock, Info,
    InfoChangeEvent, InfoChangeKind, Period, Value,
};
use gpiocdev::uapi::{
    LineAttributeValueV2, LineEdgeEventV1, LineEdgeEventV2, LineInfoChangeEventV1,
    LineInfoChangeEventV2, LineInfoV1, LineInfoV2,
};
use gpiocdev::{Error, UapiField};
use gpiocdev_uapi::{v1, v2};

fn v2_info(offset: u32, flags: v2::LineFlags, num_attrs: u32) -> LineInfoV2 {
    LineInfoV2 {
        name: "banana".into(),
        consumer: "jam".into(),
        offset,
        num_attrs,
        flags: flags.bits(),
        attrs: vec![None; 10],
    }
}

fn v1_info(offset: u32, flags: v1::LineInfoFlags) -> LineInfoV1 {
    LineInfoV1 {
        offset,
        flags: flags.bits(),
        name: "banana".into(),
        consumer: "jam".into(),
    }
}

fn check_value_default() {
    let v = Value::default();
    assert_eq!(v, Value::Inactive);
}

fn check_enum_defaults() {
    assert_eq!(Direction::default(), Direction::Input);
    assert_eq!(Drive::default(), Drive::PushPull);
    assert_eq!(EventClock::default(), EventClock::Monotonic);
}

fn check_config_default() {
    let cfg: Config = Default::default();
    assert_eq!(cfg.direction, None);
    assert!(!cfg.active_low);
    assert!(cfg.bias.is_none());
    assert!(cfg.drive.is_none());
    assert!(cfg.edge_detection.is_none());
    assert!(cfg.event_clock.is_none());
    assert!(cfg.debounce_period.is_none());
    assert!(cfg.value.is_none());
}

#[test]
fn line_default() {
    check_value_default();
    check_enum_defaults();
    check_config_default();
}

#[test]
fn default() {
    assert_eq!(Direction::default(), Direction::Input);
    assert_eq!(Drive::default(), Drive::PushPull);
}

#[test]
fn mod_default() {
    check_enum_defaults();
}

#[test]
fn line_not() {
    assert_eq!(Value::Active.not(), Value::Inactive);
    assert_eq!(Value::Inactive.not(), Value::Active);
}

#[test]
fn line_from_bool() {
    assert_eq!(Value::from(true), Value::Active);
    assert_eq!(Value::from(false), Value::Inactive);
}

#[test]
fn line_into_bool() {
    let b: bool = Value::Active.into();
    assert!(b);
    let b: bool = Value::Inactive.into();
    assert!(!b);
}

#[test]
fn line_from_u8() {
    assert_eq!(Value::from(1), Value::Active);
    assert_eq!(Value::from(2), Value::Active);
    assert_eq!(Value::from(0), Value::Inactive);
}

#[test]
fn line_into_u8() {
    let u: u8 = Value::Active.into();
    assert_eq!(u, 1);
    let u: u8 = Value::Inactive.into();
    assert_eq!(u, 0);
}

fn check_from_v1_line_info_flags() {
    assert_eq!(
        Direction::from_v1_flags(v1::LineInfoFlags::OUTPUT.bits()),
        Direction::Output
    );
    assert_eq!(
        Direction::from_v1_flags(v1::LineInfoFlags::ACTIVE_LOW.bits()),
        Direction::Input
    );
}

fn check_from_v2_line_flags() {
    assert_eq!(
        Direction::from_v2_flags(v2::LineFlags::OUTPUT.bits()),
        Direction::Output
    );
    assert_eq!(
        Direction::from_v2_flags(v2::LineFlags::INPUT.bits()),
        Direction::Input
    );
    assert_eq!(Bias::try_from_v2_flags(v2::LineFlags::INPUT.bits()), Err(()));
    assert_eq!(
        Bias::try_from_v2_flags(v2::LineFlags::BIAS_PULL_DOWN.bits()),
        Ok(Bias::PullDown)
    );
    assert_eq!(
        Bias::try_from_v2_flags(v2::LineFlags::BIAS_PULL_UP.bits()),
        Ok(Bias::PullUp)
    );
    assert_eq!(
        Bias::try_from_v2_flags(v2::LineFlags::BIAS_DISABLED.bits()),
        Ok(Bias::Disabled)
    );
    assert_eq!(
        EventClock::from_v2_flags(v2::LineFlags::INPUT.bits()),
        EventClock::Monotonic
    );
    assert_eq!(
        EventClock::from_v2_flags(v2::LineFlags::EVENT_CLOCK_REALTIME.bits()),
        EventClock::Realtime
    );
}

fn check_try_from_v1_line_info_flags() {
    assert_eq!(Bias::try_from_v1_flags(v1::LineInfoFlags::ACTIVE_LOW.bits()), Err(()));
    assert_eq!(
        Bias::try_from_v1_flags(v1::LineInfoFlags::BIAS_PULL_DOWN.bits()),
        Ok(Bias::PullDown)
    );
    assert_eq!(
        Bias::try_from_v1_flags(v1::LineInfoFlags::BIAS_PULL_UP.bits()),
        Ok(Bias::PullUp)
    );
    assert_eq!(
        Bias::try_from_v1_flags(v1::LineInfoFlags::BIAS_DISABLED.bits()),
        Ok(Bias::Disabled)
    );
    assert_eq!(Drive::try_from_v1_flags(v1::LineInfoFlags::ACTIVE_LOW.bits()), Err(()));
    assert_eq!(
        Drive::try_from_v1_flags(v1::LineInfoFlags::OUTPUT.bits()),
        Ok(Drive::PushPull)
    );
    assert_eq!(
        Drive::try_from_v1_flags((v1::LineInfoFlags::OUTPUT | v1::LineInfoFlags::OPEN_DRAIN).bits()),
        Ok(Drive::OpenDrain)
    );
    assert_eq!(
        Drive::try_from_v1_flags((v1::LineInfoFlags::OUTPUT | v1::LineInfoFlags::OPEN_SOURCE).bits()),
        Ok(Drive::OpenSource)
    );
}

fn check_try_from_v2_line_flags() {
    assert_eq!(Drive::try_from_v2_flags(v2::LineFlags::INPUT.bits()), Err(()));
    assert_eq!(
        Drive::try_from_v2_flags(v2::LineFlags::OUTPUT.bits()),
        Ok(Drive::PushPull)
    );
    assert_eq!(
        Drive::try_from_v2_flags((v2::LineFlags::OUTPUT | v2::LineFlags::OPEN_DRAIN).bits()),
        Ok(Drive::OpenDrain)
    );
    assert_eq!(
        Drive::try_from_v2_flags((v2::LineFlags::OUTPUT | v2::LineFlags::OPEN_SOURCE).bits()),
        Ok(Drive::OpenSource)
    );
    assert_eq!(EdgeDetection::try_from_v2_flags(v2::LineFlags::INPUT.bits()), Err(()));
    assert_eq!(
        EdgeDetection::try_from_v2_flags(v2::LineFlags::EDGE_RISING.bits()),
        Ok(EdgeDetection::RisingEdge)
    );
    assert_eq!(
        EdgeDetection::try_from_v2_flags(v2::LineFlags::EDGE_FALLING.bits()),
        Ok(EdgeDetection::FallingEdge)
    );
    assert_eq!(
        EdgeDetection::try_from_v2_flags(
            (v2::LineFlags::EDGE_RISING | v2::LineFlags::EDGE_FALLING).bits()
        ),
        Ok(EdgeDetection::BothEdges)
    );
}

#[test]
fn mod_from_v1_line_info_flags() {
    check_from_v1_line_info_flags();
}

#[test]
fn line_from_v1_line_info_flags() {
    check_from_v1_line_info_flags();
}

#[test]
fn mod_from_v2_line_flags() {
    check_from_v2_line_flags();
}

#[test]
fn line_from_v2_line_flags() {
    check_from_v2_line_flags();
}

#[test]
fn mod_try_from_v1_line_info_flags() {
    check_try_from_v1_line_info_flags();
}

#[test]
fn line_try_from_v1_line_info_flags() {
    check_try_from_v1_line_info_flags();
}

#[test]
fn mod_try_from_v2_line_flags() {
    check_try_from_v2_line_flags();
}

#[test]
fn line_try_from_v2_line_flags() {
    check_try_from_v2_line_flags();
}

fn check_equivalent() {
    let mut lcfg: Config = Default::default();
    let mut rcfg: Config = Default::default();
    assert!(lcfg.equivalent(&rcfg));

    rcfg.value = Some(Value::Active);
    assert!(lcfg.equivalent(&rcfg));

    lcfg.active_low = true;
    assert!(!lcfg.equivalent(&rcfg));

    rcfg.active_low = true;
    assert!(lcfg.equivalent(&rcfg));

    lcfg.bias = Some(Bias::PullDown);
    assert!(!lcfg.equivalent(&rcfg));

    rcfg.bias = Some(Bias::PullDown);
    assert!(lcfg.equivalent(&rcfg));

    lcfg.drive = Some(Drive::OpenDrain);
    assert!(!lcfg.equivalent(&rcfg));

    rcfg.drive = Some(Drive::OpenDrain);
    assert!(lcfg.equivalent(&rcfg));

    lcfg.edge_detection = Some(EdgeDetection::RisingEdge);
    assert!(!lcfg.equivalent(&rcfg));

    rcfg.edge_detection = Some(EdgeDetection::RisingEdge);
    assert!(lcfg.equivalent(&rcfg));

    lcfg.event_clock = Some(EventClock::Realtime);
    assert!(!lcfg.equivalent(&rcfg));

    rcfg.event_clock = Some(EventClock::Realtime);
    assert!(lcfg.equivalent(&rcfg));

    lcfg.debounce_period = Some(Period::from_millis(5));
    assert!(!lcfg.equivalent(&rcfg));

    rcfg.debounce_period = Some(Period::from_millis(5));
    assert!(lcfg.equivalent(&rcfg));
}

#[test]
fn line_equivalent() {
    check_equivalent();
}

fn check_config_value() {
    let mut cfg: Config = Default::default();
    assert_eq!(cfg.value(), Value::Inactive);

    cfg.value = Some(Value::Active);
    assert_eq!(cfg.value(), Value::Active);

    cfg.value = Some(Value::Inactive);
    assert_eq!(cfg.value(), Value::Inactive);
}

#[test]
fn line_value() {
    check_config_value();
}

#[test]
fn config_equivalent() {
    check_equivalent();
}

#[test]
fn config_value() {
    check_config_value();
}

fn check_v2_line_flags_from_config() {
    let cfg = Config {
        direction: Some(Direction::Input),
        active_low: false,
        bias: Some(Bias::Disabled),
        drive: Some(Drive::OpenDrain), // ignored for input
        edge_detection: Some(EdgeDetection::BothEdges),
        event_clock: Some(EventClock::Realtime),
        debounce_period: None,
        value: None,
    };
    let flags = v2::LineFlags::from_bits_retain(cfg.to_v2_flags());
    assert!(flags.contains(v2::LineFlags::INPUT));
    assert!(!flags.contains(v2::LineFlags::OUTPUT));
    assert!(!flags.contains(v2::LineFlags::ACTIVE_LOW));
    assert!(flags.contains(v2::LineFlags::BIAS_DISABLED));
    assert!(!flags.contains(v2::LineFlags::BIAS_PULL_UP));
    assert!(!flags.contains(v2::LineFlags::BIAS_PULL_DOWN));
    assert!(flags.contains(v2::LineFlags::EDGE_RISING));
    assert!(flags.contains(v2::LineFlags::EDGE_FALLING));
    assert!(!flags.contains(v2::LineFlags::OPEN_DRAIN));
    assert!(!flags.contains(v2::LineFlags::OPEN_SOURCE));
    assert!(flags.contains(v2::LineFlags::EVENT_CLOCK_REALTIME));

    let cfg = Config {
        direction: Some(Direction::Input),
        active_low: true,
        bias: Some(Bias::PullUp),
        drive: Some(Drive::OpenSource), // ignored for input
        edge_detection: None,
        event_clock: Some(EventClock::Hte), // ignored for no edges
        debounce_period: None,
        value: None,
    };
    let flags = v2::LineFlags::from_bits_retain(cfg.to_v2_flags());
    assert!(flags.contains(v2::LineFlags::INPUT));
    assert!(!flags.contains(v2::LineFlags::OUTPUT));
    assert!(flags.contains(v2::LineFlags::ACTIVE_LOW));
    assert!(!flags.contains(v2::LineFlags::BIAS_DISABLED));
    assert!(flags.contains(v2::LineFlags::BIAS_PULL_UP));
    assert!(!flags.contains(v2::LineFlags::BIAS_PULL_DOWN));
    assert!(!flags.contains(v2::LineFlags::EDGE_RISING));
    assert!(!flags.contains(v2::LineFlags::EDGE_FALLING));
    assert!(!flags.contains(v2::LineFlags::OPEN_DRAIN));
    assert!(!flags.contains(v2::LineFlags::OPEN_SOURCE));
    assert!(!flags.contains(v2::LineFlags::EVENT_CLOCK_HTE));

    let cfg = Config {
        direction: Some(Direction::Output),
        active_low: false,
        bias: Some(Bias::PullDown),
        drive: Some(Drive::OpenSource),
        edge_detection: Some(EdgeDetection::BothEdges), // ignored for output
        event_clock: Some(EventClock::Realtime),        // ignored for output
        debounce_period: None,
        value: None,
    };
    let flags = v2::LineFlags::from_bits_retain(cfg.to_v2_flags());
    assert!(!flags.contains(v2::LineFlags::INPUT));
    assert!(flags.contains(v2::LineFlags::OUTPUT));
    assert!(!flags.contains(v2::LineFlags::ACTIVE_LOW));
    assert!(!flags.contains(v2::LineFlags::BIAS_DISABLED));
    assert!(!flags.contains(v2::LineFlags::BIAS_PULL_UP));
    assert!(flags.contains(v2::LineFlags::BIAS_PULL_DOWN));
    assert!(!flags.contains(v2::LineFlags::EDGE_RISING));
    assert!(!flags.contains(v2::LineFlags::EDGE_FALLING));
    assert!(!flags.contains(v2::LineFlags::OPEN_DRAIN));
    assert!(flags.contains(v2::LineFlags::OPEN_SOURCE));
    assert!(!flags.contains(v2::LineFlags::EVENT_CLOCK_REALTIME));
}

fn check_v1_event_request_flags_from_config() {
    let mut cfg = Config {
        direction: Some(Direction::Input),
        active_low: false,
        bias: Some(Bias::Disabled),
        drive: Some(Drive::OpenDrain),
        edge_detection: Some(EdgeDetection::BothEdges),
        event_clock: Some(EventClock::Realtime),
        debounce_period: None,
        value: None,
    };
    let flags = v1::EventRequestFlags::from_bits_retain(cfg.to_v1_event_flags());
    assert!(flags.contains(v1::EventRequestFlags::RISING_EDGE));
    assert!(flags.contains(v1::EventRequestFlags::FALLING_EDGE));
    assert!(flags.contains(v1::EventRequestFlags::BOTH_EDGES));

    cfg.edge_detection = Some(EdgeDetection::RisingEdge);
    let flags = v1::EventRequestFlags::from_bits_retain(cfg.to_v1_event_flags());
    assert!(flags.contains(v1::EventRequestFlags::RISING_EDGE));
    assert!(!flags.contains(v1::EventRequestFlags::FALLING_EDGE));
    assert!(!flags.contains(v1::EventRequestFlags::BOTH_EDGES));

    cfg.edge_detection = Some(EdgeDetection::FallingEdge);
    let flags = v1::EventRequestFlags::from_bits_retain(cfg.to_v1_event_flags());
    assert!(!flags.contains(v1::EventRequestFlags::RISING_EDGE));
    assert!(flags.contains(v1::EventRequestFlags::FALLING_EDGE));
    assert!(!flags.contains(v1::EventRequestFlags::BOTH_EDGES));

    cfg.edge_detection = None;
    let flags = v1::EventRequestFlags::from_bits_retain(cfg.to_v1_event_flags());
    assert!(!flags.contains(v1::EventRequestFlags::RISING_EDGE));
    assert!(!flags.contains(v1::EventRequestFlags::FALLING_EDGE));
    assert!(!flags.contains(v1::EventRequestFlags::BOTH_EDGES));
}

fn check_v1_handle_request_flags_from_config() {
    let cfg = Config {
        direction: Some(Direction::Input),
        active_low: false,
        bias: Some(Bias::Disabled),
        drive: Some(Drive::OpenDrain), // ignored for input
        edge_detection: Some(EdgeDetection::BothEdges),
        event_clock: None,
        debounce_period: None,
        value: None,
    };
    let flags = v1::HandleRequestFlags::from_bits_retain(cfg.to_v1_handle_flags());
    assert!(flags.contains(v1::HandleRequestFlags::INPUT));
    assert!(!flags.contains(v1::HandleRequestFlags::OUTPUT));
    assert!(!flags.contains(v1::HandleRequestFlags::ACTIVE_LOW));
    assert!(flags.contains(v1::HandleRequestFlags::BIAS_DISABLED));
    assert!(!flags.contains(v1::HandleRequestFlags::BIAS_PULL_UP));
    assert!(!flags.contains(v1::HandleRequestFlags::BIAS_PULL_DOWN));
    assert!(!flags.contains(v1::HandleRequestFlags::OPEN_DRAIN));
    assert!(!flags.contains(v1::HandleRequestFlags::OPEN_SOURCE));

    let cfg = Config {
        direction: Some(Direction::Input),
        active_low: true,
        bias: Some(Bias::PullUp),
        drive: Some(Drive::OpenSource), // ignored for input
        edge_detection: None,
        event_clock: None,
        debounce_period: None,
        value: None,
    };
    let flags = v1::HandleRequestFlags::from_bits_retain(cfg.to_v1_handle_flags());
    assert!(flags.contains(v1::HandleRequestFlags::INPUT));
    assert!(!flags.contains(v1::HandleRequestFlags::OUTPUT));
    assert!(flags.contains(v1::HandleRequestFlags::ACTIVE_LOW));
    assert!(!flags.contains(v1::HandleRequestFlags::BIAS_DISABLED));
    assert!(flags.contains(v1::HandleRequestFlags::BIAS_PULL_UP));
    assert!(!flags.contains(v1::HandleRequestFlags::BIAS_PULL_DOWN));
    assert!(!flags.contains(v1::HandleRequestFlags::OPEN_DRAIN));
    assert!(!flags.contains(v1::HandleRequestFlags::OPEN_SOURCE));

    let cfg = Config {
        direction: Some(Direction::Output),
        active_low: false,
        bias: Some(Bias::PullDown),
        drive: Some(Drive::OpenSource),
        edge_detection: Some(EdgeDetection::BothEdges), // ignored for output
        event_clock: None,
        debounce_period: None,
        value: None,
    };
    let flags = v1::HandleRequestFlags::from_bits_retain(cfg.to_v1_handle_flags());
    assert!(!flags.contains(v1::HandleRequestFlags::INPUT));
    assert!(flags.contains(v1::HandleRequestFlags::OUTPUT));
    assert!(!flags.contains(v1::HandleRequestFlags::ACTIVE_LOW));
    assert!(!flags.contains(v1::HandleRequestFlags::BIAS_DISABLED));
    assert!(!flags.contains(v1::HandleRequestFlags::BIAS_PULL_UP));
    assert!(flags.contains(v1::HandleRequestFlags::BIAS_PULL_DOWN));
    assert!(!flags.contains(v1::HandleRequestFlags::OPEN_DRAIN));
    assert!(flags.contains(v1::HandleRequestFlags::OPEN_SOURCE));
}

#[test]
fn config_v2_line_flags_from_config() {
    check_v2_line_flags_from_config();
}

#[test]
fn line_v2_line_flags_from_config() {
    check_v2_line_flags_from_config();
}

#[test]
fn config_v1_event_request_flags_from_config() {
    check_v1_event_request_flags_from_config();
}

#[test]
fn line_v1_event_request_flags_from_config() {
    check_v1_event_request_flags_from_config();
}

#[test]
fn config_v1_handle_request_flags_from_config() {
    check_v1_handle_request_flags_from_config();
}

#[test]
fn line_v1_handle_request_flags_from_config() {
    check_v1_handle_request_flags_from_config();
}

fn check_info_from_v1_line_info() {
    let v1info = LineInfoV1 {
        offset: 0,
        flags: 0,
        name: String::new(),
        consumer: String::new(),
    };
    let info = Info::from_v1(&v1info);
    assert_eq!(info.offset, 0);
    assert!(info.name.is_empty());
    assert!(info.consumer.is_empty());
    assert!(!info.used);
    assert!(!info.active_low);
    assert_eq!(info.direction, Direction::Input);
    assert!(info.bias.is_none());
    assert!(info.drive.is_none());
    assert!(info.edge_detection.is_none());
    assert!(info.event_clock.is_none());
    assert!(info.debounce_period.is_none());

    let v1info = v1_info(
        32,
        v1::LineInfoFlags::USED
            | v1::LineInfoFlags::ACTIVE_LOW
            | v1::LineInfoFlags::OUTPUT
            | v1::LineInfoFlags::BIAS_PULL_DOWN,
    );
    let info = Info::from_v1(&v1info);
    assert_eq!(info.offset, 32);
    assert_eq!(info.name, "banana");
    assert_eq!(info.consumer, "jam");
    assert!(info.used);
    assert!(info.active_low);
    assert_eq!(info.direction, Direction::Output);
    assert_eq!(info.bias, Some(Bias::PullDown));
    assert_eq!(info.drive, Some(Drive::PushPull));
    assert!(info.edge_detection.is_none());
    assert!(info.event_clock.is_none());
    assert!(info.debounce_period.is_none());

    let v1info = v1_info(
        32,
        v1::LineInfoFlags::USED
            | v1::LineInfoFlags::OUTPUT
            | v1::LineInfoFlags::OPEN_DRAIN
            | v1::LineInfoFlags::BIAS_DISABLED,
    );
    let info = Info::from_v1(&v1info);
    assert_eq!(info.offset, 32);
    assert_eq!(info.name, "banana");
    assert_eq!(info.consumer, "jam");
    assert!(info.used);
    assert!(!info.active_low);
    assert_eq!(info.direction, Direction::Output);
    assert_eq!(info.bias, Some(Bias::Disabled));
    assert_eq!(info.drive, Some(Drive::OpenDrain));
    assert!(info.edge_detection.is_none());
    assert!(info.event_clock.is_none());
    assert!(info.debounce_period.is_none());
}

#[test]
fn info_info_from_v1_line_info() {
    check_info_from_v1_line_info();
}

#[test]
fn line_info_from_v1_line_info() {
    check_info_from_v1_line_info();
}

fn check_info_try_from_v2_line_info() {
    let v2info = LineInfoV2 {
        name: String::new(),
        consumer: String::new(),
        offset: 0,
        num_attrs: 0,
        flags: 0,
        attrs: vec![None; 10],
    };
    let info = Info::try_from_v2(&v2info).expect("info should be valid");
    assert_eq!(info.offset, 0);
    assert!(info.name.is_empty());
    assert!(info.consumer.is_empty());
    assert!(!info.used);
    assert!(!info.active_low);
    assert_eq!(info.direction, Direction::Input);
    assert!(info.bias.is_none());
    assert!(info.drive.is_none());
    assert!(info.edge_detection.is_none());
    assert!(info.event_clock.is_none());
    assert!(info.debounce_period.is_none());

    let v2info = v2_info(
        32,
        v2::LineFlags::USED
            | v2::LineFlags::ACTIVE_LOW
            | v2::LineFlags::OUTPUT
            | v2::LineFlags::BIAS_PULL_DOWN,
        0,
    );
    let info = Info::try_from_v2(&v2info).expect("info should be valid");
    assert_eq!(info.offset, 32);
    assert_eq!(info.name, "banana");
    assert_eq!(info.consumer, "jam");
    assert!(info.used);
    assert!(info.active_low);
    assert_eq!(info.direction, Direction::Output);
    assert_eq!(info.bias, Some(Bias::PullDown));
    assert_eq!(info.drive, Some(Drive::PushPull));
    assert!(info.edge_detection.is_none());
    assert!(info.event_clock.is_none());
    assert!(info.debounce_period.is_none());

    let v2info = v2_info(
        32,
        v2::LineFlags::USED
            | v2::LineFlags::OUTPUT
            | v2::LineFlags::OPEN_DRAIN
            | v2::LineFlags::BIAS_DISABLED,
        0,
    );
    let info = Info::try_from_v2(&v2info).expect("info should be valid");
    assert_eq!(info.offset, 32);
    assert_eq!(info.name, "banana");
    assert_eq!(info.consumer, "jam");
    assert!(info.used);
    assert!(!info.active_low);
    assert_eq!(info.direction, Direction::Output);
    assert_eq!(info.bias, Some(Bias::Disabled));
    assert_eq!(info.drive, Some(Drive::OpenDrain));
    assert!(info.edge_detection.is_none());
    assert!(info.event_clock.is_none());
    assert!(info.debounce_period.is_none());

    let mut v2info = v2_info(
        32,
        v2::LineFlags::USED
            | v2::LineFlags::INPUT
            | v2::LineFlags::EDGE_RISING
            | v2::LineFlags::BIAS_PULL_DOWN,
        1,
    );
    v2info.attrs[0] = Some(LineAttributeValueV2::DebouncePeriod(24));

    let info = Info::try_from_v2(&v2info).expect("info should be valid");
    assert_eq!(info.offset, 32);
    assert_eq!(info.name, "banana");
    assert_eq!(info.consumer, "jam");
    assert!(info.used);
    assert!(!info.active_low);
    assert_eq!(info.direction, Direction::Input);
    assert_eq!(info.bias, Some(Bias::PullDown));
    assert!(info.drive.is_none());
    assert_eq!(info.edge_detection, Some(EdgeDetection::RisingEdge));
    assert_eq!(info.event_clock, Some(EventClock::Monotonic));
    assert_eq!(info.debounce_period, Some(Period::from_micros(24)));

    let v2info = v2_info(
        32,
        v2::LineFlags::USED
            | v2::LineFlags::INPUT
            | v2::LineFlags::EDGE_RISING
            | v2::LineFlags::BIAS_PULL_DOWN,
        11,
    );
    let err = Info::try_from_v2(&v2info).expect_err("info should be invalid");
    assert_eq!(
        err,
        Error::UnexpectedResponse(UapiField::NumAttrs, "11".into())
    );
}

#[test]
fn info_try_from_v2_line_info() {
    check_info_try_from_v2_line_info();
}

#[test]
fn info_from_v2_line_info() {
    check_info_try_from_v2_line_info();
}

#[test]
fn info_debounce_ignores_unused_attributes() {
    // an attribute beyond the count in use is not read
    let mut v2info = v2_info(5, v2::LineFlags::INPUT | v2::LineFlags::EDGE_FALLING, 1);
    v2info.attrs[1] = Some(LineAttributeValueV2::DebouncePeriod(7));
    let info = Info::try_from_v2(&v2info).expect("info should be valid");
    assert!(info.debounce_period.is_none());
    // the last debounce attribute in use applies
    let mut v2info = v2_info(5, v2::LineFlags::INPUT | v2::LineFlags::EDGE_FALLING, 3);
    v2info.attrs[0] = Some(LineAttributeValueV2::DebouncePeriod(7));
    v2info.attrs[1] = Some(LineAttributeValueV2::Flags(0));
    v2info.attrs[2] = Some(LineAttributeValueV2::DebouncePeriod(9));
    let info = Info::try_from_v2(&v2info).expect("info should be valid");
    assert_eq!(info.debounce_period, Some(Period::from_micros(9)));
    assert_eq!(info.edge_detection, Some(EdgeDetection::FallingEdge));
}

fn check_edge_event_try_from() {
    let mut v1event = LineEdgeEventV1 {
        timestamp_ns: 1234,
        kind: v1::LineEdgeEventKind::FallingEdge as u32,
    };
    let ee = EdgeEvent::try_from_v1(&v1event).unwrap();
    assert_eq!(ee.timestamp_ns, 1234);
    assert_eq!(ee.kind, EdgeKind::Falling);
    assert_eq!(ee.offset, 0);
    assert_eq!(ee.seqno, 0);
    assert_eq!(ee.line_seqno, 0);
    v1event.kind = 42;
    let ee = EdgeEvent::try_from_v1(&v1event).unwrap_err();
    assert_eq!(ee, Error::UnexpectedResponse(UapiField::Kind, "42".into()));

    let mut v2event = LineEdgeEventV2 {
        timestamp_ns: 1234,
        kind: v2::LineEdgeEventKind::RisingEdge as u32,
        offset: 23,
        seqno: 2,
        line_seqno: 1,
    };
    let ee = EdgeEvent::try_from_v2(&v2event).unwrap();
    assert_eq!(ee.timestamp_ns, 1234);
    assert_eq!(ee.kind, EdgeKind::Rising);
    assert_eq!(ee.offset, 23);
    assert_eq!(ee.seqno, 2);
    assert_eq!(ee.line_seqno, 1);
    v2event.kind = 42;
    let ee = EdgeEvent::try_from_v2(&v2event).unwrap_err();
    assert_eq!(ee, Error::UnexpectedResponse(UapiField::Kind, "42".into()));
}

fn check_info_change_event_try_from() {
    let mut v1event = LineInfoChangeEventV1 {
        timestamp_ns: 1234,
        kind: v1::LineInfoChangeKind::Reconfigured as u32,
        info: LineInfoV1 {
            offset: 32,
            flags: v1::LineInfoFlags::OPEN_DRAIN.bits(),
            name: String::new(),
            consumer: String::new(),
        },
    };
    let ee = InfoChangeEvent::try_from_v1(&v1event).unwrap();
    assert_eq!(ee.timestamp_ns, 1234);
    assert_eq!(ee.kind, InfoChangeKind::Reconfigured);
    assert_eq!(ee.info.offset, 32);
    assert_eq!(ee.info.drive, Some(Drive::OpenDrain));
    v1event.kind = 42;
    let ee = InfoChangeEvent::try_from_v1(&v1event).unwrap_err();
    assert_eq!(ee, Error::UnexpectedResponse(UapiField::Kind, "42".into()));

    let mut v2event = LineInfoChangeEventV2 {
        timestamp_ns: 1234,
        kind: v2::LineInfoChangeKind::Reconfigured as u32,
        info: LineInfoV2 {
            name: String::new(),
            consumer: String::new(),
            offset: 32,
            num_attrs: 0,
            flags: v2::LineFlags::OPEN_DRAIN.bits(),
            attrs: vec![None; 10],
        },
    };
    let ee = InfoChangeEvent::try_from_v2(&v2event).unwrap();
    assert_eq!(ee.timestamp_ns, 1234);
    assert_eq!(ee.kind, InfoChangeKind::Reconfigured);
    assert_eq!(ee.info.offset, 32);
    assert_eq!(ee.info.drive, Some(Drive::OpenDrain));
    v2event.kind = 42;
    let ee = InfoChangeEvent::try_from_v2(&v2event).unwrap_err();
    assert_eq!(ee, Error::UnexpectedResponse(UapiField::Kind, "42".into()));
}

#[test]
fn event_try_from_v1() {
    check_edge_event_try_from();
    check_info_change_event_try_from();
}

#[test]
fn event_try_from_v2() {
    check_edge_event_try_from();
    check_info_change_event_try_from();
}

#[test]
fn line_from_v1() {
    check_edge_event_try_from();
    check_info_change_event_try_from();
}

#[test]
fn line_from_v2() {
    check_edge_event_try_from();
    check_info_change_event_try_from();
}

#[test]
fn period_conversions() {
    let p = Period::new(2, 1_500_000_000);
    assert_eq!(p.as_nanos(), 3_500_000_000);
    assert_eq!(p.as_secs(), 3);
    assert_eq!(p.subsec_nanos(), 500_000_000);
    assert_eq!(Period::from_micros(24).as_nanos(), 24_000);
    assert_eq!(Period::from_millis(5), Period::from_micros(5000));
    assert_eq!(Period::from_secs(1), Period::from_millis(1000));
    assert_eq!(Period::from_nanos(1001).as_micros_rounded_up(), 2);
    assert_eq!(Period::from_nanos(1000).as_micros_rounded_up(), 1);
    assert!(Period::zero().is_zero());
    assert!(!Period::from_nanos(1).is_zero());
}

#[test]
fn v2_flags_roundtrip_through_config() {
    let cfg = Config {
        direction: Some(Direction::Input),
        active_low: true,
        bias: Some(Bias::PullUp),
        drive: None,
        edge_detection: Some(EdgeDetection::BothEdges),
        event_clock: Some(EventClock::Realtime),
        debounce_period: None,
        value: None,
    };
    let flags = cfg.to_v2_flags();
    assert_eq!(Direction::from_v2_flags(flags), Direction::Input);
    assert_eq!(Bias::try_from_v2_flags(flags), Ok(Bias::PullUp));
    assert_eq!(EdgeDetection::try_from_v2_flags(flags), Ok(EdgeDetection::BothEdges));
    assert_eq!(EventClock::from_v2_flags(flags), EventClock::Realtime);
}

#[test]
fn debounce_micros_roundtrip() {
    for us in [0u32, 1, 24, 999, 1000, 123_456, u32::MAX] {
        assert_eq!(Period::from_micros(us as u64).as_micros_rounded_up(), us);
    }
}
