use gpiocdev::line::Bias::{Disabled, PullDown, PullUp};
use gpiocdev::line::Direction::{Input, Output};
use gpiocdev::line::Drive::{OpenDrain, OpenSource, PushPull};
use gpiocdev::line::EdgeDetection::{BothEdges, FallingEdge, RisingEdge};
use gpiocdev::line::EventClock::{Hte, Monotonic, Realtime};
use gpiocdev::line::Value::{Active, Inactive};
use gpiocdev::line::{Info, Period, Value, Values};
use gpiocdev::request::{Builder, Config};
use gpiocdev::uapi::{LineAttributeValueV2, UapiRequest};
use gpiocdev::{AbiVersion, FoundLine};
use gpiocdev_uapi::{v1, v2};

fn found(offset: u32) -> FoundLine {
    let mut f = FoundLine::default();
    f.info.offset = offset;
    f
}

fn found_on(chip: &str, offset: u32) -> FoundLine {
    FoundLine {
        chip: chip.into(),
        info: {
            let mut i = Info::default();
            i.offset = offset;
            i
        },
    }
}

fn sorted(s: &[u32]) -> Vec<u32> {
    let mut x = s.to_vec();
    x.sort();
    x
}

#[test]
fn config_default() {
    let cfg = Config::default();
    assert_eq!(cfg.num_lines(), 0);
    assert_eq!(cfg.selected().len(), 0);
    assert_eq!(cfg.base().direction, None);
    assert!(!cfg.base().active_low);
    assert_eq!(cfg.base().drive, None);
    assert_eq!(cfg.base().edge_detection, None);
    assert_eq!(cfg.base().event_clock, None);
    assert_eq!(cfg.base().value, None);

    let cfg: gpiocdev::line::Config = Default::default();
    assert_eq!(cfg.direction, None);
    assert!(!cfg.active_low);
    assert!(cfg.bias.is_none());
    assert!(cfg.drive.is_none());
    assert!(cfg.edge_detection.is_none());
    assert!(cfg.event_clock.is_none());
    assert!(cfg.debounce_period.is_none());
    assert!(cfg.value.is_none());
}

#[test]
fn config_as_input() {
    let mut cfg = Config::default();
    cfg.as_output(Active).with_drive(OpenDrain);
    assert_eq!(cfg.base().direction, Some(Output));
    assert_eq!(cfg.base().value, Some(Active));
    assert_eq!(cfg.base().drive, Some(OpenDrain));

    cfg.as_input();
    assert_eq!(cfg.base().direction, Some(Input));
    assert_eq!(cfg.base().value, None);
    assert_eq!(cfg.base().drive, None);
}

#[test]
fn config_as_output() {
    let mut cfg = Config::default();
    cfg.as_input().with_edge_detection(Some(RisingEdge));
    assert_eq!(cfg.base().direction, Some(Input));
    assert_eq!(cfg.base().value, None);
    assert_eq!(cfg.base().edge_detection, Some(RisingEdge));

    cfg.as_output(Active);
    assert_eq!(cfg.base().direction, Some(Output));
    assert_eq!(cfg.base().value, Some(Active));
    assert_eq!(cfg.base().edge_detection, None);
}

#[test]
fn config_as_active_low() {
    let mut cfg = Config::default();

    cfg.as_active_low();
    assert!(cfg.base().active_low);

    cfg.as_active_high();
    assert!(!cfg.base().active_low);
}

#[test]
fn config_as_active_high() {
    let mut cfg = Config::default();
    cfg.as_active_low().with_line(3);
    assert!(cfg.line_config(3).unwrap().active_low);
    assert!(cfg.base().active_low);

    cfg.as_active_high();
    assert!(cfg.base().active_low);
    assert!(!cfg.line_config(3).unwrap().active_low);
}

#[test]
fn config_with_bias() {
    let mut cfg = Config::default();
    cfg.with_bias(Some(PullUp));
    assert_eq!(cfg.base().bias, Some(PullUp));

    cfg.with_bias(Some(PullDown));
    assert_eq!(cfg.base().bias, Some(PullDown));

    cfg.with_bias(Some(Disabled));
    assert_eq!(cfg.base().bias, Some(Disabled));

    cfg.with_bias(None);
    assert_eq!(cfg.base().bias, None);
}

#[test]
fn config_with_debounce_period() {
    let d_us = Period::from_micros(1234);
    let d_ns = Period::from_nanos(234);
    let mut cfg = Config::default();
    cfg.with_drive(OpenSource);
    assert_eq!(cfg.base().direction, Some(Output));

    cfg.with_debounce_period(Period::from_micros(1234));
    assert_eq!(cfg.base().debounce_period, Some(d_us));
    assert_eq!(cfg.base().direction, Some(Input));

    cfg.with_debounce_period(Period::from_nanos(234));
    assert_eq!(cfg.base().debounce_period, Some(d_ns));

    cfg.with_debounce_period(Period::zero());
    assert!(cfg.base().debounce_period.is_none());
}

#[test]
fn config_with_direction() {
    let mut cfg = Config::default();
    cfg.with_direction(Output);
    assert_eq!(cfg.base().direction, Some(Output));
    cfg.with_direction(Input);
    assert_eq!(cfg.base().direction, Some(Input));
}

#[test]
fn config_with_drive() {
    let mut cfg = Config::default();
    cfg.with_bias(Some(PullUp))
        .with_debounce_period(Period::from_millis(10))
        .with_edge_detection(Some(RisingEdge));
    assert_eq!(cfg.base().direction, Some(Input));
    assert_eq!(cfg.base().bias, Some(PullUp));
    assert_eq!(cfg.base().debounce_period, Some(Period::from_millis(10)));
    assert_eq!(cfg.base().edge_detection, Some(RisingEdge));

    cfg.with_drive(PushPull);
    assert_eq!(cfg.base().direction, Some(Output));
    assert_eq!(cfg.base().drive, Some(PushPull));
    assert_eq!(cfg.base().bias, Some(PullUp));
    assert!(cfg.base().debounce_period.is_none());
    assert_eq!(cfg.base().edge_detection, None);

    cfg.with_drive(OpenDrain);
    assert_eq!(cfg.base().drive, Some(OpenDrain));

    cfg.with_drive(OpenSource);
    assert_eq!(cfg.base().drive, Some(OpenSource));
}

#[test]
fn config_with_edge_detection() {
    let mut cfg = Config::default();
    cfg.with_drive(OpenSource);
    assert_eq!(cfg.base().direction, Some(Output));
    cfg.with_edge_detection(Some(RisingEdge));
    assert_eq!(cfg.base().edge_detection, Some(RisingEdge));
    assert_eq!(cfg.base().drive, None);
    assert_eq!(cfg.base().direction, Some(Input));
    cfg.with_edge_detection(Some(FallingEdge));
    assert_eq!(cfg.base().edge_detection, Some(FallingEdge));
    cfg.with_edge_detection(Some(BothEdges));
    assert_eq!(cfg.base().edge_detection, Some(BothEdges));
}

#[test]
fn config_with_event_clock() {
    let mut cfg = Config::default();
    assert_eq!(cfg.base().event_clock, None);
    cfg.with_event_clock(Some(Realtime));
    assert_eq!(cfg.base().event_clock, Some(Realtime));
    cfg.with_event_clock(Some(Monotonic));
    assert_eq!(cfg.base().event_clock, Some(Monotonic));
}

#[test]
fn config_with_line() {
    let mut cfg = Config::default();

    // initial mutator hits base config
    cfg.as_output(Active);
    assert_eq!(cfg.base().direction, Some(Output));
    assert_eq!(cfg.base().value, Some(Active));
    cfg.as_input();
    assert_eq!(cfg.base().direction, Some(Input));
    assert_eq!(cfg.base().value, None);
    assert!(cfg.lines().is_empty());
    assert!(cfg.selected().is_empty());

    // mutator hits selected config
    cfg.with_line(3);
    assert_eq!(cfg.lines(), &[3]);
    assert_eq!(cfg.selected(), &[3]);
    assert_eq!(cfg.line_config(3).unwrap().direction, Some(Input));
    assert_eq!(cfg.line_config(3).unwrap().value, None);

    // mutator only hits selected config
    cfg.with_line(5);
    assert_eq!(cfg.lines(), &[3, 5]);
    assert_eq!(cfg.selected(), &[5]);
    assert_eq!(cfg.line_config(5).unwrap().direction, Some(Input));
    assert_eq!(cfg.line_config(5).unwrap().value, None);
    assert_eq!(cfg.line_config(3).unwrap().direction, Some(Input));
    assert_eq!(cfg.line_config(3).unwrap().value, None);
    cfg.as_output(Inactive);
    assert_eq!(cfg.lines(), &[3, 5]);
    assert_eq!(cfg.selected(), &[5]);
    assert_eq!(cfg.line_config(5).unwrap().direction, Some(Output));
    assert_eq!(cfg.line_config(5).unwrap().value, Some(Inactive));
    assert_eq!(cfg.line_config(3).unwrap().direction, Some(Input));
    assert_eq!(cfg.line_config(3).unwrap().value, None);
    assert_eq!(cfg.base().direction, Some(Input));
    assert_eq!(cfg.base().value, None);
}

#[test]
fn config_without_line() {
    let mut cfg = Config::default();
    cfg.as_output(Active);
    assert_eq!(cfg.base().direction, Some(Output));
    assert_eq!(cfg.base().value, Some(Active));

    cfg.with_lines(&[1, 6, 2, 7]);
    assert_eq!(cfg.lines(), &[1, 6, 2, 7]);
    assert_eq!(cfg.selected(), &[1, 6, 2, 7]);
    assert_eq!(cfg.line_config(2).unwrap().direction, Some(Output));
    assert_eq!(cfg.line_config(2).unwrap().value, Some(Active));
    assert_eq!(cfg.line_config(6).unwrap().direction, Some(Output));
    assert_eq!(cfg.line_config(6).unwrap().value, Some(Active));

    // from selected
    cfg.without_line(2);
    assert_eq!(cfg.lines(), &[1, 6, 7]);
    assert_eq!(cfg.selected(), &[1, 6, 7]);
    assert_eq!(cfg.line_config(6).unwrap().direction, Some(Output));
    assert_eq!(cfg.line_config(6).unwrap().value, Some(Active));
    cfg.with_line(1);
    assert_eq!(cfg.lines(), &[1, 6, 7]);
    assert_eq!(cfg.selected(), &[1]);
    assert_eq!(cfg.num_lines(), 3);
    assert_eq!(cfg.line_config(6).unwrap().direction, Some(Output));
    assert_eq!(cfg.line_config(6).unwrap().value, Some(Active));

    // from unselected
    cfg.without_line(6);
    assert_eq!(cfg.lines(), &[1, 7]);
    assert_eq!(cfg.selected(), &[1]);
    assert_eq!(cfg.num_lines(), 2);
    assert!(cfg.line_config(1).is_some());
    assert!(cfg.line_config(7).is_some());
    assert!(cfg.line_config(6).is_none());

    // last select
    cfg.without_line(1);
    assert_eq!(cfg.lines(), &[7]);
    assert!(cfg.selected().is_empty());
    assert_eq!(cfg.num_lines(), 1);
    assert!(cfg.line_config(1).is_none());
}

#[test]
fn config_with_lines() {
    let mut cfg = Config::default();
    cfg.as_output(Active);
    assert_eq!(cfg.base().direction, Some(Output));
    assert_eq!(cfg.base().value, Some(Active));

    // select some
    cfg.with_lines(&[7, 2, 6, 1]);
    assert_eq!(cfg.lines(), &[7, 2, 6, 1]);
    assert_eq!(cfg.selected(), &[7, 2, 6, 1]);
    assert_eq!(cfg.num_lines(), 4);
    assert!(cfg.line_config(1).is_some());
    assert!(cfg.line_config(2).is_some());
    assert!(cfg.line_config(6).is_some());
    assert!(cfg.line_config(7).is_some());

    // add another
    cfg.with_lines(&[1, 2, 9]);
    assert_eq!(cfg.lines(), &[7, 2, 6, 1, 9]);
    assert_eq!(cfg.selected(), &[1, 2, 9]);
    assert_eq!(cfg.num_lines(), 5);
    assert!(cfg.line_config(6).is_some());
    assert!(cfg.line_config(7).is_some());
    assert!(cfg.line_config(1).is_some());
    assert!(cfg.line_config(2).is_some());
    assert!(cfg.line_config(9).is_some());

    // select none
    cfg.with_lines(&[]);
    assert_eq!(cfg.lines(), &[7, 2, 6, 1, 9]);
    assert_eq!(cfg.selected().len(), 0);
    assert_eq!(cfg.num_lines(), 5);
    assert!(cfg.line_config(1).is_some());
    assert!(cfg.line_config(2).is_some());
    assert!(cfg.line_config(6).is_some());
    assert!(cfg.line_config(7).is_some());
    assert!(cfg.line_config(9).is_some());
}

#[test]
fn config_without_lines() {
    let mut cfg = Config::default();
    cfg.with_lines(&[1, 2, 3, 4]).with_lines(&[5, 6, 7, 8]);

    // from selected and unselected
    cfg.without_lines(&[1, 4, 6, 7]);
    assert_eq!(cfg.selected(), &[5, 8]);
    assert_eq!(cfg.num_lines(), 4);
    assert!(cfg.line_config(1).is_none());
    assert!(cfg.line_config(2).is_some());
    assert!(cfg.line_config(3).is_some());
    assert!(cfg.line_config(4).is_none());
    assert!(cfg.line_config(5).is_some());
    assert!(cfg.line_config(6).is_none());
    assert!(cfg.line_config(7).is_none());
    assert!(cfg.line_config(8).is_some());
}

#[test]
fn with_found_line() {
    let mut cfg = Config::default();

    // add one
    assert!(cfg.with_found_line(&found(3)).is_ok());
    assert_eq!(cfg.lines(), &[3]);
    assert_eq!(cfg.selected(), &[3]);

    // and another
    assert!(cfg.with_found_line(&found(7)).is_ok());
    assert_eq!(cfg.lines(), &[3, 7]);
    assert_eq!(cfg.selected(), &[7]);

    // and another
    assert!(cfg.with_found_line(&found(5)).is_ok());
    assert_eq!(cfg.lines(), &[3, 7, 5]);
    assert_eq!(cfg.selected(), &[5]);

    // and a duplicate
    assert!(cfg.with_found_line(&found(7)).is_ok());
    assert_eq!(cfg.lines(), &[3, 7, 5]);
    assert_eq!(cfg.selected(), &[7]);

    // a line on another chip
    let mut cfg = Config::default();
    assert!(cfg.with_found_line(&found_on("/dev/gpiochip0", 3)).is_ok());
    assert_eq!(cfg.chip(), "/dev/gpiochip0");
    let err = cfg
        .with_found_line(&found_on("/dev/gpiochip1", 4))
        .err()
        .expect("lines on two chips should fail");
    assert_eq!(err.message(), "Multiple chips requested.");
}

#[test]
fn with_found_lines() {
    let mut cfg = Config::default();

    // add some
    assert!(cfg.with_found_lines(&[found(3), found(5)]).is_ok());
    assert_eq!(sorted(cfg.lines()), &[3, 5]);
    assert_eq!(sorted(cfg.selected()), &[3, 5]);
    assert_eq!(cfg.num_lines(), 2);
    assert!(cfg.line_config(3).is_some());
    assert!(cfg.line_config(5).is_some());

    // add more
    assert!(cfg.with_found_lines(&[found(7), found(1)]).is_ok());
    assert_eq!(sorted(cfg.lines()), &[1, 3, 5, 7]);
    assert_eq!(sorted(cfg.selected()), &[1, 7]);
    assert_eq!(cfg.num_lines(), 4);
    assert!(cfg.line_config(1).is_some());
    assert!(cfg.line_config(3).is_some());
    assert!(cfg.line_config(5).is_some());
    assert!(cfg.line_config(7).is_some());

    // add duplicates
    assert!(cfg.with_found_lines(&[found(1), found(5)]).is_ok());
    assert_eq!(sorted(cfg.lines()), &[1, 3, 5, 7]);
    assert_eq!(sorted(cfg.selected()), &[1, 5]);
    assert_eq!(cfg.num_lines(), 4);
    assert!(cfg.line_config(1).is_some());
    assert!(cfg.line_config(3).is_some());
    assert!(cfg.line_config(5).is_some());
    assert!(cfg.line_config(7).is_some());
}

#[test]
fn config_with_output_lines() {
    let mut cfg = Config::default();
    let vv = Values::from_pairs(&[(3, Value::Active), (5, Value::Inactive)]);
    cfg.with_output_lines(&vv);
    assert_eq!(sorted(cfg.lines()), &[3, 5]);
    assert_eq!(sorted(cfg.selected()), &[3, 5]);
    assert_eq!(cfg.num_lines(), 2);
    assert!(cfg.line_config(3).is_some());
    assert_eq!(cfg.line_config(3).unwrap().direction, Some(Output));
    assert_eq!(cfg.line_config(3).unwrap().value, Some(Value::Active));

    assert!(cfg.line_config(5).is_some());
    assert_eq!(cfg.line_config(5).unwrap().direction, Some(Output));
    assert_eq!(cfg.line_config(5).unwrap().value, Some(Value::Inactive));
}

#[test]
fn config_with_value() {
    let mut cfg = Config::default();
    assert_eq!(cfg.base().value, None);

    cfg.as_input().with_value(Active);
    assert_eq!(cfg.base().value, Some(Active));

    cfg.as_input().with_value(Inactive);
    assert_eq!(cfg.base().value, Some(Inactive));
}

fn full_line_config() -> gpiocdev::line::Config {
    gpiocdev::line::Config {
        direction: Some(Output),
        active_low: true,
        bias: Some(Disabled),
        drive: Some(OpenSource),
        edge_detection: Some(BothEdges),
        event_clock: Some(Realtime),
        debounce_period: Some(Period::from_micros(1234)),
        value: Some(Active),
    }
}

#[test]
fn config_from_line_config() {
    let d_us = Period::from_micros(1234);
    let lc = full_line_config();

    // base
    let mut cfg = Config::default();
    cfg.from_line_config(&lc);
    assert_eq!(cfg.num_lines(), 0);
    assert!(cfg.selected().is_empty());
    assert_eq!(cfg.base().direction, Some(Output));
    assert!(cfg.base().active_low);
    assert_eq!(cfg.base().drive, Some(OpenSource));
    assert_eq!(cfg.base().edge_detection, Some(BothEdges));
    assert_eq!(cfg.base().event_clock, Some(Realtime));
    assert_eq!(cfg.base().value, Some(Active));
    assert_eq!(cfg.base().debounce_period, Some(d_us));

    // select
    let mut cfg = Config::default();
    cfg.with_line(1).from_line_config(&lc);
    assert_eq!(cfg.selected(), &[1]);
    assert_eq!(cfg.num_lines(), 1);
    let select = cfg.line_config(1).unwrap();
    assert_eq!(select.direction, Some(Output));
    assert!(select.active_low);
    assert_eq!(select.direction, Some(Output));
    assert_eq!(select.drive, Some(OpenSource));
    assert_eq!(select.edge_detection, Some(BothEdges));
    assert_eq!(select.event_clock, Some(Realtime));
    assert_eq!(select.value, Some(Active));
}

#[test]
fn line_config() {
    let mut cfg = Config::default();
    cfg.with_bias(Some(PullDown));
    // no config
    assert!(cfg.line_config(2).is_none());

    // from select
    cfg.with_line(2);
    let mut lc = cfg.line_config(2);
    assert!(lc.is_some());
    assert_eq!(lc.unwrap().bias, Some(PullDown));

    // from unselected
    cfg.with_line(3);
    lc = cfg.line_config(2);
    assert!(lc.is_some());
    let lc = lc.unwrap();
    assert_eq!(lc.bias, Some(PullDown));
}

#[test]
fn lines() {
    let mut cfg = Config::default();
    cfg.with_lines(&[1, 2, 4, 6]).with_lines(&[2, 6, 9]);
    // should have 1,4 unselected and 2,6,9 select
    assert_eq!(cfg.lines(), &[1, 2, 4, 6, 9]);

    cfg.without_lines(&[1, 2]);
    assert_eq!(cfg.lines(), &[4, 6, 9]);
}

#[test]
fn num_lines() {
    let mut cfg = Config::default();
    cfg.with_lines(&[1, 2, 4, 6]);
    assert_eq!(cfg.num_lines(), 4);

    cfg.with_lines(&[2, 6, 9]);
    // should have 1,4 unselected and 2,6,9 select
    assert_eq!(cfg.num_lines(), 5);

    cfg.without_lines(&[1, 2]);
    assert_eq!(cfg.num_lines(), 3);
}

#[test]
fn unique() {
    let mut cfg = Config::default();
    // multiple, but unique
    cfg.with_lines(&[1, 2, 4, 6]);
    let lc = *cfg.line_config(1).unwrap();
    assert_eq!(*cfg.unique().unwrap(), lc);

    // multiple, not unique
    cfg.with_lines(&[2, 6, 9]).with_bias(Some(PullUp));
    assert_eq!(
        cfg.unique().unwrap_err().message(),
        "uAPI ABI v1 requires all lines to share the same configuration."
    );

    // reduce to one (line 4), so unique again
    cfg.without_lines(&[1, 2, 6, 9]);
    let lc = *cfg.line_config(4).unwrap();
    assert_eq!(*cfg.unique().unwrap(), lc);
}

#[test]
fn overlay() {
    let mut bottom = Config::default();
    bottom.with_lines(&[1, 4, 7]).as_active_low();
    assert_eq!(bottom.num_lines(), 3);
    let mut top = Config::default();
    top.with_lines(&[3, 4]).as_active_high();
    let overlay = bottom.overlay(&top);
    assert_eq!(overlay.num_lines(), 3);

    let lc = overlay.line_config(1).unwrap();
    assert!(lc.active_low);
    assert_eq!(overlay.line_config(3), None);

    let lc = overlay.line_config(4).unwrap();
    assert!(!lc.active_low);

    let lc = overlay.line_config(7).unwrap();
    assert!(lc.active_low);
}

#[test]
fn config_to_v1() {
    let mut cfg = Config::default();
    cfg.with_line(3)
        .as_output(Value::Active)
        .with_line(1)
        .as_output(Value::Inactive)
        .with_line(2)
        .as_output(Value::Active);
    let hc = cfg.to_v1().unwrap();
    assert!(v1::HandleRequestFlags::from_bits_retain(hc.flags)
        .contains(v1::HandleRequestFlags::OUTPUT));
    assert_eq!(hc.values.get(0), 1);
    assert_eq!(hc.values.get(1), 0);
    assert_eq!(hc.values.get(2), 1);

    cfg.with_line(2).as_input();
    assert_eq!(
        cfg.to_v1().unwrap_err().message(),
        "uAPI ABI v1 requires all lines to share the same configuration."
    );
}

#[test]
fn to_v1_values() {
    let mut cfg = Config::default();
    cfg.with_line(3)
        .as_output(Value::Active)
        .with_line(2)
        .as_input()
        .with_line(1)
        .as_output(Value::Inactive);
    let values = cfg.to_v1_values();
    // in order added to config
    assert_eq!(values.get(0), 1);
    assert_eq!(values.get(1), 0);
    assert_eq!(values.get(2), 0);
}

fn bit(mask: u64, idx: u32) -> bool {
    mask & (1 << idx) != 0
}

#[test]
fn config_to_v2() {
    let mut cfg = Config::default();
    cfg.with_line(3)
        .as_output(Value::Active)
        .with_line(1)
        .as_output(Value::Inactive)
        .with_line(4)
        .as_input()
        .as_active_low()
        .with_debounce_period(Period::from_millis(10))
        .with_line(2)
        .as_output(Value::Active);
    let lc = cfg.to_v2().unwrap();
    assert!(v2::LineFlags::from_bits_retain(lc.flags).contains(v2::LineFlags::OUTPUT));
    assert_eq!(lc.num_attrs, 3);

    // first is flags for line 4
    let lca = lc.attrs[0];
    assert!(!bit(lca.mask, 0));
    assert!(!bit(lca.mask, 1));
    assert!(bit(lca.mask, 2));
    assert!(!bit(lca.mask, 3));
    match lca.value {
        LineAttributeValueV2::Flags(f) => assert!(v2::LineFlags::from_bits_retain(f)
            .contains(v2::LineFlags::INPUT | v2::LineFlags::ACTIVE_LOW)),
        _ => panic!("not a flags attribute"),
    }

    // second is values for outputs
    let lca = lc.attrs[1];
    assert!(bit(lca.mask, 0));
    assert!(bit(lca.mask, 1));
    assert!(!bit(lca.mask, 2));
    assert!(bit(lca.mask, 3));
    match lca.value {
        LineAttributeValueV2::Values(v) => {
            assert!(bit(v, 0));
            assert!(!bit(v, 1));
            assert!(!bit(v, 2));
            assert!(bit(v, 3));
        }
        _ => panic!("not a values attribute"),
    }

    // third is debounce for line 4
    let lca = lc.attrs[2];
    assert!(!bit(lca.mask, 0));
    assert!(!bit(lca.mask, 1));
    assert!(bit(lca.mask, 2));
    assert!(!bit(lca.mask, 3));
    assert_eq!(lca.value, LineAttributeValueV2::DebouncePeriod(10000));

    // too many attrs required
    for offset in 10..20 {
        cfg.with_line(offset)
            .with_debounce_period(Period::from_millis(offset as u64));
    }
    assert_eq!(
        cfg.to_v2().unwrap_err().message(),
        // requires 10 attrs in addition to the 3 above -
        // one for the flags and 9 for additional debounce periods.
        // (line 10 has debounce in common with line 4)
        "uAPI ABI v2 supports 10 attrs, configuration requires 13."
    );
}

fn check_new_builder(b: &Builder) {
    assert_eq!(b.config_ref().chip(), "");
    assert_eq!(b.config_ref().num_lines(), 0);
    assert_eq!(b.consumer(), "");
    assert_eq!(b.kernel_event_buffer_size(), 0);
    assert_eq!(b.user_event_buffer_size(), 0);
    assert_eq!(b.abi_version(), None);
}

#[test]
fn builder_default() {
    check_new_builder(&Builder::default());
}

#[test]
fn builder() {
    check_new_builder(&Builder::new());
}

#[test]
fn request_from_config() {
    let mut cfg = Config::default();
    cfg.with_line(3).as_input().with_line(5).as_output(Value::Active);
    let b = Builder::from_config(cfg);
    assert_eq!(b.config_ref().chip(), "");
    assert_eq!(b.config_ref().num_lines(), 2);
    assert_eq!(b.consumer(), "");
    assert_eq!(b.kernel_event_buffer_size(), 0);
    assert_eq!(b.user_event_buffer_size(), 0);
    assert_eq!(b.abi_version(), None);
}

#[test]
fn builder_from_config() {
    let mut cfg = Config::default();
    cfg.as_input().with_lines(&[1, 7, 4]);
    let b = Builder::from_config(cfg);
    assert_eq!(b.config_ref().lines(), &[1, 7, 4]);
    assert_eq!(b.config_ref().num_lines(), 3);
}

#[test]
fn request_no_chip() {
    let mut b = Builder::default();
    b.with_line(2);
    let res = b.validate();
    assert!(res.is_err());
    assert_eq!(res.err().unwrap().message(), "No chip specified.");
}

#[test]
fn request_multiple_chips() {
    let mut b = Builder::default();
    b.on_chip("/dev/gpiochip0")
        .with_line(2)
        .on_chip("/dev/gpiochip1")
        .with_line(3);
    let res = b.validate();
    assert!(res.is_err());
    assert_eq!(res.err().unwrap().message(), "Multiple chips requested.");
}

#[test]
fn with_config() {
    let mut b = Builder::default();
    let mut cfg = Config::default();
    cfg.as_input().with_lines(&[1, 7, 4]);
    b.with_config(cfg);
    assert_eq!(b.config_ref().lines(), &[1, 7, 4]);
    assert_eq!(b.config_ref().num_lines(), 3);
}

#[test]
fn config() {
    let mut b = Builder::default();
    b.as_input().with_lines(&[1, 7, 4]);
    let cfg = b.config();
    assert_eq!(cfg.num_lines(), 3);
    assert_eq!(cfg.lines(), &[1, 7, 4]);
}

#[test]
fn with_consumer() {
    let mut b = Builder::default();
    assert_eq!(b.consumer(), "");

    b.with_consumer("builder test");
    assert_eq!(b.consumer(), "builder test");
}

#[test]
fn with_kernel_event_buffer_size() {
    let mut b = Builder::default();
    assert_eq!(b.kernel_event_buffer_size(), 0);

    b.with_kernel_event_buffer_size(42);
    assert_eq!(b.kernel_event_buffer_size(), 42);
}

#[test]
fn with_user_event_buffer_size() {
    let mut b = Builder::default();
    assert_eq!(b.user_event_buffer_size(), 0);

    b.with_user_event_buffer_size(67);
    assert_eq!(b.user_event_buffer_size(), 67);
}

#[test]
fn builder_using_abi_version() {
    let mut b = Builder::default();
    assert_eq!(b.abi_version(), None);

    b.using_abi_version(AbiVersion::V1);
    assert_eq!(b.abi_version(), Some(AbiVersion::V1));

    b.using_abi_version(AbiVersion::V2);
    assert_eq!(b.abi_version(), Some(AbiVersion::V2));
}

#[test]
fn on_chip() {
    let mut b = Builder::default();
    assert_eq!(b.config_ref().chip(), "");

    b.on_chip("test chip");
    assert_eq!(b.config_ref().chip(), "test chip");

    b.on_chip("test chip2");
    assert_eq!(b.config_ref().chip(), "test chip");
}

#[test]
fn builder_as_input() {
    let mut b = Builder::default();
    b.as_output(Active);
    assert_eq!(b.config_ref().base().direction, Some(Output));

    b.as_input();
    assert_eq!(b.config_ref().base().direction, Some(Input));
}

#[test]
fn builder_as_output() {
    let mut b = Builder::default();
    b.as_input();
    assert_eq!(b.config_ref().base().direction, Some(Input));

    b.as_output(Active);
    assert_eq!(b.config_ref().base().direction, Some(Output));
}

#[test]
fn builder_as_active_low() {
    let mut b = Builder::default();
    assert!(!b.config_ref().base().active_low);

    b.as_active_low();
    assert!(b.config_ref().base().active_low);
}

#[test]
fn builder_as_active_high() {
    let mut b = Builder::default();
    assert!(!b.config_ref().base().active_low);

    b.as_active_low();
    assert!(b.config_ref().base().active_low);

    b.as_active_high();
    assert!(!b.config_ref().base().active_low);
}

#[test]
fn builder_with_bias() {
    let mut b = Builder::default();
    b.with_bias(Some(PullUp));
    assert_eq!(b.config_ref().base().bias, Some(PullUp));

    b.with_bias(Some(PullDown));
    assert_eq!(b.config_ref().base().bias, Some(PullDown));

    b.with_bias(Some(Disabled));
    assert_eq!(b.config_ref().base().bias, Some(Disabled));

    b.with_bias(None);
    assert_eq!(b.config_ref().base().bias, None);
}

#[test]
fn builder_with_debounce_period() {
    let d_us = Period::from_micros(1234);
    let d_ns = Period::from_nanos(234);
    let mut b = Builder::default();

    b.with_drive(OpenSource);
    assert_eq!(b.config_ref().base().direction, Some(Output));

    b.with_debounce_period(Period::from_micros(1234));
    assert_eq!(b.config_ref().base().debounce_period, Some(d_us));
    assert_eq!(b.config_ref().base().direction, Some(Input));

    b.with_debounce_period(Period::from_nanos(234));
    assert_eq!(b.config_ref().base().debounce_period, Some(d_ns));

    b.with_debounce_period(Period::zero());
    assert!(b.config_ref().base().debounce_period.is_none());
}

#[test]
fn builder_with_direction() {
    let mut b = Builder::default();
    b.with_direction(Output);
    assert_eq!(b.config_ref().base().direction, Some(Output));

    b.with_direction(Input);
    assert_eq!(b.config_ref().base().direction, Some(Input));
}

#[test]
fn builder_with_drive() {
    let mut b = Builder::default();
    b.with_bias(Some(PullUp))
        .with_debounce_period(Period::from_millis(10))
        .with_edge_detection(Some(RisingEdge));
    assert_eq!(b.config_ref().base().direction, Some(Input));
    assert_eq!(b.config_ref().base().bias, Some(PullUp));
    assert_eq!(b.config_ref().base().debounce_period, Some(Period::from_millis(10)));
    assert_eq!(b.config_ref().base().edge_detection, Some(RisingEdge));

    b.with_drive(PushPull);
    assert_eq!(b.config_ref().base().direction, Some(Output));
    assert_eq!(b.config_ref().base().drive, Some(PushPull));
    assert_eq!(b.config_ref().base().bias, Some(PullUp));
    assert!(b.config_ref().base().debounce_period.is_none());
    assert_eq!(b.config_ref().base().edge_detection, None);

    b.with_drive(OpenDrain);
    assert_eq!(b.config_ref().base().drive, Some(OpenDrain));

    b.with_drive(OpenSource);
    assert_eq!(b.config_ref().base().drive, Some(OpenSource));
}

#[test]
fn builder_with_edge_detection() {
    let mut b = Builder::default();
    b.with_drive(OpenSource);
    assert_eq!(b.config_ref().base().direction, Some(Output));

    b.with_edge_detection(Some(RisingEdge));
    assert_eq!(b.config_ref().base().edge_detection, Some(RisingEdge));
    assert_eq!(b.config_ref().base().drive, None);
    assert_eq!(b.config_ref().base().direction, Some(Input));

    b.with_edge_detection(Some(FallingEdge));
    assert_eq!(b.config_ref().base().edge_detection, Some(FallingEdge));

    b.with_edge_detection(Some(BothEdges));
    assert_eq!(b.config_ref().base().edge_detection, Some(BothEdges));

    b.with_edge_detection(None);
    assert_eq!(b.config_ref().base().edge_detection, None);
}

#[test]
fn builder_with_event_clock() {
    let mut b = Builder::default();
    assert_eq!(b.config_ref().base().event_clock, None);

    b.with_event_clock(Some(Realtime));
    assert_eq!(b.config_ref().base().event_clock, Some(Realtime));

    b.with_event_clock(Some(Monotonic));
    assert_eq!(b.config_ref().base().event_clock, Some(Monotonic));

    b.with_event_clock(Some(Hte));
    assert_eq!(b.config_ref().base().event_clock, Some(Hte));

    b.with_event_clock(None);
    assert_eq!(b.config_ref().base().event_clock, None);
}

#[test]
fn builder_with_line() {
    let mut b = Builder::default();
    assert_eq!(b.config_ref().num_lines(), 0);

    b.with_line(3);
    assert_eq!(b.config_ref().num_lines(), 1);

    b.with_line(5);
    assert_eq!(b.config_ref().num_lines(), 2);

    b.with_line(3);
    assert_eq!(b.config_ref().num_lines(), 2);
}

#[test]
fn builder_without_line() {
    let mut b = Builder::default();

    b.with_lines(&[3, 1]);
    assert_eq!(b.config_ref().num_lines(), 2);

    b.without_line(3);
    assert_eq!(b.config_ref().num_lines(), 1);
    assert_eq!(b.config_ref().lines(), &[1]);
}

#[test]
fn builder_with_lines() {
    let mut b = Builder::default();
    assert_eq!(b.config_ref().num_lines(), 0);

    b.with_lines(&[3, 1]);
    assert_eq!(b.config_ref().num_lines(), 2);
    assert_eq!(b.config_ref().lines(), &[3, 1]);

    b.with_lines(&[1, 5]);
    assert_eq!(b.config_ref().num_lines(), 3);
    assert_eq!(b.config_ref().lines(), &[3, 1, 5]);
}

#[test]
fn builder_without_lines() {
    let mut b = Builder::default();
    b.with_lines(&[3, 1, 0, 5, 7]);
    assert_eq!(b.config_ref().num_lines(), 5);

    b.without_lines(&[3, 5]);
    assert_eq!(b.config_ref().num_lines(), 3);
    assert_eq!(b.config_ref().lines(), &[1, 0, 7]);
}

#[test]
fn builder_with_output_lines() {
    let mut b = Builder::default();
    assert_eq!(b.config_ref().num_lines(), 0);

    let vv = Values::from_pairs(&[(3, Value::Active), (5, Value::Inactive)]);

    b.with_output_lines(&vv);
    let cfg = b.config_ref();
    assert_eq!(cfg.num_lines(), 2);
    assert_eq!(sorted(cfg.lines()), &[3, 5]);
    assert!(cfg.line_config(3).is_some());
    assert_eq!(cfg.line_config(3).unwrap().direction, Some(Output));
    assert_eq!(cfg.line_config(3).unwrap().value, Some(Value::Active));
    assert!(cfg.line_config(5).is_some());
    assert_eq!(cfg.line_config(5).unwrap().direction, Some(Output));
    assert_eq!(cfg.line_config(5).unwrap().value, Some(Value::Inactive));

    let vv = Values::from_pairs(&[(3, Value::Inactive), (1, Value::Active)]);

    b.with_output_lines(&vv);
    let cfg = b.config_ref();
    assert_eq!(cfg.num_lines(), 3);
    assert_eq!(sorted(cfg.lines()), &[1, 3, 5]);
    assert!(cfg.line_config(3).is_some());
    assert_eq!(cfg.line_config(3).unwrap().direction, Some(Output));
    assert_eq!(cfg.line_config(3).unwrap().value, Some(Value::Inactive));
    assert!(cfg.line_config(1).is_some());
    assert_eq!(cfg.line_config(1).unwrap().direction, Some(Output));
    assert_eq!(cfg.line_config(1).unwrap().value, Some(Value::Active));
}

#[test]
fn builder_with_value() {
    let mut b = Builder::default();
    assert_eq!(b.config_ref().base().value, None);

    b.as_input().with_value(Active);
    assert_eq!(b.config_ref().base().value, Some(Active));

    b.as_input().with_value(Inactive);
    assert_eq!(b.config_ref().base().value, Some(Inactive));
}

#[test]
fn builder_from_line_config() {
    let mut b = Builder::default();
    let d_us = Period::from_micros(1234);
    let lc = full_line_config();
    b.from_line_config(&lc);
    assert_eq!(b.config_ref().num_lines(), 0);
    assert!(b.config_ref().selected().is_empty());
    let base = *b.config_ref().base();
    assert_eq!(base.direction, Some(Output));
    assert!(base.active_low);
    assert_eq!(base.direction, Some(Output));
    assert_eq!(base.drive, Some(OpenSource));
    assert_eq!(base.edge_detection, Some(BothEdges));
    assert_eq!(base.event_clock, Some(Realtime));
    assert_eq!(base.value, Some(Active));
    assert_eq!(base.debounce_period, Some(d_us));
}

#[test]
fn to_uapi() {
    let res = Builder::default().to_uapi(AbiVersion::V2, 1);
    assert!(res.is_err());
    assert_eq!(res.err().unwrap().message(), "No lines specified.");
}

#[test]
fn builder_to_v1() {
    let pid = 4321;
    let mut b = Builder::default();
    b.with_consumer("test builder")
        .with_lines(&[1, 8, 4])
        .as_active_low()
        .as_input();
    if let UapiRequest::Handle(hr) = b.to_uapi(AbiVersion::V1, pid).unwrap() {
        assert_eq!(hr.num_lines, 3);
        assert_eq!(hr.offsets[0], 1);
        assert_eq!(hr.offsets[1], 8);
        assert_eq!(hr.offsets[2], 4);
        assert_eq!(hr.consumer.as_str(), "test builder");
        assert!(v1::HandleRequestFlags::from_bits_retain(hr.flags)
            .contains(v1::HandleRequestFlags::INPUT | v1::HandleRequestFlags::ACTIVE_LOW));
        assert_eq!(hr.values.get(0), 0);
        assert_eq!(hr.values.get(1), 0);
        assert_eq!(hr.values.get(2), 0);
    } else {
        panic!("not a handle request");
    }

    let mut b = Builder::default();
    b.with_consumer("test builder")
        .with_line(8)
        .with_edge_detection(Some(RisingEdge));
    if let UapiRequest::Event(er) = b.to_uapi(AbiVersion::V1, pid).unwrap() {
        assert_eq!(er.offset, 8);
        assert_eq!(er.consumer.as_str(), "test builder");
        assert!(v1::HandleRequestFlags::from_bits_retain(er.handleflags)
            .contains(v1::HandleRequestFlags::INPUT));
        assert!(v1::EventRequestFlags::from_bits_retain(er.eventflags)
            .contains(v1::EventRequestFlags::RISING_EDGE));
    } else {
        panic!("not an event request");
    }

    let mut b = Builder::default();
    b.with_lines(&[2, 6])
        .as_output(Value::Active)
        .with_lines(&[5, 7])
        .as_output(Value::Inactive);
    if let UapiRequest::Handle(hr) = b.to_uapi(AbiVersion::V1, pid).unwrap() {
        assert_eq!(hr.num_lines, 4);
        assert_eq!(hr.offsets[0], 2);
        assert_eq!(hr.offsets[1], 6);
        assert_eq!(hr.offsets[2], 5);
        assert_eq!(hr.offsets[3], 7);
        assert_eq!(hr.consumer.as_str(), format!("gpiocdev-p{}", pid).as_str());
        assert!(v1::HandleRequestFlags::from_bits_retain(hr.flags)
            .contains(v1::HandleRequestFlags::OUTPUT));
        assert_eq!(hr.values.get(0), 1);
        assert_eq!(hr.values.get(1), 1);
        assert_eq!(hr.values.get(2), 0);
        assert_eq!(hr.values.get(3), 0);
    } else {
        panic!("not a handle request");
    }

    // ABI limitations

    let mut b = Builder::default();
    assert_eq!(
        b.with_kernel_event_buffer_size(42)
            .with_lines(&[1, 8, 4])
            .as_input()
            .to_uapi(AbiVersion::V1, pid)
            .unwrap_err()
            .message(),
        "uAPI ABI v1 does not support setting event buffer size."
    );

    let mut b = Builder::default();
    assert_eq!(
        b.with_lines(&[1, 8, 4])
            .as_input()
            .with_line(3)
            .as_output(Value::Active)
            .to_uapi(AbiVersion::V1, pid)
            .unwrap_err()
            .message(),
        "uAPI ABI v1 requires all lines to share the same configuration."
    );

    let mut b = Builder::default();
    assert_eq!(
        b.with_lines(&[1, 8, 4])
            .with_edge_detection(Some(RisingEdge))
            .to_uapi(AbiVersion::V1, pid)
            .unwrap_err()
            .message(),
        "uAPI ABI v1 only supports edge detection on single line requests."
    );

    let mut b = Builder::default();
    assert_eq!(
        b.with_lines(&[1, 8, 4])
            .with_debounce_period(Period::from_millis(23))
            .to_uapi(AbiVersion::V1, pid)
            .unwrap_err()
            .message(),
        "uAPI ABI v1 does not support debounce."
    );

    let mut b = Builder::default();
    assert_eq!(
        b.with_line(4)
            .with_edge_detection(Some(RisingEdge))
            .with_event_clock(Some(Realtime))
            .to_uapi(AbiVersion::V1, pid)
            .unwrap_err()
            .message(),
        "uAPI ABI v1 does not support selecting the event clock source."
    );
}

#[test]
fn builder_to_v2() {
    let pid = 4321;
    let mut b = Builder::default();
    b.with_consumer("test builder")
        .with_kernel_event_buffer_size(42)
        .with_lines(&[1, 8, 4])
        .with_edge_detection(Some(RisingEdge))
        .with_event_clock(Some(Realtime));
    if let UapiRequest::Line(lr) = b.to_uapi(AbiVersion::V2, pid).unwrap() {
        assert_eq!(lr.num_lines, 3);
        assert_eq!(lr.offsets[0], 1);
        assert_eq!(lr.offsets[1], 8);
        assert_eq!(lr.offsets[2], 4);
        assert_eq!(lr.event_buffer_size, 42);
        assert_eq!(lr.consumer.as_str(), "test builder");
        assert!(v2::LineFlags::from_bits_retain(lr.config.flags).contains(
            v2::LineFlags::INPUT | v2::LineFlags::EDGE_RISING | v2::LineFlags::EVENT_CLOCK_REALTIME
        ));
        assert_eq!(lr.config.num_attrs, 0);
    } else {
        panic!("not a line request");
    }

    let mut b = Builder::default();
    b.with_lines(&[1, 8, 4])
        .as_input()
        .as_active_low()
        .with_lines(&[2, 6])
        .as_output(Value::Active)
        .with_lines(&[5, 7])
        .as_output(Value::Inactive);
    if let UapiRequest::Line(lr) = b.to_uapi(AbiVersion::V2, pid).unwrap() {
        assert_eq!(lr.num_lines, 7);
        assert_eq!(lr.offsets, vec![1, 8, 4, 2, 6, 5, 7]);
        assert_eq!(lr.event_buffer_size, 0);
        assert_eq!(lr.consumer.as_str(), format!("gpiocdev-p{}", pid).as_str());
        // default flags match most lines, so output
        assert!(v2::LineFlags::from_bits_retain(lr.config.flags).contains(v2::LineFlags::OUTPUT));
        assert_eq!(lr.config.num_attrs, 2);
        // first is flags for line inputs
        let lca = lr.config.attrs[0];
        assert_eq!(lca.mask, 0b000111);
        assert_eq!(
            lca.value,
            LineAttributeValueV2::Flags((v2::LineFlags::INPUT | v2::LineFlags::ACTIVE_LOW).bits())
        );
        // second is values for outputs
        let lca = lr.config.attrs[1];
        assert_eq!(lca.mask, 0b1111000);
        // inputs should be inactive, outputs as per config
        assert_eq!(lca.value, LineAttributeValueV2::Values(0b0011000));
    } else {
        panic!("not a line request");
    }

    // more lines than the uAPI supports
    let offsets: Vec<u32> = (0..65).collect();
    let mut b = Builder::default();
    b.with_lines(&offsets);
    assert_eq!(
        b.to_uapi(AbiVersion::V2, pid).unwrap_err().message(),
        "Requested 65 lines is greater than the maximum of 64."
    );
}

#[test]
fn builder_with_found_lines_on_one_chip() {
    let mut b = Builder::default();
    b.with_found_line(&found_on("/dev/gpiochip2", 4))
        .with_found_lines(&[found_on("/dev/gpiochip2", 1), found_on("/dev/gpiochip2", 4)]);
    assert_eq!(b.config_ref().chip(), "/dev/gpiochip2");
    assert_eq!(b.config_ref().lines(), &[4, 1]);
    assert!(b.validate().is_ok());
    b.with_found_line(&found_on("/dev/gpiochip3", 5));
    assert_eq!(b.validate().unwrap_err().message(), "Multiple chips requested.");
}

#[test]
fn sort_lines_keeps_configs() {
    let mut cfg = Config::default();
    cfg.with_line(9).as_output(Active).with_line(2).as_input().with_line(5).as_active_low();
    cfg.sort_lines();
    assert_eq!(cfg.lines(), &[2, 5, 9]);
    assert_eq!(cfg.line_config(9).unwrap().value, Some(Active));
    assert_eq!(cfg.line_config(2).unwrap().direction, Some(Input));
    assert!(cfg.line_config(5).unwrap().active_low);
}

#[test]
fn v2_attribute_layout_is_minimal() {
    // a lone debounce period, rounded up to whole microseconds
    let mut cfg = Config::default();
    cfg.with_line(0).with_debounce_period(Period::from_nanos(1500));
    let lc = cfg.to_v2().unwrap();
    assert!(v2::LineFlags::from_bits_retain(lc.flags).contains(v2::LineFlags::INPUT));
    assert_eq!(lc.num_attrs, 1);
    assert_eq!(lc.attrs.len(), 1);
    assert_eq!(lc.attrs[0].value, LineAttributeValueV2::DebouncePeriod(2));
    assert_eq!(lc.attrs[0].mask, 0b1);

    // inactive outputs need no values attribute
    let mut cfg = Config::default();
    cfg.with_lines(&[1, 2]).as_output(Value::Inactive);
    let lc = cfg.to_v2().unwrap();
    assert!(v2::LineFlags::from_bits_retain(lc.flags).contains(v2::LineFlags::OUTPUT));
    assert_eq!(lc.num_attrs, 0);
    assert!(lc.attrs.is_empty());
}
