use gpiocdev::line::{LineValue, Value, Values};
use gpiocdev::uapi::{LineValuesV1, LineValuesV2};

#[test]
fn value_default() {
    let v = Value::default();
    assert_eq!(v, Value::Inactive);
}

#[test]
fn value_not() {
    assert_eq!(Value::Active.not(), Value::Inactive);
    assert_eq!(Value::Inactive.not(), Value::Active);

    let mut vv = Values::from_pairs(&[(1, Value::Active), (2, Value::Inactive), (3, Value::Active)]);
    assert_eq!(vv.get(1), Some(Value::Active));
    assert_eq!(vv.get(2), Some(Value::Inactive));
    assert_eq!(vv.get(3), Some(Value::Active));
    vv.not();
    assert_eq!(vv.get(1), Some(Value::Inactive));
    assert_eq!(vv.get(2), Some(Value::Active));
    assert_eq!(vv.get(3), Some(Value::Inactive));
    vv.not();
    assert_eq!(vv.get(1), Some(Value::Active));
    assert_eq!(vv.get(2), Some(Value::Inactive));
    assert_eq!(vv.get(3), Some(Value::Active));
}

#[test]
fn value_from_bool() {
    assert_eq!(Value::from(true), Value::Active);
    assert_eq!(Value::from(false), Value::Inactive);
}

#[test]
fn value_into_bool() {
    let b: bool = Value::Active.into();
    assert!(b);
    let b: bool = Value::Inactive.into();
    assert!(!b);
}

#[test]
fn value_from_u8() {
    assert_eq!(Value::from(1), Value::Active);
    assert_eq!(Value::from(2), Value::Active);
    assert_eq!(Value::from(0), Value::Inactive);
}

#[test]
fn value_into_u8() {
    let u: u8 = Value::Active.into();
    assert_eq!(u, 1);
    let u: u8 = Value::Inactive.into();
    assert_eq!(u, 0);
}

fn v1_values(vals: &[u8]) -> LineValuesV1 {
    let mut lv = LineValuesV1::new();
    for (i, v) in vals.iter().enumerate() {
        lv.set(i, *v);
    }
    lv
}

#[test]
fn value_from_v1() {
    // offset must be sorted
    let offsets = Vec::from([1, 3, 5, 8]);
    let src = v1_values(&[1, 0, 1, 1]);
    // full set
    let mut dst = Values::default();
    dst.update_from_v1(&offsets, &src);
    assert_eq!(dst.get(1), Some(Value::Active));
    assert_eq!(dst.get(2), None);
    assert_eq!(dst.get(3), Some(Value::Inactive));
    assert_eq!(dst.get(4), None);
    assert_eq!(dst.get(5), Some(Value::Active));
    assert_eq!(dst.get(6), None);
    assert_eq!(dst.get(7), None);
    assert_eq!(dst.get(8), Some(Value::Active));

    // explicit set
    let mut dst = Values::default();
    dst.set(1, Value::Inactive);
    dst.set(3, Value::Active);
    dst.set(4, Value::Active);
    dst.set(7, Value::Inactive);
    dst.update_from_v1(&offsets, &src);
    assert_eq!(dst.get(1), Some(Value::Active));
    assert_eq!(dst.get(2), None);
    assert_eq!(dst.get(3), Some(Value::Inactive));
    assert_eq!(dst.get(4), Some(Value::Active));
    assert_eq!(dst.get(5), None);
    assert_eq!(dst.get(6), None);
    assert_eq!(dst.get(7), Some(Value::Inactive));
    assert_eq!(dst.get(8), None);
}

#[test]
fn value_from_v2() {
    // offsets must be sorted
    let offsets = Vec::from([1, 3, 5, 8]);
    let mut src = LineValuesV2::new();
    src.set(0, true);
    src.set(1, false);
    src.set(2, true);
    src.set(3, true);
    let mut dst = Values::default();
    dst.set(3, Value::Active);
    dst.set(4, Value::Active);
    dst.set(5, Value::Inactive);
    dst.set(7, Value::Inactive);
    dst.update_from_v2(&offsets, &src);
    assert_eq!(dst.get(1), None);
    assert_eq!(dst.get(2), None);
    assert_eq!(dst.get(3), Some(Value::Inactive));
    assert_eq!(dst.get(4), Some(Value::Active));
    assert_eq!(dst.get(5), Some(Value::Active));
    assert_eq!(dst.get(6), None);
    assert_eq!(dst.get(7), Some(Value::Inactive));
    assert_eq!(dst.get(8), None);
}

#[test]
fn value_to_v1() {
    // offsets must be sorted.
    let offsets = Vec::from([1, 3, 5, 8]);
    // both empty
    let mut src = Values::default();
    let dst = src.to_v1(&[]);
    assert_eq!(dst.get(0), 0);
    assert_eq!(dst.get(1), 0);
    assert_eq!(dst.get(2), 0);
    assert_eq!(dst.get(3), 0);

    let dst = src.to_v1(&offsets);
    assert_eq!(dst.get(0), 0);
    assert_eq!(dst.get(1), 0);
    assert_eq!(dst.get(2), 0);
    assert_eq!(dst.get(3), 0);

    // values intersects offsets
    src.set(1, Value::Active);
    src.set(3, Value::Inactive);
    src.set(7, Value::Active); // should be ignored
    src.set(8, Value::Active);
    let dst = src.to_v1(&offsets);
    assert_eq!(dst.get(0), 1);
    assert_eq!(dst.get(1), 0);
    assert_eq!(dst.get(2), 0);
    assert_eq!(dst.get(3), 1);
}

#[test]
fn value_to_v2() {
    // offsets must be sorted.
    let offsets = Vec::from([1, 3, 5, 8]);
    // both empty
    let mut src = Values::default();
    let dst = src.to_v2(&[]);
    assert_eq!(dst.bits, 0);
    assert_eq!(dst.mask, 0);
    // empty values
    let dst = src.to_v2(&offsets);
    assert_eq!(dst.bits, 0);
    assert_eq!(dst.mask, 0b01111);

    // values intersects offsets
    src.set(1, Value::Active);
    src.set(3, Value::Inactive);
    src.set(7, Value::Active); // should be ignored
    src.set(8, Value::Active);
    let dst = src.to_v2(&offsets);
    assert!(dst.get(0).expect("idx should exist"));
    assert!(!dst.get(1).expect("idx should exist"));
    assert!(dst.get(2).is_none());
    assert!(dst.get(3).expect("idx should exist"));
    assert_eq!(dst.mask, 0b1011); // only 3 entries set
}

#[test]
fn value_from_offsets() {
    let values = Values::from_offsets(&[1, 6, 3, 9]);
    assert_eq!(values.get(0), None);
    assert_eq!(values.get(1), Some(Value::Inactive));
    assert_eq!(values.get(2), None);
    assert_eq!(values.get(3), Some(Value::Inactive));
    assert_eq!(values.get(4), None);
    assert_eq!(values.get(5), None);
    assert_eq!(values.get(6), Some(Value::Inactive));
    assert_eq!(values.get(7), None);
    assert_eq!(values.get(8), None);
    assert_eq!(values.get(9), Some(Value::Inactive));
}

#[test]
fn value_get() {
    let mut vv = Values::from_offsets(&[1, 2, 3]);
    assert_eq!(vv.get(1), Some(Value::Inactive));
    assert_eq!(vv.get(2), Some(Value::Inactive));
    assert_eq!(vv.get(3), Some(Value::Inactive));

    vv.set(2, Value::Active);
    assert_eq!(vv.get(1), Some(Value::Inactive));
    assert_eq!(vv.get(2), Some(Value::Active));
    assert_eq!(vv.get(3), Some(Value::Inactive));
}

#[test]
fn value_set() {
    let mut vv = Values::from_offsets(&[1, 2, 3]);
    assert_eq!(vv.get(1), Some(Value::Inactive));
    assert_eq!(vv.get(2), Some(Value::Inactive));
    assert_eq!(vv.get(3), Some(Value::Inactive));

    vv.set(2, Value::Active);
    assert_eq!(vv.get(1), Some(Value::Inactive));
    assert_eq!(vv.get(2), Some(Value::Active));
    assert_eq!(vv.get(3), Some(Value::Inactive));

    vv.set(2, Value::Inactive);
    assert_eq!(vv.get(1), Some(Value::Inactive));
    assert_eq!(vv.get(2), Some(Value::Inactive));
    assert_eq!(vv.get(3), Some(Value::Inactive));
}

#[test]
fn value_unset() {
    let mut vv = Values::from_offsets(&[1, 2, 3]);
    assert_eq!(vv.get(1), Some(Value::Inactive));
    assert_eq!(vv.get(2), Some(Value::Inactive));
    assert_eq!(vv.get(3), Some(Value::Inactive));
    vv.unset(2);
    assert_eq!(vv.get(1), Some(Value::Inactive));
    assert_eq!(vv.get(2), None);
    assert_eq!(vv.get(3), Some(Value::Inactive));
}

#[test]
fn value_toggle() {
    let mut vv = Values::from_offsets(&[1, 2, 3]);
    assert_eq!(vv.get(1), Some(Value::Inactive));
    assert_eq!(vv.get(2), Some(Value::Inactive));
    assert_eq!(vv.get(3), Some(Value::Inactive));
    vv.toggle(1);
    assert_eq!(vv.get(1), Some(Value::Active));
    assert_eq!(vv.get(2), Some(Value::Inactive));
    assert_eq!(vv.get(3), Some(Value::Inactive));
    vv.toggle(2);
    assert_eq!(vv.get(1), Some(Value::Active));
    assert_eq!(vv.get(2), Some(Value::Active));
    assert_eq!(vv.get(3), Some(Value::Inactive));
    vv.toggle(1);
    assert_eq!(vv.get(1), Some(Value::Inactive));
    assert_eq!(vv.get(2), Some(Value::Active));
    assert_eq!(vv.get(3), Some(Value::Inactive));
    vv.toggle(3);
    assert_eq!(vv.get(1), Some(Value::Inactive));
    assert_eq!(vv.get(2), Some(Value::Active));
    assert_eq!(vv.get(3), Some(Value::Active));
}

#[test]
fn from_offset_iterator() {
    let vv = Values::from_offsets(&[1, 2, 3]);
    assert_eq!(vv.get(1), Some(Value::Inactive));
    assert_eq!(vv.get(2), Some(Value::Inactive));
    assert_eq!(vv.get(3), Some(Value::Inactive));
}

#[test]
fn from_line_value_iterator() {
    let vv = Values::from_pairs(&[(1, Value::Active), (2, Value::Inactive), (3, Value::Active)]);
    assert_eq!(vv.get(1), Some(Value::Active));
    assert_eq!(vv.get(2), Some(Value::Inactive));
    assert_eq!(vv.get(3), Some(Value::Active));
}

#[test]
fn value_len() {
    assert_eq!(Values::default().len(), 0);
    assert_eq!(Values::from_offsets(&[1, 2, 3]).len(), 3);
}

#[test]
fn value_is_empty() {
    assert!(Values::default().is_empty());
    assert!(!Values::from_offsets(&[1, 2, 3]).is_empty());
}

#[test]
fn value_iter() {
    let mut vv = Values::from_offsets(&[1, 2, 3]);
    vv.set(2, Value::Active);
    let mut i = vv.iter();
    assert_eq!(
        i.next(),
        Some(&LineValue {
            offset: 1,
            value: Value::Inactive
        })
    );
    assert_eq!(
        i.next(),
        Some(&LineValue {
            offset: 2,
            value: Value::Active
        })
    );
    assert_eq!(
        i.next(),
        Some(&LineValue {
            offset: 3,
            value: Value::Inactive
        })
    );
    assert_eq!(i.next(), None);
}

#[test]
fn contains_keys() {
    let vv = Values::from_offsets(&[1, 2, 3]);
    assert!(!vv.contains_keys(&[0]));
    assert!(vv.contains_keys(&[1]));
    assert!(vv.contains_keys(&[2]));
    assert!(vv.contains_keys(&[3]));
    assert!(!vv.contains_keys(&[4]));
    assert!(vv.contains_keys(&[1, 2, 3]));
    assert!(vv.contains_keys(&[1, 3]));
    assert!(vv.contains_keys(&[2, 3]));
}

#[test]
fn contains_key() {
    let vv = Values::from_offsets(&[1, 2, 3]);
    assert!(!vv.contains_keys(&[0]));
    assert!(vv.contains_keys(&[1]));
    assert!(vv.contains_keys(&[2]));
    assert!(vv.contains_keys(&[3]));
    assert!(!vv.contains_keys(&[4]));
}

#[test]
fn values_entries_stay_sorted_and_unique() {
    let mut vv = Values::from_offsets(&[9, 3, 3, 7, 1]);
    vv.set(5, Value::Active);
    vv.set(3, Value::Active);
    let offsets: Vec<u32> = vv.iter().map(|lv| lv.offset).collect();
    assert_eq!(offsets, vec![1, 3, 5, 7, 9]);
    assert_eq!(vv.get(3), Some(Value::Active));
    // a later pair for the same offset wins
    let vv = Values::from_pairs(&[(4, Value::Active), (4, Value::Inactive)]);
    assert_eq!(vv.len(), 1);
    assert_eq!(vv.get(4), Some(Value::Inactive));
}

#[test]
fn value_not_is_an_involution() {
    for v in [Value::Active, Value::Inactive] {
        assert_eq!(v.not().not(), v);
        assert_ne!(v.not(), v);
        let b: bool = v.into();
        assert_eq!(Value::from(b), v);
        let u: u8 = v.into();
        assert_eq!(Value::from(u), v);
    }
}

#[test]
fn values_read_back_what_was_written() {
    let offsets = [2, 4, 6, 8];
    let written = Values::from_pairs(&[(2, Value::Active), (6, Value::Inactive), (8, Value::Active)]);
    // v2: encode, then read into a collection holding other values
    let lv = written.to_v2(&offsets);
    let mut read = Values::from_pairs(&[(2, Value::Inactive), (4, Value::Active), (6, Value::Active), (8, Value::Inactive), (9, Value::Active)]);
    read.update_from_v2(&offsets, &lv);
    assert_eq!(read.get(2), Some(Value::Active));
    assert_eq!(read.get(6), Some(Value::Inactive));
    assert_eq!(read.get(8), Some(Value::Active));
    // lines not written keep their values
    assert_eq!(read.get(4), Some(Value::Active));
    assert_eq!(read.get(9), Some(Value::Active));
    // v1: every requested line is written
    let full = Values::from_pairs(&[(2, Value::Active), (4, Value::Inactive), (6, Value::Inactive), (8, Value::Active)]);
    let lv1 = full.to_v1(&offsets);
    let mut read = Values::default();
    read.update_from_v1(&offsets, &lv1);
    assert_eq!(read, full);
}

#[test]
fn toggle_twice_restores() {
    let mut vv = Values::from_pairs(&[(1, Value::Active), (2, Value::Inactive)]);
    let before = vv.clone();
    vv.toggle(1);
    vv.toggle(1);
    assert_eq!(vv, before);
    vv.not();
    vv.not();
    assert_eq!(vv, before);
}

#[test]
fn iter_mut() {
    let mut vv = Values::from_offsets(&[1, 2, 3]);
    vv.set(2, Value::Active);
    // visit the entries in order, updating each value
    let n = vv.len();
    for i in 0..n {
        let current = vv.as_slice()[i];
        vv.set_value_at(i, current.value.not());
    }
    assert_eq!(
        vv.iter().map(|lv| lv.value).collect::<Vec<Value>>(),
        [Value::Active, Value::Inactive, Value::Active]
    );
    assert_eq!(vv.iter().map(|lv| lv.offset).collect::<Vec<u32>>(), [1, 2, 3]);
}
