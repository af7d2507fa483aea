//! Types and functions specific to chips.
use std::cmp::Ordering;
use vstd::prelude::*;
use vstd::utf8::encode_utf8;

mod device;
mod order;
pub use self::device::{
    abi_detected, abi_support, check_chip_abi, check_chip_device, detect_chip_abi,
    device_check, device_numbers, device_numbers_text, gpiochip_dev_path,
    info_change_event_from_slice, info_change_event_size, info_change_event_size_spec,
    info_change_event_u64_size, info_change_timestamp_word, is_chip_dev_path, str_eq, trimmed_end, CHARDEV_MODE,
};
pub use self::order::{
    decimal, digit_char, lemma_path_order_antisymmetric, lemma_trailing_numbers_order,
    natural_order, number_order, order_chip_paths, path_bytes, path_order, paths_ordered,
    PathOrder,
};

verus! {

/// Reasons a path is not a GPIO chip.
#[derive(Clone, Copy, Debug, PartialEq, Eq, Structural)]
pub enum ErrorKind {
    /// The path does not refer to a character device.
    NotCharacterDevice,
    /// The path refers to a character device that is not a GPIO device.
    NotGpioDevice,
}

/// The displayed description of a reason a path is not a GPIO chip.
pub open spec fn error_kind_name(k: ErrorKind) -> Seq<char> {
    match k {
        ErrorKind::NotCharacterDevice => "is not a character device"@,
        ErrorKind::NotGpioDevice => "is not a GPIO character device"@,
    }
}

impl ErrorKind {
    /// The description of the problem, as displayed.
    pub fn name(&self) -> (s: &'static str)
        ensures
            s@ == error_kind_name(*self),
    {
        match self {
            ErrorKind::NotCharacterDevice => "is not a character device",
            ErrorKind::NotGpioDevice => "is not a GPIO character device",
        }
    }
}

/// The publicly available information for a GPIO chip.
#[derive(Clone, Debug, PartialEq, Eq)]
pub struct Info {
    /// The system name for the chip, such as "*gpiochip0*".
    pub name: String,
    /// A functional name for the chip.
    ///
    /// This typically identifies the type of GPIO chip.
    pub label: String,
    /// The number of lines provided by the chip.
    pub num_lines: u32,
}

impl Default for Info {
    fn default() -> (i: Self)
        ensures
            i.name@ == Seq::<char>::empty(),
            i.label@ == Seq::<char>::empty(),
            i.num_lines == 0,
    {
        Info { name: String::new(), label: String::new(), num_lines: 0 }
    }
}

/// The standard ordering for a path order.
pub open spec fn ordering_of(o: PathOrder) -> Ordering {
    match o {
        PathOrder::Less => Ordering::Less,
        PathOrder::Equal => Ordering::Equal,
        PathOrder::Greater => Ordering::Greater,
    }
}

/// Compare two paths so that they sort naturally, assuming any chip
/// numbering is at the end of the path, as it is for gpiochips.
///
/// Paths of equal length compare lexicographically.  Otherwise the first
/// differing byte decides, unless both bytes are digits, in which case the
/// shorter path, with the shorter number, is smaller.
pub fn path_compare(a: &str, b: &str) -> (r: Ordering)
    ensures
        r == ordering_of(path_order(encode_utf8(a@), encode_utf8(b@))),
{
    match natural_order(a.as_bytes(), b.as_bytes()) {
        PathOrder::Less => Ordering::Less,
        PathOrder::Equal => Ordering::Equal,
        PathOrder::Greater => Ordering::Greater,
    }
}

} // verus!
