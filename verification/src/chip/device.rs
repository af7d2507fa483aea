//! The decisions taken on a chip's device: whether a path is a GPIO
//! character device, which uAPI ABI the chip supports, and the decoding of
//! the info change events read from it.
use crate::line::event::{info_change_kind_of, InfoChangeEvent};
use crate::line::info::{reports_v1, reports_v2};
use crate::text::{decimal, decimal_spec};
use crate::uapi::{
    info_change_event_v1_from_slice, info_change_event_v2_from_slice, under_read,
    v1_info_change_in, v2_info_change_in, LineInfoChangeEventV1, LineInfoChangeEventV2,
    NUM_ATTRS_MAX, V1_INFO_CHANGE_EVENT_SIZE, V2_INFO_CHANGE_EVENT_SIZE,
};
use crate::{AbiSupportKind, AbiVersion, Error, UapiCall};
use super::ErrorKind;
use vstd::prelude::*;
use vstd::string::{StrSliceExecFns, StringExecFns};

verus! {

/// The bit of a file's mode that marks a character device.
pub const CHARDEV_MODE: u32 = 0x2000;

/// The path is of the form `/dev/gpiochipN`, with `N` made of decimal digits
/// only.
pub open spec fn gpiochip_dev_path(path: Seq<char>) -> bool {
    let prefix = "/dev/gpiochip"@;
    &&& prefix.len() <= path.len()
    &&& path.subrange(0, prefix.len() as int) == prefix
    &&& forall|i: int| prefix.len() <= i < path.len() ==> '0' <= #[trigger] path[i] <= '9'
}

/// Return true if the path is of the form `/dev/gpiochipN`, which is taken
/// to be a GPIO character device without further checks.
pub fn is_chip_dev_path(path: &str) -> (r: bool)
    ensures
        r == gpiochip_dev_path(path@),
{
    let prefix = "/dev/gpiochip";
    proof {
        reveal_strlit("/dev/gpiochip");
    }
    let n = path.unicode_len();
    let plen = prefix.unicode_len();
    if n < plen {
        return false;
    }
    let mut i: usize = 0;
    while i < plen
        invariant
            i <= plen <= n,
            n == path@.len(),
            plen == prefix@.len(),
            prefix@ == "/dev/gpiochip"@,
            forall|j: int| 0 <= j < i ==> path@[j] == prefix@[j],
        decreases plen - i,
    {
        if path.get_char(i) != prefix.get_char(i) {
            assert(path@.subrange(0, plen as int)[i as int] != prefix@[i as int]);
            return false;
        }
        i += 1;
    }
    assert(path@.subrange(0, plen as int) =~= prefix@);
    let mut j: usize = plen;
    while j < n
        invariant
            plen <= j <= n,
            n == path@.len(),
            plen == "/dev/gpiochip"@.len(),
            forall|k: int| plen <= k < j ==> '0' <= #[trigger] path@[k] <= '9',
        decreases n - j,
    {
        let c = path.get_char(j);
        if !('0' <= c && c <= '9') {
            assert(!('0' <= path@[j as int] <= '9'));
            return false;
        }
        j += 1;
    }
    true
}

/// The device numbers of a device, as the kernel writes them in sysfs: the
/// major number, a colon and the minor number, each in decimal.
pub open spec fn device_numbers(st_rdev: u64) -> Seq<char> {
    decimal_spec(((st_rdev % 65536) / 256) as nat) + seq![':'] + decimal_spec((st_rdev % 256) as nat)
}

/// The device numbers of a device, as the kernel writes them in sysfs.
pub fn device_numbers_text(st_rdev: u64) -> (s: String)
    ensures
        s@ == device_numbers(st_rdev),
{
    let mut s = decimal((st_rdev % 65536) / 256);
    proof {
        reveal_strlit(":");
    }
    s.append(":");
    s.append(decimal(st_rdev % 256).as_str());
    s
}

/// What `str::trim_end` returns for a string.
pub uninterp spec fn trimmed_end(s: Seq<char>) -> Seq<char>;

/// The string with trailing whitespace removed, by `str::trim_end`.
///
/// Which characters are whitespace is Unicode's to say, so the result is
/// named rather than stated.
#[verifier::external_body]
fn trim_end(s: &str) -> (r: &str)
    ensures
        r@ == trimmed_end(s@),
{
    s.trim_end()
}

/// Return true if the strings have the same characters.
pub fn str_eq(a: &str, b: &str) -> (r: bool)
    ensures
        r == (a@ == b@),
{
    let x = String::from_str(a);
    let y = String::from_str(b);
    x == y
}

/// The outcome of checking a device that is not named as a GPIO chip: it
/// must be a character device, and the device numbers in its sysfs entry,
/// if that could be read, must be its own.
pub open spec fn device_check(
    path: Seq<char>,
    st_mode: u32,
    st_rdev: u64,
    sysfs_dev: Option<&str>,
) -> Result<(), (Seq<char>, ErrorKind)> {
    if st_mode & CHARDEV_MODE == 0 {
        Err((path, ErrorKind::NotCharacterDevice))
    } else if sysfs_dev matches Some(d) && trimmed_end(d@) == device_numbers(st_rdev) {
        Ok(())
    } else {
        Err((path, ErrorKind::NotGpioDevice))
    }
}

/// Check that the device at the path, with the mode and device numbers from
/// its metadata, and the contents of its `dev` entry in sysfs, if that could
/// be read, is a GPIO character device.
pub fn check_chip_device(path: &str, st_mode: u32, st_rdev: u64, sysfs_dev: Option<&str>) -> (r:
    Result<(), Error>)
    ensures
        r is Ok <==> device_check(path@, st_mode, st_rdev, sysfs_dev) is Ok,
        device_check(path@, st_mode, st_rdev, sysfs_dev) matches Err((p, k))
            ==> (r matches Err(Error::GpioChip(q, j)) && q@ == p && j == k),
{
    if st_mode & CHARDEV_MODE == 0 {
        return Err(Error::GpioChip(String::from_str(path), ErrorKind::NotCharacterDevice));
    }
    match sysfs_dev {
        Some(d) => {
            let expected = device_numbers_text(st_rdev);
            if str_eq(trim_end(d), expected.as_str()) {
                return Ok(());
            }
        },
        None => {},
    }
    Err(Error::GpioChip(String::from_str(path), ErrorKind::NotGpioDevice))
}

/// The ABI version detected on a chip from whether the chip supports each
/// version, preferring the most recent.
pub open spec fn abi_detected(v2_supported: bool, v1_supported: bool) -> Result<AbiVersion, Error> {
    if v2_supported {
        Ok(AbiVersion::V2)
    } else if v1_supported {
        Ok(AbiVersion::V1)
    } else {
        Err(Error::NoAbiSupport())
    }
}

/// Detect the most recent uAPI ABI supported by the library for a chip, from
/// whether the chip supports each version.
pub fn detect_chip_abi(v2_supported: bool, v1_supported: bool) -> (r: Result<AbiVersion, Error>)
    ensures
        r == abi_detected(v2_supported, v1_supported),
{
    if v2_supported {
        Ok(AbiVersion::V2)
    } else if v1_supported {
        Ok(AbiVersion::V1)
    } else {
        Err(Error::NoAbiSupport())
    }
}

/// The outcome of checking that a chip supports an ABI version.
pub open spec fn abi_support(abiv: AbiVersion, supported: bool) -> Result<(), Error> {
    if supported {
        Ok(())
    } else {
        Err(Error::UnsupportedAbi(abiv, AbiSupportKind::Kernel))
    }
}

/// Check that a chip supports an ABI version, from whether the kernel
/// answered a query in that version.
pub fn check_chip_abi(abiv: AbiVersion, supported: bool) -> (r: Result<(), Error>)
    ensures
        r == abi_support(abiv, supported),
{
    if supported {
        Ok(())
    } else {
        Err(Error::UnsupportedAbi(abiv, AbiSupportKind::Kernel))
    }
}

/// The size in bytes of an info change event in the ABI version.
pub open spec fn info_change_event_size_spec(abiv: AbiVersion) -> usize {
    match abiv {
        AbiVersion::V1 => V1_INFO_CHANGE_EVENT_SIZE,
        AbiVersion::V2 => V2_INFO_CHANGE_EVENT_SIZE,
    }
}

/// The size in bytes of an info change event read from a chip using the ABI
/// version, or of the larger, v2, event where the version is not yet known.
pub fn info_change_event_size(abiv: Option<AbiVersion>) -> (n: usize)
    ensures
        n == info_change_event_size_spec(
            match abiv {
                Some(v) => v,
                None => AbiVersion::V2,
            },
        ),
{
    match abiv {
        Some(AbiVersion::V1) => V1_INFO_CHANGE_EVENT_SIZE,
        _ => V2_INFO_CHANGE_EVENT_SIZE,
    }
}

/// The size in words of an info change event read from a chip using the
/// ABI version, or of the larger, v2, event where the version is not yet
/// known.
pub fn info_change_event_u64_size(abiv: Option<AbiVersion>) -> (n: usize)
    ensures
        n * 8 == info_change_event_size_spec(
            match abiv {
                Some(v) => v,
                None => AbiVersion::V2,
            },
        ),
{
    info_change_event_size(abiv) / 8
}

/// The word of an info change event read using the ABI version that holds
/// its timestamp.
pub open spec fn info_change_timestamp_word(abiv: AbiVersion) -> int {
    match abiv {
        AbiVersion::V1 => 9,
        AbiVersion::V2 => 32,
    }
}

/// Decode an info change event from the words read from a chip using the
/// ABI version.
///
/// The event is the record the words hold: its kind, timestamp and line
/// info.  An event of unknown kind, or a v2 line info with more attributes
/// than a line info holds, is an error.
pub fn info_change_event_from_slice(abiv: AbiVersion, buf: &[u64]) -> (r: Result<
    InfoChangeEvent,
    Error,
>)
    requires
        buf@.len() * 8 <= usize::MAX,
    ensures
        buf@.len() * 8 < info_change_event_size_spec(abiv) ==> (r matches Err(Error::Uapi(c, e))
            && c == UapiCall::LICEFromBuf && under_read(
            e,
            "LineInfoChangeEvent"@,
            info_change_event_size_spec(abiv),
            buf@.len() * 8,
        )),
        buf@.len() * 8 >= info_change_event_size_spec(abiv) ==> (r is Ok || r matches Err(
            Error::UnexpectedResponse(_, _),
        )),
        r matches Ok(ev) ==> ev.timestamp_ns == buf@[info_change_timestamp_word(abiv)],
        abiv == AbiVersion::V2 ==> (r matches Ok(ev) ==> exists|
            ice: LineInfoChangeEventV2,
            little_endian: bool,
        |
            v2_info_change_in(ice, buf@, little_endian) && ev.timestamp_ns == ice.timestamp_ns
                && Some(ev.kind) == info_change_kind_of(ice.kind) && reports_v2(ev.info, ice.info)),
        abiv == AbiVersion::V2 ==> (r matches Err(Error::UnexpectedResponse(_, _)) ==> exists|
            ice: LineInfoChangeEventV2,
            little_endian: bool,
        |
            v2_info_change_in(ice, buf@, little_endian) && (info_change_kind_of(ice.kind) is None
                || ice.info.num_attrs > NUM_ATTRS_MAX)),
        abiv == AbiVersion::V1 ==> (r matches Ok(ev) ==> exists|
            ice: LineInfoChangeEventV1,
            little_endian: bool,
        |
            v1_info_change_in(ice, buf@, little_endian) && ev.timestamp_ns == ice.timestamp_ns
                && Some(ev.kind) == info_change_kind_of(ice.kind) && reports_v1(ev.info, ice.info)),
        abiv == AbiVersion::V1 ==> (r matches Err(Error::UnexpectedResponse(_, _)) ==> exists|
            ice: LineInfoChangeEventV1,
            little_endian: bool,
        | v1_info_change_in(ice, buf@, little_endian) && info_change_kind_of(ice.kind) is None),
{
    match abiv {
        AbiVersion::V1 => {
            let ice = match info_change_event_v1_from_slice(buf) {
                Ok(ice) => ice,
                Err(e) => {
                    return Err(Error::Uapi(UapiCall::LICEFromBuf, e));
                },
            };
            let ghost little_endian = choose|l: bool| v1_info_change_in(ice, buf@, l);
            let r = InfoChangeEvent::try_from_v1(&ice);
            proof {
                assert(v1_info_change_in(ice, buf@, little_endian));
            }
            r
        },
        AbiVersion::V2 => {
            let ice = match info_change_event_v2_from_slice(buf) {
                Ok(ice) => ice,
                Err(e) => {
                    return Err(Error::Uapi(UapiCall::LICEFromBuf, e));
                },
            };
            let ghost little_endian = choose|l: bool| v2_info_change_in(ice, buf@, l);
            let r = InfoChangeEvent::try_from_v2(&ice);
            proof {
                assert(v2_info_change_in(ice, buf@, little_endian));
            }
            r
        },
    }
}

} // verus!
