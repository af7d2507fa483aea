//! A library for accessing GPIO lines on Linux platforms using the GPIO
//! character device.
//!
//! This crate holds the verified core: line values, line and request
//! configuration, the encodings exchanged with the kernel uAPI, and the
//! decisions taken when discovering chips and lines.
use vstd::prelude::*;
use vstd::string::StringExecFns;

pub use search::{find_named_line, find_named_lines, lines, ChipLines, LineIterator};

pub mod chip;
pub mod line;
pub mod request;
pub mod search;
pub mod text;
pub mod uapi;

verus! {

/// The uAPI ABI versions available to interact with the kernel.
///
/// Two versions of the Linux GPIO uAPI ABI currently exist, with v1 being
/// released in Linux 4.8 and v2 being released in Linux 5.10.
///
/// * `V2` is the current ABI and is used by default.
/// * `V1` is more restrictive than V2, so some information and features are
///   unavailable.
#[derive(Clone, Copy, Debug, PartialEq, Eq, Structural)]
pub enum AbiVersion {
    /// GPIO uAPI v1
    V1,
    /// GPIO uAPI v2
    V2,
}

impl Default for AbiVersion {
    fn default() -> (v: Self)
        ensures
            v == AbiVersion::V2,
    {
        AbiVersion::V2
    }
}

/// The displayed name of an ABI version.
pub open spec fn abi_version_name(v: AbiVersion) -> Seq<char> {
    match v {
        AbiVersion::V1 => "uAPI ABI v1"@,
        AbiVersion::V2 => "uAPI ABI v2"@,
    }
}

impl AbiVersion {
    /// The name of the ABI version, as displayed.
    pub fn name(&self) -> (s: &'static str)
        ensures
            s@ == abi_version_name(*self),
    {
        match self {
            AbiVersion::V1 => "uAPI ABI v1",
            AbiVersion::V2 => "uAPI ABI v2",
        }
    }
}

/// Components that may not support a particular ABI version.
#[derive(Clone, Copy, Debug, PartialEq, Eq, Structural)]
pub enum AbiSupportKind {
    /// The library does not have the feature enabled for the requested ABI version.
    Build,
    /// The kernel running on the platform does not support the requested ABI version.
    Kernel,
}

impl Default for AbiSupportKind {
    fn default() -> (k: Self)
        ensures
            k == AbiSupportKind::Kernel,
    {
        AbiSupportKind::Kernel
    }
}

/// The displayed name of a component that may not support an ABI version.
pub open spec fn abi_support_kind_name(k: AbiSupportKind) -> Seq<char> {
    match k {
        AbiSupportKind::Build => "build"@,
        AbiSupportKind::Kernel => "kernel"@,
    }
}

impl AbiSupportKind {
    /// The name of the component, as displayed.
    pub fn name(&self) -> (s: &'static str)
        ensures
            s@ == abi_support_kind_name(*self),
    {
        match self {
            AbiSupportKind::Build => "build",
            AbiSupportKind::Kernel => "kernel",
        }
    }
}

/// Identifiers for the underlying uAPI calls.
#[derive(Clone, Copy, Debug, PartialEq, Eq, Structural)]
pub enum UapiCall {
    GetChipInfo,
    GetLine,
    GetLineEvent,
    GetLineHandle,
    GetLineInfo,
    GetLineValues,
    HasEvent,
    LEEFromBuf,
    LICEFromBuf,
    ReadEvent,
    SetLineConfig,
    SetLineValues,
    UnwatchLineInfo,
    WaitEvent,
    WatchLineInfo,
}

/// The displayed name of a uAPI call.
pub open spec fn uapi_call_name(c: UapiCall) -> Seq<char> {
    match c {
        UapiCall::GetChipInfo => "get_chip_info"@,
        UapiCall::GetLine => "get_line"@,
        UapiCall::GetLineEvent => "get_line_event"@,
        UapiCall::GetLineHandle => "get_line_handle"@,
        UapiCall::GetLineInfo => "get_line_info"@,
        UapiCall::GetLineValues => "get_line_values"@,
        UapiCall::HasEvent => "has_event"@,
        UapiCall::LEEFromBuf => "LineEdgeEvent::from_buf"@,
        UapiCall::LICEFromBuf => "LineInfoChangeEvent::from_buf"@,
        UapiCall::ReadEvent => "read_event"@,
        UapiCall::SetLineConfig => "set_line_config"@,
        UapiCall::SetLineValues => "set_line_values"@,
        UapiCall::UnwatchLineInfo => "unwatch_line_info"@,
        UapiCall::WaitEvent => "wait_event"@,
        UapiCall::WatchLineInfo => "watch_line_info"@,
    }
}

impl UapiCall {
    /// The name of the call, as displayed.
    pub fn name(&self) -> (s: &'static str)
        ensures
            s@ == uapi_call_name(*self),
    {
        match self {
            UapiCall::GetChipInfo => "get_chip_info",
            UapiCall::GetLine => "get_line",
            UapiCall::GetLineEvent => "get_line_event",
            UapiCall::GetLineHandle => "get_line_handle",
            UapiCall::GetLineInfo => "get_line_info",
            UapiCall::GetLineValues => "get_line_values",
            UapiCall::HasEvent => "has_event",
            UapiCall::LEEFromBuf => "LineEdgeEvent::from_buf",
            UapiCall::LICEFromBuf => "LineInfoChangeEvent::from_buf",
            UapiCall::ReadEvent => "read_event",
            UapiCall::SetLineConfig => "set_line_config",
            UapiCall::SetLineValues => "set_line_values",
            UapiCall::UnwatchLineInfo => "unwatch_line_info",
            UapiCall::WaitEvent => "wait_event",
            UapiCall::WatchLineInfo => "watch_line_info",
        }
    }
}

/// Fields of uAPI responses that may contain unexpected content.
#[derive(Clone, Copy, Debug, PartialEq, Eq, Structural)]
pub enum UapiField {
    /// The kind of an event.
    Kind,
    /// The number of attributes of a line info.
    NumAttrs,
}

/// The displayed name of a uAPI response field.
pub open spec fn uapi_field_name(f: UapiField) -> Seq<char> {
    match f {
        UapiField::Kind => "kind"@,
        UapiField::NumAttrs => "num_attrs"@,
    }
}

impl UapiField {
    /// The name of the field, as displayed.
    pub fn name(&self) -> (s: &'static str)
        ensures
            s@ == uapi_field_name(*self),
    {
        match self {
            UapiField::Kind => "kind",
            UapiField::NumAttrs => "num_attrs",
        }
    }
}

/// Errors returned by the uAPI layer.
#[derive(Debug, PartialEq, Eq)]
pub enum UapiError {
    /// An error returned from an underlying system call, identified by its errno.
    Os(i32),
    /// Insufficient data was read for the expected object.
    UnderRead {
        /// The object that was under read.
        obj: String,
        /// The number of bytes expected.
        expected: usize,
        /// The number of bytes read.
        found: usize,
    },
}

/// Errors returned by the library.
#[derive(Debug, PartialEq, Eq)]
pub enum Error {
    /// An operation cannot be performed due to a limitation in the ABI version being used.
    AbiLimitation(AbiVersion, String),
    /// Problem accessing the GPIO chip character device at the path.
    GpioChip(String, chip::ErrorKind),
    /// An error returned when there is a problem with an argument.
    InvalidArgument(String),
    /// No gpiochips are available to the user.
    NoGpioChips(),
    /// Returned when the strict mode of the named line search finds multiple
    /// lines with the same name.
    NonuniqueLineName(String),
    /// An error returned from an underlying os call, identified by its errno.
    Os(i32),
    /// An error returned from an underlying uAPI call.
    Uapi(UapiCall, UapiError),
    /// The response to a uAPI command contained unexpected content.
    UnexpectedResponse(UapiField, String),
    /// The kernel or build does not support the requested uAPI ABI version.
    UnsupportedAbi(AbiVersion, AbiSupportKind),
    /// The kernel has no support for any uAPI ABI version.
    NoAbiSupport(),
}

/// The uAPI errors are the same: the same variant with the same content.
pub open spec fn same_uapi_error(a: UapiError, b: UapiError) -> bool {
    match (a, b) {
        (UapiError::Os(x), UapiError::Os(y)) => x == y,
        (
            UapiError::UnderRead { obj: o1, expected: e1, found: f1 },
            UapiError::UnderRead { obj: o2, expected: e2, found: f2 },
        ) => o1@ == o2@ && e1 == e2 && f1 == f2,
        _ => false,
    }
}

/// The errors are the same: the same variant with the same content.
pub open spec fn same_error(a: Error, b: Error) -> bool {
    match (a, b) {
        (Error::AbiLimitation(v1, m1), Error::AbiLimitation(v2, m2)) => v1 == v2 && m1@ == m2@,
        (Error::GpioChip(p1, k1), Error::GpioChip(p2, k2)) => p1@ == p2@ && k1 == k2,
        (Error::InvalidArgument(m1), Error::InvalidArgument(m2)) => m1@ == m2@,
        (Error::NoGpioChips(), Error::NoGpioChips()) => true,
        (Error::NonuniqueLineName(n1), Error::NonuniqueLineName(n2)) => n1@ == n2@,
        (Error::Os(x), Error::Os(y)) => x == y,
        (Error::Uapi(c1, e1), Error::Uapi(c2, e2)) => c1 == c2 && same_uapi_error(e1, e2),
        (Error::UnexpectedResponse(f1, s1), Error::UnexpectedResponse(f2, s2)) => f1 == f2 && s1@
            == s2@,
        (Error::UnsupportedAbi(v1, k1), Error::UnsupportedAbi(v2, k2)) => v1 == v2 && k1 == k2,
        (Error::NoAbiSupport(), Error::NoAbiSupport()) => true,
        _ => false,
    }
}

impl Clone for UapiError {
    fn clone(&self) -> (r: Self)
        ensures
            same_uapi_error(r, *self),
    {
        match self {
            UapiError::Os(x) => UapiError::Os(*x),
            UapiError::UnderRead { obj, expected, found } => UapiError::UnderRead {
                obj: obj.clone(),
                expected: *expected,
                found: *found,
            },
        }
    }
}

impl Clone for Error {
    fn clone(&self) -> (r: Self)
        ensures
            same_error(r, *self),
    {
        match self {
            Error::AbiLimitation(v, m) => Error::AbiLimitation(*v, m.clone()),
            Error::GpioChip(p, k) => Error::GpioChip(p.clone(), *k),
            Error::InvalidArgument(m) => Error::InvalidArgument(m.clone()),
            Error::NoGpioChips() => Error::NoGpioChips(),
            Error::NonuniqueLineName(n) => Error::NonuniqueLineName(n.clone()),
            Error::Os(x) => Error::Os(*x),
            Error::Uapi(c, e) => Error::Uapi(*c, e.clone()),
            Error::UnexpectedResponse(f, s) => Error::UnexpectedResponse(*f, s.clone()),
            Error::UnsupportedAbi(v, k) => Error::UnsupportedAbi(*v, *k),
            Error::NoAbiSupport() => Error::NoAbiSupport(),
        }
    }
}

/// The text the operating system gives for an error number, by the
/// `Display` of `gpiocdev_uapi::Errno`, which is that of
/// `std::io::Error::from_raw_os_error`.
///
/// The text comes from the platform's C library, so nothing is stated of it.
#[verifier::external_body]
fn os_error_text(errno: i32) -> String {
    gpiocdev_uapi::Errno(errno).to_string()
}

/// The message of a uAPI error that is not an OS error.
pub open spec fn under_read_message(obj: Seq<char>, expected: usize, found: usize) -> Seq<char> {
    "Reading "@ + obj + " returned "@ + text::decimal_spec(found as nat) + " bytes, expected "@
        + text::decimal_spec(expected as nat) + "."@
}

impl UapiError {
    /// The error, as displayed.
    ///
    /// An OS error is described by the operating system's text for it.
    pub fn message(&self) -> (s: String)
        ensures
            self matches UapiError::UnderRead { obj, expected, found } ==> s@ == under_read_message(
                obj@,
                *expected,
                *found,
            ),
    {
        match self {
            UapiError::Os(n) => os_error_text(*n),
            UapiError::UnderRead { obj, expected, found } => {
                let mut s = String::from_str("Reading ");
                s.append(obj.as_str());
                s.append(" returned ");
                s.append(text::decimal(*found as u64).as_str());
                s.append(" bytes, expected ");
                s.append(text::decimal(*expected as u64).as_str());
                s.append(".");
                s
            },
        }
    }
}

/// The message of an error, for the errors that are not described by the
/// operating system.
pub open spec fn error_message(e: Error) -> Seq<char> {
    match e {
        Error::AbiLimitation(v, m) => abi_version_name(v) + " "@ + m@ + "."@,
        Error::GpioChip(p, k) => "\""@ + p@ + "\" "@ + chip::error_kind_name(k) + "."@,
        Error::InvalidArgument(m) => m@,
        Error::NoGpioChips() => "No GPIO chips are available"@,
        Error::NonuniqueLineName(n) => "Line name '"@ + n@ + "' is not unique"@,
        Error::Uapi(c, UapiError::UnderRead { obj, expected, found }) => "uAPI "@ + uapi_call_name(c)
            + " returned: "@ + under_read_message(obj@, expected, found),
        Error::UnexpectedResponse(f, v) => "Unexpected "@ + uapi_field_name(f)
            + " in uAPI response: "@ + v@,
        Error::UnsupportedAbi(v, k) => abi_version_name(v) + " is not supported by the "@
            + abi_support_kind_name(k) + "."@,
        Error::NoAbiSupport() => "uAPI ABI is not supported by the kernel."@,
        _ => Seq::empty(),
    }
}

/// The error is described by the operating system's text for an error
/// number.
pub open spec fn is_os_described(e: Error) -> bool {
    e is Os || e matches Error::Uapi(_, UapiError::Os(_))
}

impl Error {
    /// The error, as displayed.
    ///
    /// An OS error is described by the operating system's text for it, after
    /// the name of the call for an error of a uAPI call.
    pub fn message(&self) -> (s: String)
        ensures
            !is_os_described(*self) ==> s@ == error_message(*self),
            self matches Error::Uapi(c, UapiError::Os(_)) ==> exists|t: Seq<char>|
                s@ == "uAPI "@ + uapi_call_name(*c) + " returned: "@ + t,
    {
        match self {
            Error::AbiLimitation(v, m) => {
                let mut s = String::from_str(v.name());
                s.append(" ");
                s.append(m.as_str());
                s.append(".");
                s
            },
            Error::GpioChip(p, k) => {
                let mut s = String::from_str("\"");
                s.append(p.as_str());
                s.append("\" ");
                s.append(k.name());
                s.append(".");
                s
            },
            Error::InvalidArgument(m) => m.clone(),
            Error::NoGpioChips() => String::from_str("No GPIO chips are available"),
            Error::NonuniqueLineName(n) => {
                let mut s = String::from_str("Line name '");
                s.append(n.as_str());
                s.append("' is not unique");
                s
            },
            Error::Os(n) => os_error_text(*n),
            Error::Uapi(c, e) => {
                let mut s = String::from_str("uAPI ");
                s.append(c.name());
                s.append(" returned: ");
                let ghost pre = s@;
                let m = e.message();
                s.append(m.as_str());
                assert(s@ == pre + m@);
                s
            },
            Error::UnexpectedResponse(f, v) => {
                let mut s = String::from_str("Unexpected ");
                s.append(f.name());
                s.append(" in uAPI response: ");
                s.append(v.as_str());
                s
            },
            Error::UnsupportedAbi(v, k) => {
                let mut s = String::from_str(v.name());
                s.append(" is not supported by the ");
                s.append(k.name());
                s.append(".");
                s
            },
            Error::NoAbiSupport() => String::from_str("uAPI ABI is not supported by the kernel."),
        }
    }
}

/// Detect the most recent uAPI ABI supported by the platform, from the
/// support found on the first chip that could be opened, as whether it
/// supports v2 and whether it supports v1, or `None` if no chip could be
/// opened.
pub fn detect_abi_version(first_chip: Option<(bool, bool)>) -> (r: Result<AbiVersion, Error>)
    ensures
        first_chip is None ==> (r matches Err(e) && e is NoGpioChips),
        first_chip matches Some((v2, v1)) ==> r == chip::abi_detected(v2, v1),
{
    match first_chip {
        None => Err(Error::NoGpioChips()),
        Some((v2, v1)) => chip::detect_chip_abi(v2, v1),
    }
}

/// Check if the platform and library support a specific ABI version, from
/// whether the first chip that could be opened supports it, or `None` if no
/// chip could be opened.
pub fn supports_abi_version(abiv: AbiVersion, first_chip: Option<bool>) -> (r: Result<(), Error>)
    ensures
        first_chip is None ==> (r matches Err(e) && e is NoGpioChips),
        first_chip matches Some(supported) ==> r == chip::abi_support(abiv, supported),
{
    match first_chip {
        None => Err(Error::NoGpioChips()),
        Some(supported) => chip::check_chip_abi(abiv, supported),
    }
}

/// The info for a line discovered in the system.
///
/// Identifies the chip hosting the line, and the line info.
#[derive(Debug, PartialEq, Eq)]
pub struct FoundLine {
    /// The path to the chip containing the line.
    pub chip: String,
    /// The info of the line.
    pub info: line::Info,
}

/// The found lines are the same: the same chip path and line info.
pub open spec fn same_found_line(a: FoundLine, b: FoundLine) -> bool {
    a.chip@ == b.chip@ && line::info::same_info(a.info, b.info)
}

impl Clone for FoundLine {
    fn clone(&self) -> (r: Self)
        ensures
            same_found_line(r, *self),
    {
        FoundLine { chip: self.chip.clone(), info: self.info.clone() }
    }
}

impl Default for FoundLine {
    fn default() -> (f: Self)
        ensures
            f.chip@ == Seq::<char>::empty(),
            f.info.offset == 0,
            f.info.name@ == Seq::<char>::empty(),
    {
        FoundLine { chip: String::new(), info: line::Info::default() }
    }
}

} // verus!
