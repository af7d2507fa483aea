//! Plain forms of the records exchanged with the Linux GPIO uAPI.
//!
//! The kernel ABI describes lines in a request by their index into the
//! request's offsets, with 64 bit bitmaps for per line settings.  The
//! records here hold those encodings as plain integers so the logic that
//! builds and reads them can be verified.
use crate::UapiError;
use gpiocdev_uapi::{v1, v2};
use vstd::prelude::*;

verus! {

/// The maximum number of lines that may be requested in a single request.
pub const NUM_LINES_MAX: usize = 64;

/// The capacity of the attribute arrays in the v2 line config and line info.
pub const NUM_ATTRS_MAX: usize = 10;

/// The v2 flag: the line is in use and is not available for request.
pub const V2_USED: u64 = 1;

/// The v2 flag: the line active state corresponds to a physical low.
pub const V2_ACTIVE_LOW: u64 = 2;

/// The v2 flag: the line is an input.
pub const V2_INPUT: u64 = 4;

/// The v2 flag: the line is an output.
pub const V2_OUTPUT: u64 = 8;

/// The v2 flag: the line detects rising edges.
pub const V2_EDGE_RISING: u64 = 16;

/// The v2 flag: the line detects falling edges.
pub const V2_EDGE_FALLING: u64 = 32;

/// The v2 flag: the line is an open drain output.
pub const V2_OPEN_DRAIN: u64 = 64;

/// The v2 flag: the line is an open source output.
pub const V2_OPEN_SOURCE: u64 = 128;

/// The v2 flag: the line has pull-up bias enabled.
pub const V2_BIAS_PULL_UP: u64 = 256;

/// The v2 flag: the line has pull-down bias enabled.
pub const V2_BIAS_PULL_DOWN: u64 = 512;

/// The v2 flag: the line has bias disabled.
pub const V2_BIAS_DISABLED: u64 = 1024;

/// The v2 flag: the line events contain CLOCK_REALTIME timestamps.
pub const V2_EVENT_CLOCK_REALTIME: u64 = 2048;

/// The v2 flag: the line events contain hardware timestamp engine timestamps.
pub const V2_EVENT_CLOCK_HTE: u64 = 4096;

/// The v1 line info flag: the line is in use.
pub const V1_INFO_USED: u32 = 1;

/// The v1 line info flag: the line is an output.
pub const V1_INFO_OUTPUT: u32 = 2;

/// The v1 line info flag: the line is active low.
pub const V1_INFO_ACTIVE_LOW: u32 = 4;

/// The v1 line info flag: the line is an open drain output.
pub const V1_INFO_OPEN_DRAIN: u32 = 8;

/// The v1 line info flag: the line is an open source output.
pub const V1_INFO_OPEN_SOURCE: u32 = 16;

/// The v1 line info flag: the line has pull-up bias enabled.
pub const V1_INFO_BIAS_PULL_UP: u32 = 32;

/// The v1 line info flag: the line has pull-down bias enabled.
pub const V1_INFO_BIAS_PULL_DOWN: u32 = 64;

/// The v1 line info flag: the line has bias disabled.
pub const V1_INFO_BIAS_DISABLED: u32 = 128;

/// The v1 handle request flag: request the lines as inputs.
pub const V1_HANDLE_INPUT: u32 = 1;

/// The v1 handle request flag: request the lines as outputs.
pub const V1_HANDLE_OUTPUT: u32 = 2;

/// The v1 handle request flag: the lines are active low.
pub const V1_HANDLE_ACTIVE_LOW: u32 = 4;

/// The v1 handle request flag: the lines are open drain outputs.
pub const V1_HANDLE_OPEN_DRAIN: u32 = 8;

/// The v1 handle request flag: the lines are open source outputs.
pub const V1_HANDLE_OPEN_SOURCE: u32 = 16;

/// The v1 handle request flag: the lines have pull-up bias enabled.
pub const V1_HANDLE_BIAS_PULL_UP: u32 = 32;

/// The v1 handle request flag: the lines have pull-down bias enabled.
pub const V1_HANDLE_BIAS_PULL_DOWN: u32 = 64;

/// The v1 handle request flag: the lines have bias disabled.
pub const V1_HANDLE_BIAS_DISABLED: u32 = 128;

/// The v1 event request flag: report rising edges.
pub const V1_EVENT_RISING_EDGE: u32 = 1;

/// The v1 event request flag: report falling edges.
pub const V1_EVENT_FALLING_EDGE: u32 = 2;

/// The v1 event request flag: report both edges.
pub const V1_EVENT_BOTH_EDGES: u32 = 3;

/// Bit `i` of `x` is set.
pub open spec fn bit(x: u64, i: u64) -> bool {
    (x >> i) & 1u64 == 1u64
}

/// All the bits of `f` are set in `x`.
pub open spec fn has_flags64(x: u64, f: u64) -> bool {
    x & f == f
}

/// All the bits of `f` are set in `x`.
pub open spec fn has_flags32(x: u32, f: u32) -> bool {
    x & f == f
}

/// Setting bit `i` changes only that bit.
pub proof fn lemma_bit_set(x: u64, i: u64, j: u64)
    requires
        i < 64,
        j < 64,
    ensures
        bit(x | (1u64 << i), j) == (i == j || bit(x, j)),
{
    assert(((x | (1u64 << i)) >> j) & 1u64 == 1u64 <==> (i == j || (x >> j) & 1u64 == 1u64))
        by (bit_vector)
        requires
            i < 64,
            j < 64,
    ;
}

/// Clearing bit `i` changes only that bit.
pub proof fn lemma_bit_clear(x: u64, i: u64, j: u64)
    requires
        i < 64,
        j < 64,
    ensures
        bit(x & !(1u64 << i), j) == (i != j && bit(x, j)),
{
    assert(((x & !(1u64 << i)) >> j) & 1u64 == 1u64 <==> (i != j && (x >> j) & 1u64 == 1u64))
        by (bit_vector)
        requires
            i < 64,
            j < 64,
    ;
}

/// The bits of the zero word are all clear.
pub proof fn lemma_bit_zero(j: u64)
    requires
        j < 64,
    ensures
        !bit(0u64, j),
{
    assert((0u64 >> j) & 1u64 != 1u64) by (bit_vector);
}

/// A word with a bit set is not zero.
pub proof fn lemma_bit_nonzero(x: u64, i: u64)
    requires
        i < 64,
        bit(x, i),
    ensures
        x != 0,
{
    if x == 0 {
        lemma_bit_zero(i);
    }
}

/// Testing a single bit mask tests that bit.
pub proof fn lemma_bit_mask(x: u64, i: u64)
    requires
        i < 64,
    ensures
        (x & (1u64 << i) != 0) == bit(x, i),
{
    assert((x & (1u64 << i) != 0) == ((x >> i) & 1u64 == 1u64)) by (bit_vector)
        requires
            i < 64,
    ;
}

/// The low `n` bits, and only those, are set in `2^n - 1`.
pub proof fn lemma_bit_low_mask(n: u64, j: u64)
    requires
        n < 64,
        j < 64,
    ensures
        bit(((1u64 << n) - 1) as u64, j) == (j < n),
{
    assert(((((1u64 << n) - 1) as u64 >> j) & 1u64 == 1u64) == (j < n)) by (bit_vector)
        requires
            n < 64,
            j < 64,
    ;
}

/// All the bits of the all ones word are set.
pub proof fn lemma_bit_all(j: u64)
    requires
        j < 64,
    ensures
        bit(!0u64, j),
{
    assert(((!0u64) >> j) & 1u64 == 1u64) by (bit_vector)
        requires
            j < 64,
    ;
}

/// The values of the lines of a v2 request, in the order of the requested
/// offsets.
///
/// Bit `i` of `mask` selects the line at index `i`; bit `i` of `bits` is
/// its value, set for active.
#[derive(Clone, Copy, Debug, PartialEq, Eq, Structural)]
pub struct LineValuesV2 {
    /// The value of the lines, set to 1 for active and 0 for inactive.
    pub bits: u64,
    /// The lines to access, set to 1 to access and 0 to ignore.
    pub mask: u64,
}

impl LineValuesV2 {
    /// Values with no line selected.
    pub fn new() -> (v: LineValuesV2)
        ensures
            v.bits == 0,
            v.mask == 0,
    {
        LineValuesV2 { bits: 0, mask: 0 }
    }

    /// Return the value of the line at index `idx`, if selected by the mask.
    pub fn get(&self, idx: usize) -> (r: Option<bool>)
        requires
            idx < 64,
        ensures
            r == (if bit(self.mask, idx as u64) {
                Some(bit(self.bits, idx as u64))
            } else {
                None
            }),
    {
        let m: u64 = 1u64 << (idx as u64);
        proof {
            lemma_bit_mask(self.mask, idx as u64);
            lemma_bit_mask(self.bits, idx as u64);
        }
        if self.mask & m == 0 {
            return None;
        }
        Some(self.bits & m != 0)
    }

    /// Select the line at index `idx` and set its value.
    pub fn set(&mut self, idx: usize, active: bool)
        requires
            idx < 64,
        ensures
            forall|j: u64|
                j < 64 ==> bit(final(self).mask, j) == (j == idx || bit(old(self).mask, j)),
            forall|j: u64|
                j < 64 ==> bit(final(self).bits, j) == (if j == idx {
                    active
                } else {
                    bit(old(self).bits, j)
                }),
    {
        let m0 = self.mask;
        let b0 = self.bits;
        let m: u64 = 1u64 << (idx as u64);
        let nm: u64 = m0 | m;
        let nb: u64 = if active {
            b0 | m
        } else {
            b0 & !m
        };
        proof {
            assert forall|j: u64| j < 64 implies bit(nm, j) == (j == idx || bit(m0, j)) by {
                lemma_bit_set(m0, idx as u64, j);
            }
            assert forall|j: u64| j < 64 implies bit(nb, j) == (if j == idx {
                active
            } else {
                bit(b0, j)
            }) by {
                lemma_bit_set(b0, idx as u64, j);
                lemma_bit_clear(b0, idx as u64, j);
            }
        }
        self.mask = nm;
        self.bits = nb;
    }
}

/// The values of the lines of a v1 request, one byte per line in the order
/// of the requested offsets, non-zero for active.
#[derive(Debug, PartialEq, Eq)]
pub struct LineValuesV1 {
    values: Vec<u8>,
}

impl View for LineValuesV1 {
    type V = Seq<u8>;

    closed spec fn view(&self) -> Seq<u8> {
        self.values@
    }
}

impl LineValuesV1 {
    #[verifier::type_invariant]
    spec fn inv(self) -> bool {
        self.values@.len() == 64
    }

    /// Values with every line inactive.
    pub fn new() -> (v: LineValuesV1)
        ensures
            v@ == Seq::new(64, |i: int| 0u8),
    {
        let mut values: Vec<u8> = Vec::new();
        let mut i: usize = 0;
        while i < 64
            invariant
                i <= 64,
                values@ == Seq::new(i as nat, |k: int| 0u8),
            decreases 64 - i,
        {
            values.push(0);
            i += 1;
            assert(values@ =~= Seq::new(i as nat, |k: int| 0u8));
        }
        LineValuesV1 { values }
    }

    /// Return the value of the line at index `idx`.
    pub fn get(&self, idx: usize) -> (r: u8)
        requires
            idx < 64,
        ensures
            r == self@[idx as int],
    {
        proof {
            use_type_invariant(self);
        }
        self.values[idx]
    }

    /// Set the value of the line at index `idx`.
    pub fn set(&mut self, idx: usize, value: u8)
        requires
            idx < 64,
        ensures
            final(self)@ == old(self)@.update(idx as int, value),
    {
        proof {
            use_type_invariant(&*self);
        }
        let mut v = self.values.clone();
        assert(v@ =~= self.values@);
        v.set(idx, value);
        self.values = v;
    }

    /// The values as a slice of 64 bytes.
    pub fn as_slice(&self) -> (r: &[u8])
        ensures
            r@ == self@,
            r@.len() == 64,
    {
        proof {
            use_type_invariant(self);
        }
        self.values.as_slice()
    }
}

/// The size, in bytes, of a v2 edge event as read from a request.
pub const V2_EDGE_EVENT_SIZE: usize = 48;

/// The size, in bytes, of a v1 edge event as read from a request.
pub const V1_EDGE_EVENT_SIZE: usize = 16;

/// The size, in bytes, of a v2 line info change event as read from a chip.
pub const V2_INFO_CHANGE_EVENT_SIZE: usize = 288;

/// The size, in bytes, of a v1 line info change event as read from a chip.
pub const V1_INFO_CHANGE_EVENT_SIZE: usize = 104;

/// The value of an attribute of a v2 line info or line config.
#[derive(Clone, Copy, Debug, PartialEq, Eq, Structural)]
pub enum LineAttributeValueV2 {
    /// The debounce period in microseconds.
    DebouncePeriod(u32),
    /// The line flags.
    Flags(u64),
    /// The line values.
    Values(u64),
}

/// The information for a line as reported by the v2 uAPI.
#[derive(Clone, Debug, PartialEq, Eq)]
pub struct LineInfoV2 {
    /// The name of the line.
    pub name: String,
    /// The consumer of the line, if requested.
    pub consumer: String,
    /// The offset of the line on its chip.
    pub offset: u32,
    /// The number of attributes in use.
    pub num_attrs: u32,
    /// The line flags.
    pub flags: u64,
    /// The attributes, in order; an attribute of unknown kind has no value.
    pub attrs: Vec<Option<LineAttributeValueV2>>,
}

/// The information for a line as reported by the v1 uAPI.
#[derive(Clone, Debug, PartialEq, Eq)]
pub struct LineInfoV1 {
    /// The offset of the line on its chip.
    pub offset: u32,
    /// The line info flags.
    pub flags: u32,
    /// The name of the line.
    pub name: String,
    /// The consumer of the line, if requested.
    pub consumer: String,
}

/// An edge event as reported by the v2 uAPI.
#[derive(Clone, Copy, Debug, PartialEq, Eq, Structural)]
pub struct LineEdgeEventV2 {
    /// The time of the event, in nanoseconds.
    pub timestamp_ns: u64,
    /// The kind of edge.
    pub kind: u32,
    /// The offset of the line that triggered the event.
    pub offset: u32,
    /// The sequence number of the event across all the lines of the request.
    pub seqno: u32,
    /// The sequence number of the event on this line.
    pub line_seqno: u32,
}

/// An edge event as reported by the v1 uAPI.
#[derive(Clone, Copy, Debug, PartialEq, Eq, Structural)]
pub struct LineEdgeEventV1 {
    /// The time of the event, in nanoseconds.
    pub timestamp_ns: u64,
    /// The kind of edge.
    pub kind: u32,
}

/// A line info change event as reported by the v2 uAPI.
#[derive(Clone, Debug, PartialEq, Eq)]
pub struct LineInfoChangeEventV2 {
    /// The updated line info.
    pub info: LineInfoV2,
    /// The time of the change, in nanoseconds.
    pub timestamp_ns: u64,
    /// The kind of change.
    pub kind: u32,
}

/// A line info change event as reported by the v1 uAPI.
#[derive(Clone, Debug, PartialEq, Eq)]
pub struct LineInfoChangeEventV1 {
    /// The updated line info.
    pub info: LineInfoV1,
    /// The time of the change, in nanoseconds.
    pub timestamp_ns: u64,
    /// The kind of change.
    pub kind: u32,
}

/// The configuration for a v1 request reconfiguration: the flags that apply
/// to every line and the values of outputs.
#[derive(Debug, PartialEq, Eq)]
pub struct HandleConfigV1 {
    /// The handle request flags.
    pub flags: u32,
    /// The output values, by index of the requested lines.
    pub values: LineValuesV1,
}

/// An attribute of a v2 line config, applying to the lines selected by the
/// mask, by index of the requested lines.
#[derive(Clone, Copy, Debug, PartialEq, Eq, Structural)]
pub struct LineConfigAttributeV2 {
    /// The attribute value.
    pub value: LineAttributeValueV2,
    /// The lines the attribute applies to.
    pub mask: u64,
}

/// The configuration for a v2 request: the flags for lines not covered by a
/// flags attribute, and the attributes.
#[derive(Debug, PartialEq, Eq)]
pub struct LineConfigV2 {
    /// The flags applied to lines not covered by a flags attribute.
    pub flags: u64,
    /// The number of attributes in use.
    pub num_attrs: u32,
    /// The attributes, in order.
    pub attrs: Vec<LineConfigAttributeV2>,
}

/// A v1 request for lines without edge detection.
#[derive(Debug, PartialEq, Eq)]
pub struct HandleRequestV1 {
    /// The requested lines.
    pub offsets: Vec<u32>,
    /// The handle request flags, shared by every line.
    pub flags: u32,
    /// The output values, by index of the requested lines.
    pub values: LineValuesV1,
    /// The consumer of the lines.
    pub consumer: String,
    /// The number of requested lines.
    pub num_lines: u32,
}

/// A v1 request for a line with edge detection.
#[derive(Debug, PartialEq, Eq)]
pub struct EventRequestV1 {
    /// The requested line.
    pub offset: u32,
    /// The handle request flags.
    pub handleflags: u32,
    /// The event request flags.
    pub eventflags: u32,
    /// The consumer of the line.
    pub consumer: String,
}

/// A v2 request for lines.
#[derive(Debug, PartialEq, Eq)]
pub struct LineRequestV2 {
    /// The requested lines.
    pub offsets: Vec<u32>,
    /// The consumer of the lines.
    pub consumer: String,
    /// The size of the kernel's edge event buffer, or zero for its default.
    pub event_buffer_size: u32,
    /// The number of requested lines.
    pub num_lines: u32,
    /// The configuration of the lines.
    pub config: LineConfigV2,
}

/// A request for lines, in the form of one of the uAPI versions.
#[derive(Debug, PartialEq, Eq)]
pub enum UapiRequest {
    /// A v1 request for lines without edge detection.
    Handle(HandleRequestV1),
    /// A v1 request for a line with edge detection.
    Event(EventRequestV1),
    /// A v2 request.
    Line(LineRequestV2),
}

/// The error of a record decoded from a buffer too short to hold it.
pub open spec fn under_read(e: UapiError, obj: Seq<char>, expected: usize, found: nat) -> bool {
    match e {
        UapiError::UnderRead { obj: o, expected: x, found: f } => o@ == obj && x == expected && f
            == found,
        _ => false,
    }
}

/// The 32-bit field that starts a 64-bit word in memory, on a machine that
/// stores words least significant byte first (`little_endian`) or most
/// significant byte first.
pub open spec fn first_u32(w: u64, little_endian: bool) -> u32 {
    if little_endian {
        (w & 0xffff_ffff) as u32
    } else {
        (w >> 32) as u32
    }
}

/// The 32-bit field that ends a 64-bit word in memory, on a machine of the
/// given byte order.
pub open spec fn second_u32(w: u64, little_endian: bool) -> u32 {
    if little_endian {
        (w >> 32) as u32
    } else {
        (w & 0xffff_ffff) as u32
    }
}

/// The words hold the v2 edge event `le`, laid out as the kernel's record in
/// the given byte order: the timestamp, then the kind and offset, then the
/// two sequence numbers.
pub open spec fn v2_edge_event_in(le: LineEdgeEventV2, words: Seq<u64>, little_endian: bool) -> bool {
    &&& words.len() >= 3
    &&& le.timestamp_ns == words[0]
    &&& le.kind == first_u32(words[1], little_endian)
    &&& le.offset == second_u32(words[1], little_endian)
    &&& le.seqno == first_u32(words[2], little_endian)
    &&& le.line_seqno == second_u32(words[2], little_endian)
}

/// The words hold the v1 edge event `le`, laid out as the kernel's record in
/// the given byte order: the timestamp, then the kind.
pub open spec fn v1_edge_event_in(le: LineEdgeEventV1, words: Seq<u64>, little_endian: bool) -> bool {
    &&& words.len() >= 2
    &&& le.timestamp_ns == words[0]
    &&& le.kind == first_u32(words[1], little_endian)
}

/// The words hold the v2 line info change event `ice`, laid out as the
/// kernel's record in the given byte order, as far as its numbers go: the
/// line's offset and number of attributes in word 8 and its flags in word 9,
/// after the two names; the timestamp in word 32 and the kind in word 33,
/// after the line info.
pub open spec fn v2_info_change_in(ice: LineInfoChangeEventV2, words: Seq<u64>, little_endian: bool) -> bool {
    &&& words.len() >= 34
    &&& ice.info.offset == first_u32(words[8], little_endian)
    &&& ice.info.num_attrs == second_u32(words[8], little_endian)
    &&& ice.info.flags == words[9]
    &&& ice.timestamp_ns == words[32]
    &&& ice.kind == first_u32(words[33], little_endian)
}

/// The words hold the v1 line info change event `ice`, laid out as the
/// kernel's record in the given byte order, as far as its numbers go: the
/// line's offset and flags in word 0, before the two names; the timestamp
/// in word 9 and the kind in word 10, after the line info.
pub open spec fn v1_info_change_in(ice: LineInfoChangeEventV1, words: Seq<u64>, little_endian: bool) -> bool {
    &&& words.len() >= 11
    &&& ice.info.offset == first_u32(words[0], little_endian)
    &&& ice.info.flags == second_u32(words[0], little_endian)
    &&& ice.timestamp_ns == words[9]
    &&& ice.kind == first_u32(words[10], little_endian)
}

#[verifier::external_type_specification]
#[verifier::external_body]
pub struct ExLineInfoV2(v2::LineInfo);

#[verifier::external_type_specification]
#[verifier::external_body]
pub struct ExLineInfoV1(v1::LineInfo);

/// The name and consumer of a v2 line info, converted by the uAPI's
/// `String::from(&Name)`, which stops at the first NUL and replaces invalid
/// UTF-8.
///
/// The kernel's record is opaque here, so nothing is stated of the result.
#[verifier::external_body]
fn line_info_v2_fields(li: &v2::LineInfo) -> (String, String) {
    (String::from(&li.name), String::from(&li.consumer))
}

/// The value of the attribute at index `idx` of a v2 line info, by
/// `v2::LineAttribute::to_value`, which reads the attribute by its kind and
/// has no value for an unknown kind.
///
/// The kernel's record is opaque here, so nothing is stated of the result.
#[verifier::external_body]
fn line_info_v2_attr(li: &v2::LineInfo, idx: usize) -> Option<LineAttributeValueV2>
    requires
        idx < NUM_ATTRS_MAX,
{
    match li.attrs.0[idx].to_value() {
        Some(v2::LineAttributeValue::DebouncePeriod(p)) => Some(
            LineAttributeValueV2::DebouncePeriod(p),
        ),
        Some(v2::LineAttributeValue::Flags(f)) => Some(LineAttributeValueV2::Flags(f.bits())),
        Some(v2::LineAttributeValue::Values(v)) => Some(LineAttributeValueV2::Values(v)),
        None => None,
    }
}

/// The plain form of a v2 line info with the given offset, number of
/// attributes in use and flags, with every attribute slot read.
fn line_info_v2(li: &v2::LineInfo, offset: u32, num_attrs: u32, flags: u64) -> (r: LineInfoV2)
    ensures
        r.attrs@.len() == NUM_ATTRS_MAX,
        r.offset == offset,
        r.num_attrs == num_attrs,
        r.flags == flags,
{
    let (name, consumer) = line_info_v2_fields(li);
    let mut attrs: Vec<Option<LineAttributeValueV2>> = Vec::new();
    let mut i: usize = 0;
    while i < NUM_ATTRS_MAX
        invariant
            i <= NUM_ATTRS_MAX,
            attrs@.len() == i,
        decreases NUM_ATTRS_MAX - i,
    {
        attrs.push(line_info_v2_attr(li, i));
        i += 1;
    }
    LineInfoV2 { name, consumer, offset, num_attrs, flags, attrs }
}

/// The name and consumer of a v1 line info, converted by the uAPI's
/// `String::from(&Name)`, which stops at the first NUL and replaces invalid
/// UTF-8.
///
/// The kernel's record is opaque here, so nothing is stated of the result.
#[verifier::external_body]
fn line_info_v1(li: &v1::LineInfo) -> (String, String) {
    (String::from(&li.name), String::from(&li.consumer))
}

/// Decode a v2 edge event from the words read from a request, by
/// `v2::LineEdgeEvent::from_slice`.
///
/// That call fails with an under read if the words hold fewer bytes than
/// the event, and otherwise views the start of the words as the kernel's
/// `#[repr(C)]` record, so the timestamp is the first word and the 32-bit
/// fields are halves of the next two words.  Which half is which depends on
/// the machine's byte order, so it is stated for either order.
#[verifier::external_body]
pub(crate) fn edge_event_v2_from_slice(buf: &[u64]) -> (r: Result<LineEdgeEventV2, UapiError>)
    requires
        buf@.len() * 8 <= usize::MAX,
    ensures
        r is Ok <==> buf@.len() * 8 >= V2_EDGE_EVENT_SIZE,
        r matches Ok(le) ==> le.timestamp_ns == buf@[0],
        r matches Ok(le) ==> exists|little_endian: bool| v2_edge_event_in(le, buf@, little_endian),
        r matches Err(e) ==> under_read(e, "LineEdgeEvent"@, V2_EDGE_EVENT_SIZE, buf@.len() * 8),
{
    match v2::LineEdgeEvent::from_slice(buf) {
        Ok(le) => Ok(LineEdgeEventV2 {
            timestamp_ns: le.timestamp_ns,
            kind: le.kind,
            offset: le.offset,
            seqno: le.seqno,
            line_seqno: le.line_seqno,
        }),
        Err(gpiocdev_uapi::Error::UnderRead(u)) => Err(
            UapiError::UnderRead { obj: String::from(u.obj), expected: u.expected, found: u.found },
        ),
        Err(gpiocdev_uapi::Error::Os(e)) => Err(UapiError::Os(e.0)),
    }
}

/// Decode a v1 edge event from the words read from a request, by
/// `v1::LineEdgeEvent::from_slice`.
///
/// That call fails with an under read if the words hold fewer bytes than
/// the event, and otherwise views the start of the words as the kernel's
/// `#[repr(C)]` record, so the timestamp is the first word and the kind is
/// the half of the second word that comes first in memory, which depends on
/// the machine's byte order and is stated for either order.
#[verifier::external_body]
pub(crate) fn edge_event_v1_from_slice(buf: &[u64]) -> (r: Result<LineEdgeEventV1, UapiError>)
    requires
        buf@.len() * 8 <= usize::MAX,
    ensures
        r is Ok <==> buf@.len() * 8 >= V1_EDGE_EVENT_SIZE,
        r matches Ok(le) ==> le.timestamp_ns == buf@[0],
        r matches Ok(le) ==> exists|little_endian: bool| v1_edge_event_in(le, buf@, little_endian),
        r matches Err(e) ==> under_read(e, "LineEdgeEvent"@, V1_EDGE_EVENT_SIZE, buf@.len() * 8),
{
    match v1::LineEdgeEvent::from_slice(buf) {
        Ok(le) => Ok(LineEdgeEventV1 { timestamp_ns: le.timestamp_ns, kind: le.kind }),
        Err(gpiocdev_uapi::Error::UnderRead(u)) => Err(
            UapiError::UnderRead { obj: String::from(u.obj), expected: u.expected, found: u.found },
        ),
        Err(gpiocdev_uapi::Error::Os(e)) => Err(UapiError::Os(e.0)),
    }
}

/// Decode a v2 line info change event from the words read from a chip, by
/// `v2::LineInfoChangeEvent::from_slice`, into its line info, with the
/// info's offset, number of attributes in use and flags, and the event's
/// timestamp and kind.
///
/// That call fails with an under read if the words hold fewer bytes than
/// the event, and otherwise views the start of the words as the kernel's
/// `#[repr(C)]` record: the flags, at byte 72, are word 9 and the
/// timestamp, at byte 256, is word 32; the offset and number of attributes
/// are the halves of word 8, and the kind the half of word 33 that comes
/// first in memory, which depends on the machine's byte order and is stated
/// for either order.  The names and attributes are not stated.
#[verifier::external_body]
fn info_change_event_v2_parts(buf: &[u64]) -> (r: Result<(v2::LineInfo, u32, u32, u64, u64, u32), UapiError>)
    requires
        buf@.len() * 8 <= usize::MAX,
    ensures
        r is Ok <==> buf@.len() * 8 >= V2_INFO_CHANGE_EVENT_SIZE,
        r matches Ok((_, _, _, _, timestamp_ns, _)) ==> timestamp_ns == buf@[32],
        r matches Ok((_, _, _, flags, _, _)) ==> flags == buf@[9],
        r matches Ok((_, offset, num_attrs, _, _, kind)) ==> exists|little_endian: bool|
            offset == first_u32(buf@[8], little_endian) && num_attrs == second_u32(
                buf@[8],
                little_endian,
            ) && kind == first_u32(buf@[33], little_endian),
        r matches Err(e) ==> under_read(
            e,
            "LineInfoChangeEvent"@,
            V2_INFO_CHANGE_EVENT_SIZE,
            buf@.len() * 8,
        ),
{
    match v2::LineInfoChangeEvent::from_slice(buf) {
        Ok(ice) => {
            let li = &ice.info;
            Ok((li.clone(), li.offset, li.num_attrs, li.flags.bits(), ice.timestamp_ns, ice.kind))
        },
        Err(gpiocdev_uapi::Error::UnderRead(u)) => Err(
            UapiError::UnderRead { obj: String::from(u.obj), expected: u.expected, found: u.found },
        ),
        Err(gpiocdev_uapi::Error::Os(e)) => Err(UapiError::Os(e.0)),
    }
}

/// Decode a v2 line info change event from the words read from a chip.
///
/// Fails with an under read if the words hold fewer bytes than the event.
pub(crate) fn info_change_event_v2_from_slice(buf: &[u64]) -> (r: Result<LineInfoChangeEventV2, UapiError>)
    requires
        buf@.len() * 8 <= usize::MAX,
    ensures
        r is Ok <==> buf@.len() * 8 >= V2_INFO_CHANGE_EVENT_SIZE,
        r matches Ok(ice) ==> ice.timestamp_ns == buf@[32],
        r matches Ok(ice) ==> exists|little_endian: bool| v2_info_change_in(ice, buf@, little_endian),
        r matches Err(e) ==> under_read(
            e,
            "LineInfoChangeEvent"@,
            V2_INFO_CHANGE_EVENT_SIZE,
            buf@.len() * 8,
        ),
{
    match info_change_event_v2_parts(buf) {
        Ok((li, offset, num_attrs, flags, timestamp_ns, kind)) => {
            let info = line_info_v2(&li, offset, num_attrs, flags);
            let ice = LineInfoChangeEventV2 { info, timestamp_ns, kind };
            proof {
                let le = choose|le: bool|
                    offset == first_u32(buf@[8], le) && num_attrs == second_u32(buf@[8], le)
                        && kind == first_u32(buf@[33], le);
                assert(v2_info_change_in(ice, buf@, le));
                assert(exists|l: bool| v2_info_change_in(ice, buf@, l));
            }
            Ok(ice)
        },
        Err(e) => Err(e),
    }
}

/// Decode a v1 line info change event from the words read from a chip, by
/// `v1::LineInfoChangeEvent::from_slice`, into its line info, with the
/// info's offset and flags, and the event's timestamp and kind.
///
/// That call fails with an under read if the words hold fewer bytes than
/// the event, and otherwise views the start of the words as the kernel's
/// `#[repr(C)]` record: the timestamp, at byte 72, is word 9; the offset
/// and flags are the halves of word 0, and the kind the half of word 10
/// that comes first in memory, which depends on the machine's byte order
/// and is stated for either order.  The names are not stated.
#[verifier::external_body]
fn info_change_event_v1_parts(buf: &[u64]) -> (r: Result<(v1::LineInfo, u32, u32, u64, u32), UapiError>)
    requires
        buf@.len() * 8 <= usize::MAX,
    ensures
        r is Ok <==> buf@.len() * 8 >= V1_INFO_CHANGE_EVENT_SIZE,
        r matches Ok((_, _, _, timestamp_ns, _)) ==> timestamp_ns == buf@[9],
        r matches Ok((_, offset, flags, _, kind)) ==> exists|little_endian: bool| offset
            == first_u32(buf@[0], little_endian) && flags == second_u32(buf@[0], little_endian)
            && kind == first_u32(buf@[10], little_endian),
        r matches Err(e) ==> under_read(
            e,
            "LineInfoChangeEvent"@,
            V1_INFO_CHANGE_EVENT_SIZE,
            buf@.len() * 8,
        ),
{
    match v1::LineInfoChangeEvent::from_slice(buf) {
        Ok(ice) => Ok(
            (ice.info.clone(), ice.info.offset, ice.info.flags.bits(), ice.timestamp_ns, ice.kind),
        ),
        Err(gpiocdev_uapi::Error::UnderRead(u)) => Err(
            UapiError::UnderRead { obj: String::from(u.obj), expected: u.expected, found: u.found },
        ),
        Err(gpiocdev_uapi::Error::Os(e)) => Err(UapiError::Os(e.0)),
    }
}

/// Decode a v1 line info change event from the words read from a chip.
///
/// Fails with an under read if the words hold fewer bytes than the event.
pub(crate) fn info_change_event_v1_from_slice(buf: &[u64]) -> (r: Result<LineInfoChangeEventV1, UapiError>)
    requires
        buf@.len() * 8 <= usize::MAX,
    ensures
        r is Ok <==> buf@.len() * 8 >= V1_INFO_CHANGE_EVENT_SIZE,
        r matches Ok(ice) ==> ice.timestamp_ns == buf@[9],
        r matches Ok(ice) ==> exists|little_endian: bool| v1_info_change_in(ice, buf@, little_endian),
        r matches Err(e) ==> under_read(
            e,
            "LineInfoChangeEvent"@,
            V1_INFO_CHANGE_EVENT_SIZE,
            buf@.len() * 8,
        ),
{
    match info_change_event_v1_parts(buf) {
        Ok((li, offset, flags, timestamp_ns, kind)) => {
            let (name, consumer) = line_info_v1(&li);
            let ice = LineInfoChangeEventV1 {
                info: LineInfoV1 { offset, flags, name, consumer },
                timestamp_ns,
                kind,
            };
            proof {
                let le = choose|le: bool|
                    offset == first_u32(buf@[0], le) && flags == second_u32(buf@[0], le) && kind
                        == first_u32(buf@[10], le);
                assert(v1_info_change_in(ice, buf@, le));
                assert(exists|l: bool| v1_info_change_in(ice, buf@, l));
            }
            Ok(ice)
        },
        Err(e) => Err(e),
    }
}

} // verus!
