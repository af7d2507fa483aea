//! Types and functions related to requesting lines.
//!
//! The [`Builder`] collects the configuration for a request, held in a
//! [`Config`], and forms the request for the kernel.  The functions here
//! hold the decisions a request takes when reading and setting values,
//! reconfiguring lines, and decoding edge events.
use crate::line::value::{strictly_increasing, value_as_u8};
use crate::line::{EdgeEvent, Offset, Value, Values};
use crate::uapi::{
    bit, edge_event_v1_from_slice, edge_event_v2_from_slice, lemma_bit_set, lemma_bit_zero,
    v1_edge_event_in, v2_edge_event_in, HandleConfigV1, LineConfigV2, LineEdgeEventV1,
    LineEdgeEventV2, LineValuesV1, LineValuesV2, V1_EDGE_EVENT_SIZE, V2_EDGE_EVENT_SIZE,
};
use crate::line::event::edge_kind_of;
use crate::{AbiVersion, Error, UapiCall};
use vstd::prelude::*;
use vstd::string::StringExecFns;

pub mod builder;
pub use self::builder::Builder;

pub mod config;
pub use self::config::Config;

pub mod edge_event_buffer;
pub use self::edge_event_buffer::EventBufferState;

pub mod grouping;

verus! {

/// The error for an offset that is not among the requested lines.
pub open spec fn not_requested_error(e: Error) -> bool {
    e matches Error::InvalidArgument(m) && m@ == "offset is not a requested line."@
}

/// The error for an operation on a lone line applied to a request for
/// several.
pub open spec fn multiple_lines_error(e: Error) -> bool {
    e matches Error::InvalidArgument(m) && m@ == "request contains multiple lines."@
}

/// The error for a v1 operation that must apply to every requested line.
pub open spec fn all_lines_error(e: Error) -> bool {
    e matches Error::AbiLimitation(v, m) && v == AbiVersion::V1 && m@ == "requires all requested lines"@
}

/// The position of a line among the requested lines.
pub fn offset_index(offsets: &[Offset], offset: Offset) -> (r: Result<usize, Error>)
    ensures
        r is Err <==> !offsets@.contains(offset),
        r matches Err(e) ==> not_requested_error(e),
        r matches Ok(i) ==> i < offsets@.len() && offsets@[i as int] == offset && forall|j: int|
            0 <= j < i ==> offsets@[j] != offset,
{
    let mut i: usize = 0;
    while i < offsets.len()
        invariant
            i <= offsets@.len(),
            forall|j: int| 0 <= j < i ==> offsets@[j] != offset,
        decreases offsets@.len() - i,
    {
        if offsets[i] == offset {
            return Ok(i);
        }
        i += 1;
    }
    proof {
        if offsets@.contains(offset) {
            let j = choose|j: int| 0 <= j < offsets@.len() && offsets@[j] == offset;
            assert(offsets@[j] != offset);
        }
    }
    Err(Error::InvalidArgument(String::from_str("offset is not a requested line.")))
}

/// The position of the lone requested line, or an error if there are
/// several.
pub fn lone_index(offsets: &[Offset]) -> (r: Result<usize, Error>)
    ensures
        offsets@.len() == 1 ==> r == Ok::<usize, Error>(0),
        offsets@.len() != 1 ==> (r matches Err(e) && multiple_lines_error(e)),
{
    if offsets.len() != 1 {
        return Err(Error::InvalidArgument(String::from_str("request contains multiple lines.")));
    }
    Ok(0)
}

/// The v2 values that select the line at index `idx` alone, to read its
/// value.
pub fn v2_value_query(idx: usize) -> (r: LineValuesV2)
    requires
        idx < 64,
    ensures
        r.bits == 0,
        forall|j: u64| j < 64 ==> #[trigger] bit(r.mask, j) == (j == idx),
{
    let mask: u64 = 1u64 << (idx as u64);
    proof {
        assert forall|j: u64| j < 64 implies #[trigger] bit(mask, j) == (j == idx) by {
            lemma_bit_set(0u64, idx as u64, j);
            lemma_bit_zero(j);
            assert((0u64 | (1u64 << (idx as u64))) == (1u64 << (idx as u64))) by (bit_vector);
        }
    }
    LineValuesV2 { bits: 0, mask }
}

/// The v2 values that set the line at index `idx` alone to `value`.
pub fn v2_single_value(idx: usize, value: Value) -> (r: LineValuesV2)
    requires
        idx < 64,
    ensures
        forall|j: u64| j < 64 ==> #[trigger] bit(r.mask, j) == (j == idx),
        forall|j: u64| j < 64 ==> #[trigger] bit(r.bits, j) == (j == idx && value == Value::Active),
{
    let mut vals = LineValuesV2::new();
    proof {
        assert forall|j: u64| j < 64 implies !#[trigger] bit(0u64, j) by {
            lemma_bit_zero(j);
        }
    }
    vals.set(idx, value == Value::Active);
    vals
}

/// The v1 values that set the line at index `idx` to `value`, which v1 only
/// supports for a request of a single line.
pub fn v1_single_value(num_lines: usize, idx: usize, value: Value) -> (r: Result<LineValuesV1, Error>)
    requires
        idx < 64,
    ensures
        num_lines > 1 ==> (r matches Err(e) && all_lines_error(e)),
        num_lines <= 1 ==> (r matches Ok(v) && v@ == Seq::new(64, |j: int| 0u8).update(
            idx as int,
            value_as_u8(value),
        )),
{
    if num_lines > 1 {
        return Err(
            Error::AbiLimitation(AbiVersion::V1, String::from_str("requires all requested lines")),
        );
    }
    let mut vals = LineValuesV1::new();
    vals.set(idx, u8::from(value));
    Ok(vals)
}

/// The v1 values for setting the requested lines, all of which must be
/// held in `values`.
pub fn v1_set_values(values: &Values, offsets: &[Offset]) -> (r: Result<LineValuesV1, Error>)
    requires
        strictly_increasing(offsets@),
        offsets@.len() <= 64,
    ensures
        !(forall|i: int| 0 <= i < offsets@.len() ==> values@.contains_key(#[trigger] offsets@[i]))
            ==> (r matches Err(e) && all_lines_error(e)),
        (forall|i: int| 0 <= i < offsets@.len() ==> values@.contains_key(#[trigger] offsets@[i]))
            ==> (r matches Ok(v) && v@ == Seq::new(
            64,
            |j: int| crate::line::value::v1_value_at(values@, offsets@, j),
        )),
{
    if !values.contains_keys(offsets) {
        return Err(
            Error::AbiLimitation(AbiVersion::V1, String::from_str("requires all requested lines")),
        );
    }
    Ok(values.to_v1(offsets))
}

/// The v2 values for setting the requested lines held in `values`, or an
/// error if none are.
pub fn v2_set_values(values: &Values, offsets: &[Offset]) -> (r: Result<LineValuesV2, Error>)
    requires
        strictly_increasing(offsets@),
        offsets@.len() <= 64,
    ensures
        r matches Ok(lv) ==> lv.mask != 0 && (values@ == Map::<Offset, Value>::empty() || crate::line::value::encodes_v2(values@, offsets@, lv)),
        r matches Err(e) ==> e matches Error::InvalidArgument(m) && m@
            == "no requested lines in set values."@,
        values@ != Map::<Offset, Value>::empty() ==> (r is Ok <==> exists|i: int|
            0 <= i < offsets@.len() && values@.contains_key(#[trigger] offsets@[i])),
        values@ == Map::<Offset, Value>::empty() ==> (r is Ok <==> offsets@.len() > 0),
{
    let lv = values.to_v2(offsets);
    let ghost n = offsets@.len();
    proof {
        if values@ != Map::<Offset, Value>::empty() {
            if exists|i: int| 0 <= i < n && values@.contains_key(#[trigger] offsets@[i]) {
                let i = choose|i: int| 0 <= i < n && values@.contains_key(#[trigger] offsets@[i]);
                assert(bit(lv.mask, i as u64));
                crate::uapi::lemma_bit_nonzero(lv.mask, i as u64);
            } else if lv.mask != 0 {
                lemma_nonzero_bit(lv.mask);
                let j = choose|j: u64| j < 64 && #[trigger] bit(lv.mask, j);
                assert(values@.contains_key(offsets@[j as int]));
            }
        } else {
            if n > 0 {
                assert(bit(lv.mask, 0));
                crate::uapi::lemma_bit_nonzero(lv.mask, 0);
            } else if lv.mask != 0 {
                lemma_nonzero_bit(lv.mask);
            }
        }
    }
    if lv.mask == 0 {
        return Err(Error::InvalidArgument(String::from_str("no requested lines in set values.")));
    }
    Ok(lv)
}

/// A word that is not zero has a bit set.
pub proof fn lemma_nonzero_bit(x: u64)
    requires
        x != 0,
    ensures
        exists|j: u64| j < 64 && #[trigger] bit(x, j),
{
    if !(exists|j: u64| j < 64 && #[trigger] bit(x, j)) {
        lemma_all_clear_zero(x);
    }
}

/// A word with no bit set is zero.
proof fn lemma_all_clear_zero(x: u64)
    requires
        forall|k: u64| k < 64 ==> !bit(x, k),
    ensures
        x == 0,
{
    assert(x == 0) by (bit_vector)
        requires
            !bit(x, 0u64),
            !bit(x, 1u64),
            !bit(x, 2u64),
            !bit(x, 3u64),
            !bit(x, 4u64),
            !bit(x, 5u64),
            !bit(x, 6u64),
            !bit(x, 7u64),
            !bit(x, 8u64),
            !bit(x, 9u64),
            !bit(x, 10u64),
            !bit(x, 11u64),
            !bit(x, 12u64),
            !bit(x, 13u64),
            !bit(x, 14u64),
            !bit(x, 15u64),
            !bit(x, 16u64),
            !bit(x, 17u64),
            !bit(x, 18u64),
            !bit(x, 19u64),
            !bit(x, 20u64),
            !bit(x, 21u64),
            !bit(x, 22u64),
            !bit(x, 23u64),
            !bit(x, 24u64),
            !bit(x, 25u64),
            !bit(x, 26u64),
            !bit(x, 27u64),
            !bit(x, 28u64),
            !bit(x, 29u64),
            !bit(x, 30u64),
            !bit(x, 31u64),
            !bit(x, 32u64),
            !bit(x, 33u64),
            !bit(x, 34u64),
            !bit(x, 35u64),
            !bit(x, 36u64),
            !bit(x, 37u64),
            !bit(x, 38u64),
            !bit(x, 39u64),
            !bit(x, 40u64),
            !bit(x, 41u64),
            !bit(x, 42u64),
            !bit(x, 43u64),
            !bit(x, 44u64),
            !bit(x, 45u64),
            !bit(x, 46u64),
            !bit(x, 47u64),
            !bit(x, 48u64),
            !bit(x, 49u64),
            !bit(x, 50u64),
            !bit(x, 51u64),
            !bit(x, 52u64),
            !bit(x, 53u64),
            !bit(x, 54u64),
            !bit(x, 55u64),
            !bit(x, 56u64),
            !bit(x, 57u64),
            !bit(x, 58u64),
            !bit(x, 59u64),
            !bit(x, 60u64),
            !bit(x, 61u64),
            !bit(x, 62u64),
            !bit(x, 63u64),
    ;
}

/// The size, in bytes, of an edge event read from a request using the ABI
/// version.
pub open spec fn edge_event_size_spec(abiv: AbiVersion) -> usize {
    match abiv {
        AbiVersion::V1 => V1_EDGE_EVENT_SIZE,
        AbiVersion::V2 => V2_EDGE_EVENT_SIZE,
    }
}

/// The size, in bytes, of an edge event read from a request using the ABI
/// version.
pub fn edge_event_size(abiv: AbiVersion) -> (n: usize)
    ensures
        n == edge_event_size_spec(abiv),
{
    match abiv {
        AbiVersion::V1 => V1_EDGE_EVENT_SIZE,
        AbiVersion::V2 => V2_EDGE_EVENT_SIZE,
    }
}

/// The size, in u64 words, of an edge event read from a request using the
/// ABI version.
pub fn edge_event_u64_size(abiv: AbiVersion) -> (n: usize)
    ensures
        n == edge_event_size_spec(abiv) / 8,
        n > 0,
{
    edge_event_size(abiv) / 8
}

/// The event reports the v2 record `le`: its time, kind, line and sequence
/// numbers.
pub open spec fn reports_v2_edge(ev: EdgeEvent, le: LineEdgeEventV2) -> bool {
    &&& ev.timestamp_ns == le.timestamp_ns
    &&& Some(ev.kind) == edge_kind_of(le.kind)
    &&& ev.offset == le.offset
    &&& ev.seqno == le.seqno
    &&& ev.line_seqno == le.line_seqno
}

/// Decode an edge event from the words read from a request using the ABI
/// version.
///
/// The v1 uAPI does not report the line, so the event takes the first
/// requested line, the only one a v1 request with edge detection has.  A
/// v2 event is the record the words hold, whatever lines were requested;
/// an event of unknown kind is an error.
pub fn edge_event_from_slice(abiv: AbiVersion, offsets: &[Offset], buf: &[u64]) -> (r: Result<EdgeEvent, Error>)
    requires
        buf@.len() * 8 <= usize::MAX,
        abiv == AbiVersion::V1 ==> offsets@.len() > 0,
    ensures
        buf@.len() * 8 < edge_event_size_spec(abiv) ==> (r matches Err(Error::Uapi(c, e)) && c
            == UapiCall::LEEFromBuf && crate::uapi::under_read(
            e,
            "LineEdgeEvent"@,
            edge_event_size_spec(abiv),
            buf@.len() * 8,
        )),
        r matches Ok(ev) ==> ev.timestamp_ns == buf@[0],
        buf@.len() * 8 >= edge_event_size_spec(abiv) ==> (r is Ok || (r matches Err(
            Error::UnexpectedResponse(f, _),
        ) && f == crate::UapiField::Kind)),
        abiv == AbiVersion::V1 ==> (r matches Ok(ev) ==> ev.offset == offsets@[0] && ev.seqno
            == 0 && ev.line_seqno == 0),
        abiv == AbiVersion::V2 ==> (r matches Ok(ev) ==> exists|le: LineEdgeEventV2, little_endian: bool|
            v2_edge_event_in(le, buf@, little_endian) && reports_v2_edge(ev, le)),
        abiv == AbiVersion::V2 ==> (r matches Err(Error::UnexpectedResponse(_, _)) ==> exists|
            le: LineEdgeEventV2,
            little_endian: bool,
        | v2_edge_event_in(le, buf@, little_endian) && edge_kind_of(le.kind) is None),
        abiv == AbiVersion::V1 ==> (r matches Ok(ev) ==> exists|le: LineEdgeEventV1, little_endian: bool|
            v1_edge_event_in(le, buf@, little_endian) && ev.timestamp_ns == le.timestamp_ns
                && Some(ev.kind) == edge_kind_of(le.kind)),
        abiv == AbiVersion::V1 ==> (r matches Err(Error::UnexpectedResponse(_, _)) ==> exists|
            le: LineEdgeEventV1,
            little_endian: bool,
        | v1_edge_event_in(le, buf@, little_endian) && edge_kind_of(le.kind) is None),
{
    match abiv {
        AbiVersion::V1 => {
            let le = match edge_event_v1_from_slice(buf) {
                Ok(le) => le,
                Err(e) => {
                    return Err(Error::Uapi(UapiCall::LEEFromBuf, e));
                },
            };
            let ghost little_endian = choose|l: bool| v1_edge_event_in(le, buf@, l);
            let mut ee = match EdgeEvent::try_from_v1(&le) {
                Ok(ee) => ee,
                Err(e) => {
                    proof {
                        assert(v1_edge_event_in(le, buf@, little_endian));
                    }
                    return Err(e);
                },
            };
            ee.offset = offsets[0];
            proof {
                assert(v1_edge_event_in(le, buf@, little_endian));
            }
            Ok(ee)
        },
        AbiVersion::V2 => {
            let le = match edge_event_v2_from_slice(buf) {
                Ok(le) => le,
                Err(e) => {
                    return Err(Error::Uapi(UapiCall::LEEFromBuf, e));
                },
            };
            let ghost little_endian = choose|l: bool| v2_edge_event_in(le, buf@, l);
            let r = EdgeEvent::try_from_v2(&le);
            proof {
                assert(v2_edge_event_in(le, buf@, little_endian));
                if r is Ok {
                    assert(reports_v2_edge(r->Ok_0, le));
                }
            }
            r
        },
    }
}

/// The configuration to apply to a request to reconfigure its lines, in
/// the form of a uAPI version.
#[derive(Debug, PartialEq, Eq)]
pub enum Reconfiguration {
    /// A v1 handle configuration.
    V1(HandleConfigV1),
    /// A v2 line configuration.
    V2(LineConfigV2),
}

/// The error for a v1 reconfiguration that involves edge detection.
pub open spec fn v1_edge_reconfigure_error(e: Error, current: bool) -> bool {
    e matches Error::AbiLimitation(v, m) && v == AbiVersion::V1 && m@ == (if current {
        "cannot reconfigure lines with edge detection"@
    } else {
        "cannot reconfigure edge detection"@
    })
}

/// The uAPI form of the configuration `cfg` that reconfigures the lines of
/// a request configured as `current`, where `cfg` is `current` overlaid by
/// the new configuration.
///
/// The v1 uAPI cannot reconfigure lines with edge detection, nor add it,
/// and requires the lines share a configuration.
pub fn reconfiguration(current: &Config, cfg: &Config, abiv: AbiVersion) -> (r: Result<Reconfiguration, Error>)
    requires
        current.wf(),
        cfg.wf(),
        0 < current.line_offsets().len() <= 64,
        cfg.line_offsets() == current.line_offsets(),
    ensures
        abiv == AbiVersion::V2 ==> {
            &&& config::needed_attrs(*cfg) > crate::uapi::NUM_ATTRS_MAX ==> (r matches Err(e)
                && config::attr_limit_error(e, config::needed_attrs(*cfg)))
            &&& config::needed_attrs(*cfg) <= crate::uapi::NUM_ATTRS_MAX ==> (r matches Ok(
                Reconfiguration::V2(lc),
            ) && config::v2_config_applies(*cfg, lc) && config::most_common_flags(*cfg, lc.flags)
                && config::v2_attrs_laid_out(*cfg, lc))
        },
        abiv == AbiVersion::V1 ==> {
            &&& !config::all_equivalent(*current) ==> (r matches Err(e)
                && config::shared_config_error(e))
            &&& config::all_equivalent(*current) && builder::first_config(
                *current,
            ).edge_detection is Some ==> (r matches Err(e) && v1_edge_reconfigure_error(e, true))
            &&& config::all_equivalent(*current) && builder::first_config(
                *current,
            ).edge_detection is None && !config::all_equivalent(*cfg) ==> (r matches Err(e)
                && config::shared_config_error(e))
            &&& config::all_equivalent(*current) && builder::first_config(
                *current,
            ).edge_detection is None && config::all_equivalent(*cfg) && builder::first_config(
                *cfg,
            ).edge_detection is Some ==> (r matches Err(e) && v1_edge_reconfigure_error(e, false))
            &&& config::all_equivalent(*current) && builder::first_config(
                *current,
            ).edge_detection is None && config::all_equivalent(*cfg) && builder::first_config(
                *cfg,
            ).edge_detection is None ==> (r matches Ok(Reconfiguration::V1(hc)) && hc.flags
                == crate::line::config::config_v1_handle_flags(builder::first_config(*cfg))
                && hc.values@ == Seq::new(64, |j: int| config::v1_config_value(*cfg, j)))
        },
{
    match abiv {
        AbiVersion::V1 => {
            let cur = match current.unique() {
                Ok(c) => c,
                Err(e) => {
                    return Err(e);
                },
            };
            if cur.edge_detection.is_some() {
                return Err(
                    Error::AbiLimitation(
                        AbiVersion::V1,
                        String::from_str("cannot reconfigure lines with edge detection"),
                    ),
                );
            }
            let next = match cfg.unique() {
                Ok(c) => c,
                Err(e) => {
                    return Err(e);
                },
            };
            if next.edge_detection.is_some() {
                return Err(
                    Error::AbiLimitation(
                        AbiVersion::V1,
                        String::from_str("cannot reconfigure edge detection"),
                    ),
                );
            }
            match cfg.to_v1() {
                Ok(hc) => Ok(Reconfiguration::V1(hc)),
                Err(e) => Err(e),
            }
        },
        AbiVersion::V2 => {
            match cfg.to_v2() {
                Ok(lc) => Ok(Reconfiguration::V2(lc)),
                Err(e) => Err(e),
            }
        },
    }
}

} // verus!
