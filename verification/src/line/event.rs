//! Events reported for lines: edges on requested lines, and changes to the
//! info of watched lines.
use super::info::{reports_v1, reports_v2};
use super::{Info, Offset};
use crate::text::{decimal, decimal_spec};
use crate::uapi::{
    LineEdgeEventV1, LineEdgeEventV2, LineInfoChangeEventV1, LineInfoChangeEventV2, NUM_ATTRS_MAX,
};
use crate::{Error, UapiField};
use vstd::prelude::*;

verus! {

/// The cause of an edge event.
#[derive(Clone, Copy, Debug, PartialEq, Eq, Structural)]
pub enum EdgeKind {
    /// Indicates the line transitioned from inactive to active.
    Rising,
    /// Indicates the line transitioned from active to inactive.
    Falling,
}

/// The edge kind identified by a uAPI event kind: 1 for rising, 2 for
/// falling.
pub open spec fn edge_kind_of(kind: u32) -> Option<EdgeKind> {
    if kind == 1 {
        Some(EdgeKind::Rising)
    } else if kind == 2 {
        Some(EdgeKind::Falling)
    } else {
        None
    }
}

impl EdgeKind {
    /// The edge kind identified by a uAPI event kind, or `Err` for an
    /// unknown kind.
    pub fn try_from_u32(kind: u32) -> (r: Result<EdgeKind, ()>)
        ensures
            r == (match edge_kind_of(kind) {
                Some(k) => Ok(k),
                None => Err(()),
            }),
    {
        match kind {
            1 => Ok(EdgeKind::Rising),
            2 => Ok(EdgeKind::Falling),
            _ => Err(()),
        }
    }
}

/// An edge event detected on a requested line.
#[derive(Clone, Copy, Debug, PartialEq, Eq, Structural)]
pub struct EdgeEvent {
    /// The best estimate of time of event occurrence, in nanoseconds.
    pub timestamp_ns: u64,
    /// The cause of the event.
    pub kind: EdgeKind,
    /// The offset of the line that triggered the event.
    pub offset: Offset,
    /// The sequence number for this event in the sequence of events for all
    /// the lines in this line request.
    pub seqno: u32,
    /// The sequence number for this event in the sequence of events on this
    /// particular line.
    pub line_seqno: u32,
}

/// The error reported for an event of unknown kind.
pub open spec fn is_unexpected_kind(e: Error, kind: u32) -> bool {
    e matches Error::UnexpectedResponse(f, s) && f == UapiField::Kind && s@ == decimal_spec(
        kind as nat,
    )
}

impl EdgeEvent {
    /// The edge event reported by the v2 uAPI, or an error for an event of
    /// unknown kind.
    pub fn try_from_v2(le: &LineEdgeEventV2) -> (r: Result<EdgeEvent, Error>)
        ensures
            edge_kind_of(le.kind) is None ==> (r matches Err(e) && is_unexpected_kind(e, le.kind)),
            edge_kind_of(le.kind) is Some ==> r == Ok::<EdgeEvent, Error>(
                EdgeEvent {
                    timestamp_ns: le.timestamp_ns,
                    kind: edge_kind_of(le.kind).unwrap(),
                    offset: le.offset,
                    seqno: le.seqno,
                    line_seqno: le.line_seqno,
                },
            ),
    {
        match EdgeKind::try_from_u32(le.kind) {
            Err(_) => Err(Error::UnexpectedResponse(UapiField::Kind, decimal(le.kind as u64))),
            Ok(kind) => Ok(
                EdgeEvent {
                    timestamp_ns: le.timestamp_ns,
                    kind,
                    offset: le.offset,
                    seqno: le.seqno,
                    line_seqno: le.line_seqno,
                },
            ),
        }
    }

    /// The edge event reported by the v1 uAPI, or an error for an event of
    /// unknown kind.
    ///
    /// The v1 uAPI does not report the offset or sequence numbers, so they
    /// are zero.
    pub fn try_from_v1(le: &LineEdgeEventV1) -> (r: Result<EdgeEvent, Error>)
        ensures
            edge_kind_of(le.kind) is None ==> (r matches Err(e) && is_unexpected_kind(e, le.kind)),
            edge_kind_of(le.kind) is Some ==> r == Ok::<EdgeEvent, Error>(
                EdgeEvent {
                    timestamp_ns: le.timestamp_ns,
                    kind: edge_kind_of(le.kind).unwrap(),
                    offset: 0,
                    seqno: 0,
                    line_seqno: 0,
                },
            ),
    {
        match EdgeKind::try_from_u32(le.kind) {
            Err(_) => Err(Error::UnexpectedResponse(UapiField::Kind, decimal(le.kind as u64))),
            Ok(kind) => Ok(
                EdgeEvent { timestamp_ns: le.timestamp_ns, kind, offset: 0, seqno: 0, line_seqno: 0 },
            ),
        }
    }
}

/// The cause of an info change event.
#[derive(Clone, Copy, Debug, PartialEq, Eq, Structural)]
pub enum InfoChangeKind {
    /// Line has been requested.
    Requested,
    /// Line has been released.
    Released,
    /// Line has been reconfigured.
    Reconfigured,
}

/// The info change kind identified by a uAPI event kind: 1 for requested,
/// 2 for released, 3 for reconfigured.
pub open spec fn info_change_kind_of(kind: u32) -> Option<InfoChangeKind> {
    if kind == 1 {
        Some(InfoChangeKind::Requested)
    } else if kind == 2 {
        Some(InfoChangeKind::Released)
    } else if kind == 3 {
        Some(InfoChangeKind::Reconfigured)
    } else {
        None
    }
}

impl InfoChangeKind {
    /// The info change kind identified by a uAPI event kind, or `Err` for an
    /// unknown kind.
    pub fn try_from_u32(kind: u32) -> (r: Result<InfoChangeKind, ()>)
        ensures
            r == (match info_change_kind_of(kind) {
                Some(k) => Ok(k),
                None => Err(()),
            }),
    {
        match kind {
            1 => Ok(InfoChangeKind::Requested),
            2 => Ok(InfoChangeKind::Released),
            3 => Ok(InfoChangeKind::Reconfigured),
            _ => Err(()),
        }
    }
}

/// An event indicating a change to the info for a line.
#[derive(Clone, Debug, PartialEq, Eq)]
pub struct InfoChangeEvent {
    /// The new line info.
    pub info: Info,
    /// The best estimate of time of event occurrence, in nanoseconds.
    ///
    /// The **CLOCK_MONOTONIC** is used as the source for info change timestamps.
    pub timestamp_ns: u64,
    /// The trigger for the change.
    pub kind: InfoChangeKind,
}

impl InfoChangeEvent {
    /// The info change event reported by the v2 uAPI.
    ///
    /// Fails for an event of unknown kind, else as the line info does.
    pub fn try_from_v2(ice: &LineInfoChangeEventV2) -> (r: Result<InfoChangeEvent, Error>)
        ensures
            info_change_kind_of(ice.kind) is None ==> (r matches Err(e) && is_unexpected_kind(
                e,
                ice.kind,
            )),
            info_change_kind_of(ice.kind) is Some ==> (r is Ok <==> ice.info.num_attrs
                <= NUM_ATTRS_MAX),
            r matches Ok(ev) ==> ev.timestamp_ns == ice.timestamp_ns && Some(ev.kind)
                == info_change_kind_of(ice.kind) && reports_v2(ev.info, ice.info),
            info_change_kind_of(ice.kind) is Some && ice.info.num_attrs > NUM_ATTRS_MAX ==> (
            r matches Err(Error::UnexpectedResponse(f, s)) && f == UapiField::NumAttrs && s@
                == decimal_spec(ice.info.num_attrs as nat)),
    {
        let kind = match InfoChangeKind::try_from_u32(ice.kind) {
            Err(_) => {
                return Err(Error::UnexpectedResponse(UapiField::Kind, decimal(ice.kind as u64)));
            },
            Ok(k) => k,
        };
        let info = match Info::try_from_v2(&ice.info) {
            Err(e) => {
                return Err(e);
            },
            Ok(i) => i,
        };
        Ok(InfoChangeEvent { info, timestamp_ns: ice.timestamp_ns, kind })
    }

    /// The info change event reported by the v1 uAPI, or an error for an
    /// event of unknown kind.
    pub fn try_from_v1(ice: &LineInfoChangeEventV1) -> (r: Result<InfoChangeEvent, Error>)
        ensures
            info_change_kind_of(ice.kind) is None ==> (r matches Err(e) && is_unexpected_kind(
                e,
                ice.kind,
            )),
            info_change_kind_of(ice.kind) is Some ==> (r matches Ok(ev) && ev.timestamp_ns
                == ice.timestamp_ns && Some(ev.kind) == info_change_kind_of(ice.kind)
                && reports_v1(ev.info, ice.info)),
    {
        let kind = match InfoChangeKind::try_from_u32(ice.kind) {
            Err(_) => {
                return Err(Error::UnexpectedResponse(UapiField::Kind, decimal(ice.kind as u64)));
            },
            Ok(k) => k,
        };
        Ok(InfoChangeEvent { info: Info::from_v1(&ice.info), timestamp_ns: ice.timestamp_ns, kind })
    }
}

} // verus!
