//! The publicly available information for a line.
use super::{
    v1_bias, v1_direction, v1_drive, v2_bias, v2_direction, v2_drive, v2_edge_detection,
    v2_event_clock, Bias, Direction, Drive, EdgeDetection, EventClock, Offset, Period,
};
use crate::text::{decimal, decimal_spec};
use super::config::{config_v2_flags, lemma_v2_flags_roundtrip};
use super::Config;
use crate::uapi::{
    has_flags32, has_flags64, LineAttributeValueV2, LineInfoV1, LineInfoV2, NUM_ATTRS_MAX,
    V1_INFO_ACTIVE_LOW, V1_INFO_BIAS_DISABLED, V1_INFO_BIAS_PULL_DOWN, V1_INFO_BIAS_PULL_UP,
    V1_INFO_OPEN_DRAIN, V1_INFO_OPEN_SOURCE, V1_INFO_OUTPUT, V1_INFO_USED, V2_ACTIVE_LOW, V2_USED,
};
use crate::{Error, UapiField};
use vstd::prelude::*;

verus! {

/// The publicly available information for a line.
#[derive(Debug, PartialEq, Eq)]
pub struct Info {
    /// The line offset on the GPIO chip.
    pub offset: Offset,
    /// The name of this GPIO line, such as the output pin of the line on
    /// the chip, a rail or a pin header name on a board, as specified by the
    /// GPIO chip.
    ///
    /// May be empty.
    pub name: String,
    /// A functional name for the consumer of this GPIO line as set by
    /// whatever is using it.
    ///
    /// May be empty if not requested by a consumer.
    pub consumer: String,
    /// When true the line is used and not available for request.
    pub used: bool,
    /// When true the line active state corresponds to a physical low.
    pub active_low: bool,
    /// The direction of the line.
    pub direction: Direction,
    /// The bias state of the line.
    pub bias: Option<Bias>,
    /// The drive applied to output lines.
    ///
    /// Only relevant for output lines.
    pub drive: Option<Drive>,
    /// The edge detection state for the line.
    ///
    /// Only relevant for input lines.
    pub edge_detection: Option<EdgeDetection>,
    /// The source clock for edge event timestamps.
    ///
    /// Only relevant for input lines with edge detection.
    pub event_clock: Option<EventClock>,
    /// The debounce period.
    ///
    /// Only relevant for input lines with edge detection.
    ///
    /// None or a zero value means no debounce.
    pub debounce_period: Option<Period>,
}

/// The infos are the same: equal in every field, the names by their
/// characters.
pub open spec fn same_info(a: Info, b: Info) -> bool {
    &&& a.offset == b.offset
    &&& a.name@ == b.name@
    &&& a.consumer@ == b.consumer@
    &&& a.used == b.used
    &&& a.active_low == b.active_low
    &&& a.direction == b.direction
    &&& a.bias == b.bias
    &&& a.drive == b.drive
    &&& a.edge_detection == b.edge_detection
    &&& a.event_clock == b.event_clock
    &&& a.debounce_period == b.debounce_period
}

impl Clone for Info {
    fn clone(&self) -> (r: Self)
        ensures
            same_info(r, *self),
    {
        Info {
            offset: self.offset,
            name: self.name.clone(),
            consumer: self.consumer.clone(),
            used: self.used,
            active_low: self.active_low,
            direction: self.direction,
            bias: self.bias,
            drive: self.drive,
            edge_detection: self.edge_detection,
            event_clock: self.event_clock,
            debounce_period: self.debounce_period,
        }
    }
}

impl Default for Info {
    fn default() -> (i: Self)
        ensures
            i.offset == 0,
            i.name@ == Seq::<char>::empty(),
            i.consumer@ == Seq::<char>::empty(),
            !i.used,
            !i.active_low,
            i.direction == Direction::Input,
            i.bias is None,
            i.drive is None,
            i.edge_detection is None,
            i.event_clock is None,
            i.debounce_period is None,
    {
        Info {
            offset: 0,
            name: String::new(),
            consumer: String::new(),
            used: false,
            active_low: false,
            direction: Direction::Input,
            bias: None,
            drive: None,
            edge_detection: None,
            event_clock: None,
            debounce_period: None,
        }
    }
}

/// The debounce period, in microseconds, held by the last debounce
/// attribute among the first `n` attributes, if any.
pub open spec fn last_debounce(attrs: Seq<Option<LineAttributeValueV2>>, n: int) -> Option<u32>
    decreases n,
{
    if n <= 0 {
        None
    } else {
        match attrs[n - 1] {
            Some(LineAttributeValueV2::DebouncePeriod(us)) => Some(us),
            _ => last_debounce(attrs, n - 1),
        }
    }
}

/// The number of attributes of a v2 line info that are read: those in use
/// that the record holds.
pub open spec fn attrs_in_use(li: LineInfoV2) -> int {
    if li.num_attrs < li.attrs@.len() {
        li.num_attrs as int
    } else {
        li.attrs@.len() as int
    }
}

/// The info `i` is what the v1 uAPI record `li` reports.
pub open spec fn reports_v1(i: Info, li: LineInfoV1) -> bool {
    &&& i.offset == li.offset
    &&& i.name@ == li.name@
    &&& i.consumer@ == li.consumer@
    &&& i.used == has_flags32(li.flags, V1_INFO_USED)
    &&& i.active_low == has_flags32(li.flags, V1_INFO_ACTIVE_LOW)
    &&& i.direction == v1_direction(li.flags)
    &&& i.bias == v1_bias(li.flags)
    &&& i.drive == v1_drive(li.flags)
    &&& i.edge_detection is None
    &&& i.event_clock is None
    &&& i.debounce_period is None
}

/// The info `i` is what the v2 uAPI record `li` reports.
pub open spec fn reports_v2(i: Info, li: LineInfoV2) -> bool {
    &&& i.offset == li.offset
    &&& i.name@ == li.name@
    &&& i.consumer@ == li.consumer@
    &&& i.used == has_flags64(li.flags, V2_USED)
    &&& i.active_low == has_flags64(li.flags, V2_ACTIVE_LOW)
    &&& i.direction == v2_direction(li.flags)
    &&& i.bias == v2_bias(li.flags)
    &&& i.drive == v2_drive(li.flags)
    &&& i.edge_detection == v2_edge_detection(li.flags)
    &&& i.event_clock == (if v2_edge_detection(li.flags) is Some {
        Some(v2_event_clock(li.flags))
    } else {
        None
    })
    &&& i.debounce_period == match last_debounce(li.attrs@, attrs_in_use(li)) {
        Some(us) => Some(Period::micros_spec(us as u64)),
        None => None,
    }
}

impl Info {
    /// The info for a line reported by the v1 uAPI.
    ///
    /// The v1 uAPI does not report edge detection, event clock or debounce.
    pub fn from_v1(li: &LineInfoV1) -> (i: Info)
        ensures
            reports_v1(i, *li),
    {
        Info {
            offset: li.offset,
            name: li.name.clone(),
            consumer: li.consumer.clone(),
            used: li.flags & V1_INFO_USED == V1_INFO_USED,
            active_low: li.flags & V1_INFO_ACTIVE_LOW == V1_INFO_ACTIVE_LOW,
            direction: Direction::from_v1_flags(li.flags),
            bias: Bias::try_from_v1_flags(li.flags).ok(),
            drive: Drive::try_from_v1_flags(li.flags).ok(),
            edge_detection: None,
            event_clock: None,
            debounce_period: None,
        }
    }

    /// The info for a line reported by the v2 uAPI.
    ///
    /// Fails if the report claims more attributes than the uAPI provides.
    /// The debounce period is that of the last debounce attribute in use,
    /// and the event clock is reported only for lines with edge detection.
    pub fn try_from_v2(li: &LineInfoV2) -> (r: Result<Info, Error>)
        ensures
            li.num_attrs > NUM_ATTRS_MAX ==> (r matches Err(Error::UnexpectedResponse(f, s)) && f
                == UapiField::NumAttrs && s@ == decimal_spec(li.num_attrs as nat)),
            li.num_attrs <= NUM_ATTRS_MAX ==> (r matches Ok(i) && reports_v2(i, *li)),
    {
        if li.num_attrs > 10 {
            return Err(
                Error::UnexpectedResponse(UapiField::NumAttrs, decimal(li.num_attrs as u64)),
            );
        }
        let n: usize = if (li.num_attrs as usize) < li.attrs.len() {
            li.num_attrs as usize
        } else {
            li.attrs.len()
        };
        let mut debounce_period: Option<Period> = None;
        let mut idx: usize = 0;
        while idx < n
            invariant
                n <= li.attrs@.len(),
                n == attrs_in_use(*li),
                idx <= n,
                debounce_period == match last_debounce(li.attrs@, idx as int) {
                    Some(us) => Some(Period::micros_spec(us as u64)),
                    None => None,
                },
            decreases n - idx,
        {
            if let Some(LineAttributeValueV2::DebouncePeriod(db)) = li.attrs[idx] {
                debounce_period = Some(Period::from_micros(db as u64));
            }
            idx += 1;
        }
        let ed = EdgeDetection::try_from_v2_flags(li.flags).ok();
        let ec = if ed.is_some() {
            Some(EventClock::from_v2_flags(li.flags))
        } else {
            None
        };
        Ok(Info {
            offset: li.offset,
            name: li.name.clone(),
            consumer: li.consumer.clone(),
            used: li.flags & V2_USED == V2_USED,
            active_low: li.flags & V2_ACTIVE_LOW == V2_ACTIVE_LOW,
            direction: Direction::from_v2_flags(li.flags),
            bias: Bias::try_from_v2_flags(li.flags).ok(),
            drive: Drive::try_from_v2_flags(li.flags).ok(),
            edge_detection: ed,
            event_clock: ec,
            debounce_period,
        })
    }
}


/// Setting the used bit of line flags that do not have it changes no other
/// flag.
proof fn lemma_used_bit(x: u64, u: u64, f: u64)
    by (bit_vector)
    requires
        x & 1 != 1,
        u == 0 || u == 1,
        f & 1 == 0,
    ensures
        ((x | u) & f == f) == (x & f == f),
        ((x | u) & 1 == 1) == (u == 1),
{
}

/// The info of a line reports the configuration that the line was
/// requested with, whether or not the line is in use: its active low
/// setting and bias whatever the direction, the direction where one was
/// set (input otherwise), the drive of an output (push-pull unless set),
/// the edge detection of an input, and the event clock of an input with
/// edge detection (monotonic unless set).
pub proof fn lemma_info_reports_config_v2(c: Config, used: bool, li: LineInfoV2, i: Info)
    requires
        li.flags == config_v2_flags(c) | (if used {
            V2_USED
        } else {
            0u64
        }),
        reports_v2(i, li),
    ensures
        i.used == used,
        i.active_low == c.active_low,
        i.bias == c.bias,
        i.direction == match c.direction {
            Some(d) => d,
            None => Direction::Input,
        },
        i.drive == (if c.direction == Some(Direction::Output) {
            Some(
                match c.drive {
                    Some(d) => d,
                    None => Drive::PushPull,
                },
            )
        } else {
            None
        }),
        i.edge_detection == (if c.direction == Some(Direction::Input) {
            c.edge_detection
        } else {
            None
        }),
        i.event_clock == (if c.direction == Some(Direction::Input) && c.edge_detection is Some {
            Some(
                match c.event_clock {
                    Some(k) => k,
                    None => EventClock::Monotonic,
                },
            )
        } else {
            None
        }),
{
    let x = config_v2_flags(c);
    let u: u64 = if used {
        1u64
    } else {
        0u64
    };
    lemma_v2_flags_roundtrip(c);
    assert forall|f: u64| f & 1 == 0 implies ((x | u) & f == f) == (x & f == f) by {
        lemma_used_bit(x, u, f);
    }
    assert((2u64 & 1) == 0 && (4u64 & 1) == 0 && (8u64 & 1) == 0 && (16u64 & 1) == 0 && (32u64
        & 1) == 0 && (64u64 & 1) == 0 && (128u64 & 1) == 0 && (256u64 & 1) == 0 && (512u64 & 1)
        == 0 && (1024u64 & 1) == 0 && (2048u64 & 1) == 0 && (4096u64 & 1) == 0) by (bit_vector);
    lemma_used_bit(x, u, 2);
}


/// The v1 line info flags that describe a line configured as `c`: in use
/// or not, output for an output with its drive, active low, and the bias.
pub open spec fn v1_info_flags_for(c: Config, used: bool) -> u32 {
    (if used {
        V1_INFO_USED
    } else {
        0u32
    }) | (if c.direction == Some(Direction::Output) {
        V1_INFO_OUTPUT | match c.drive {
            Some(Drive::OpenDrain) => V1_INFO_OPEN_DRAIN,
            Some(Drive::OpenSource) => V1_INFO_OPEN_SOURCE,
            _ => 0u32,
        }
    } else {
        0u32
    }) | (if c.active_low {
        V1_INFO_ACTIVE_LOW
    } else {
        0u32
    }) | match c.bias {
        None => 0u32,
        Some(Bias::PullUp) => V1_INFO_BIAS_PULL_UP,
        Some(Bias::PullDown) => V1_INFO_BIAS_PULL_DOWN,
        Some(Bias::Disabled) => V1_INFO_BIAS_DISABLED,
    }
}

/// The settings of a line decode from v1 line info flags.
proof fn lemma_v1_info_bits(u: u32, d: u32, al: u32, b: u32)
    by (bit_vector)
    requires
        u == 0 || u == 1,
        d == 0 || d == 2 || d == 10 || d == 18,
        al == 0 || al == 4,
        b == 0 || b == 32 || b == 64 || b == 128,
    ensures
        ((u | d | al | b) & 1 == 1) == (u == 1),
        ((u | d | al | b) & 2 == 2) == (d != 0),
        ((u | d | al | b) & 4 == 4) == (al == 4),
        ((u | d | al | b) & 8 == 8) == (d == 10),
        ((u | d | al | b) & 16 == 16) == (d == 18),
        ((u | d | al | b) & 32 == 32) == (b == 32),
        ((u | d | al | b) & 64 == 64) == (b == 64),
        ((u | d | al | b) & 128 == 128) == (b == 128),
{
}

/// The v1 info of a line reports the settings that its flags describe:
/// whether it is in use, its active low setting and bias whatever the
/// direction, output or else input, and the drive of an output (push-pull
/// unless set).
pub proof fn lemma_info_reports_config_v1(c: Config, used: bool, li: LineInfoV1, i: Info)
    requires
        li.flags == v1_info_flags_for(c, used),
        reports_v1(i, li),
    ensures
        i.used == used,
        i.active_low == c.active_low,
        i.bias == c.bias,
        i.direction == (if c.direction == Some(Direction::Output) {
            Direction::Output
        } else {
            Direction::Input
        }),
        i.drive == (if c.direction == Some(Direction::Output) {
            Some(
                match c.drive {
                    Some(d) => d,
                    None => Drive::PushPull,
                },
            )
        } else {
            None
        }),
{
    assert((2u32 | 8u32) == 10u32 && (2u32 | 16u32) == 18u32 && (2u32 | 0u32) == 2u32)
        by (bit_vector);
    let u: u32 = if used {
        1u32
    } else {
        0u32
    };
    let d: u32 = if c.direction == Some(Direction::Output) {
        match c.drive {
            Some(Drive::OpenDrain) => 10u32,
            Some(Drive::OpenSource) => 18u32,
            _ => 2u32,
        }
    } else {
        0u32
    };
    let al: u32 = if c.active_low {
        4u32
    } else {
        0u32
    };
    let b: u32 = match c.bias {
        None => 0u32,
        Some(Bias::PullUp) => 32u32,
        Some(Bias::PullDown) => 64u32,
        Some(Bias::Disabled) => 128u32,
    };
    assert(li.flags == u | d | al | b);
    lemma_v1_info_bits(u, d, al, b);
}

} // verus!
