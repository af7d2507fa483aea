//! Types specific to lines.
use crate::uapi::{
    has_flags32, has_flags64, V1_INFO_BIAS_DISABLED, V1_INFO_BIAS_PULL_DOWN, V1_INFO_BIAS_PULL_UP,
    V1_INFO_OPEN_DRAIN, V1_INFO_OPEN_SOURCE, V1_INFO_OUTPUT, V2_BIAS_DISABLED, V2_BIAS_PULL_DOWN,
    V2_BIAS_PULL_UP, V2_EDGE_FALLING, V2_EDGE_RISING, V2_EVENT_CLOCK_HTE, V2_EVENT_CLOCK_REALTIME,
    V2_OPEN_DRAIN, V2_OPEN_SOURCE, V2_OUTPUT,
};
use vstd::prelude::*;

pub mod config;
pub use self::config::Config;

pub mod event;
pub use self::event::{EdgeEvent, EdgeKind, InfoChangeEvent, InfoChangeKind};

pub mod info;
pub use self::info::Info;

pub mod period;
pub use self::period::Period;

pub mod value;
pub use self::value::{LineValue, Value, Values};

verus! {

/// An identifier for a line on a particular chip.
///
/// Valid offsets are in the range 0..`num_lines` as reported in the chip info.
pub type Offset = u32;

/// A collection of line offsets.
pub type Offsets = Vec<Offset>;

/// The direction of a line.
#[derive(Clone, Copy, Debug, PartialEq, Eq, Structural)]
pub enum Direction {
    /// The line is an input.
    Input,
    /// The line is an output.
    Output,
}

impl Default for Direction {
    fn default() -> (d: Self)
        ensures
            d == Direction::Input,
    {
        Direction::Input
    }
}

/// The direction indicated by v2 line flags: output if the output flag is set.
pub open spec fn v2_direction(flags: u64) -> Direction {
    if has_flags64(flags, V2_OUTPUT) {
        Direction::Output
    } else {
        Direction::Input
    }
}

/// The direction indicated by v1 line info flags: output if the output flag is set.
pub open spec fn v1_direction(flags: u32) -> Direction {
    if has_flags32(flags, V1_INFO_OUTPUT) {
        Direction::Output
    } else {
        Direction::Input
    }
}

impl Direction {
    /// The direction indicated by v2 line flags.
    pub fn from_v2_flags(flags: u64) -> (d: Direction)
        ensures
            d == v2_direction(flags),
    {
        if flags & V2_OUTPUT == V2_OUTPUT {
            Direction::Output
        } else {
            Direction::Input
        }
    }

    /// The direction indicated by v1 line info flags.
    pub fn from_v1_flags(flags: u32) -> (d: Direction)
        ensures
            d == v1_direction(flags),
    {
        if flags & V1_INFO_OUTPUT == V1_INFO_OUTPUT {
            Direction::Output
        } else {
            Direction::Input
        }
    }
}

/// The bias settings for a line.
#[derive(Clone, Copy, Debug, PartialEq, Eq, Structural)]
pub enum Bias {
    /// The line has pull-up enabled.
    PullUp,
    /// The line has pull-down enabled.
    PullDown,
    /// The line has bias disabled and will float unless externally driven.
    Disabled,
}

/// The bias indicated by v2 line flags, checking pull-up, then pull-down,
/// then disabled.
pub open spec fn v2_bias(flags: u64) -> Option<Bias> {
    if has_flags64(flags, V2_BIAS_PULL_UP) {
        Some(Bias::PullUp)
    } else if has_flags64(flags, V2_BIAS_PULL_DOWN) {
        Some(Bias::PullDown)
    } else if has_flags64(flags, V2_BIAS_DISABLED) {
        Some(Bias::Disabled)
    } else {
        None
    }
}

/// The bias indicated by v1 line info flags, checking pull-up, then
/// pull-down, then disabled.
pub open spec fn v1_bias(flags: u32) -> Option<Bias> {
    if has_flags32(flags, V1_INFO_BIAS_PULL_UP) {
        Some(Bias::PullUp)
    } else if has_flags32(flags, V1_INFO_BIAS_PULL_DOWN) {
        Some(Bias::PullDown)
    } else if has_flags32(flags, V1_INFO_BIAS_DISABLED) {
        Some(Bias::Disabled)
    } else {
        None
    }
}

impl Bias {
    /// The bias indicated by v2 line flags, or `Err` if no bias flag is set.
    pub fn try_from_v2_flags(flags: u64) -> (r: Result<Bias, ()>)
        ensures
            r == (match v2_bias(flags) {
                Some(b) => Ok(b),
                None => Err(()),
            }),
    {
        if flags & V2_BIAS_PULL_UP == V2_BIAS_PULL_UP {
            return Ok(Bias::PullUp);
        }
        if flags & V2_BIAS_PULL_DOWN == V2_BIAS_PULL_DOWN {
            return Ok(Bias::PullDown);
        }
        if flags & V2_BIAS_DISABLED == V2_BIAS_DISABLED {
            return Ok(Bias::Disabled);
        }
        Err(())
    }

    /// The bias indicated by v1 line info flags, or `Err` if no bias flag is set.
    pub fn try_from_v1_flags(flags: u32) -> (r: Result<Bias, ()>)
        ensures
            r == (match v1_bias(flags) {
                Some(b) => Ok(b),
                None => Err(()),
            }),
    {
        if flags & V1_INFO_BIAS_PULL_UP == V1_INFO_BIAS_PULL_UP {
            return Ok(Bias::PullUp);
        }
        if flags & V1_INFO_BIAS_PULL_DOWN == V1_INFO_BIAS_PULL_DOWN {
            return Ok(Bias::PullDown);
        }
        if flags & V1_INFO_BIAS_DISABLED == V1_INFO_BIAS_DISABLED {
            return Ok(Bias::Disabled);
        }
        Err(())
    }
}

/// The drive policy settings for an output line.
#[derive(Clone, Copy, Debug, PartialEq, Eq, Structural)]
pub enum Drive {
    /// The line is driven when both active and inactive.
    ///
    /// This is the default if drive is not specified.
    PushPull,
    /// The line is driven when low and set high impedance when high.
    OpenDrain,
    /// The line is driven when high and set high impedance when low.
    OpenSource,
}

impl Default for Drive {
    fn default() -> (d: Self)
        ensures
            d == Drive::PushPull,
    {
        Drive::PushPull
    }
}

/// The drive indicated by v2 line flags: open drain, then open source, then
/// push-pull for any other output.
pub open spec fn v2_drive(flags: u64) -> Option<Drive> {
    if has_flags64(flags, V2_OPEN_DRAIN) {
        Some(Drive::OpenDrain)
    } else if has_flags64(flags, V2_OPEN_SOURCE) {
        Some(Drive::OpenSource)
    } else if has_flags64(flags, V2_OUTPUT) {
        Some(Drive::PushPull)
    } else {
        None
    }
}

/// The drive indicated by v1 line info flags: open drain, then open source,
/// then push-pull for any other output.
pub open spec fn v1_drive(flags: u32) -> Option<Drive> {
    if has_flags32(flags, V1_INFO_OPEN_DRAIN) {
        Some(Drive::OpenDrain)
    } else if has_flags32(flags, V1_INFO_OPEN_SOURCE) {
        Some(Drive::OpenSource)
    } else if has_flags32(flags, V1_INFO_OUTPUT) {
        Some(Drive::PushPull)
    } else {
        None
    }
}

impl Drive {
    /// The drive indicated by v2 line flags, or `Err` for a line that is
    /// not an output.
    pub fn try_from_v2_flags(flags: u64) -> (r: Result<Drive, ()>)
        ensures
            r == (match v2_drive(flags) {
                Some(d) => Ok(d),
                None => Err(()),
            }),
    {
        if flags & V2_OPEN_DRAIN == V2_OPEN_DRAIN {
            return Ok(Drive::OpenDrain);
        }
        if flags & V2_OPEN_SOURCE == V2_OPEN_SOURCE {
            return Ok(Drive::OpenSource);
        }
        if flags & V2_OUTPUT == V2_OUTPUT {
            return Ok(Drive::PushPull);
        }
        Err(())
    }

    /// The drive indicated by v1 line info flags, or `Err` for a line that
    /// is not an output.
    pub fn try_from_v1_flags(flags: u32) -> (r: Result<Drive, ()>)
        ensures
            r == (match v1_drive(flags) {
                Some(d) => Ok(d),
                None => Err(()),
            }),
    {
        if flags & V1_INFO_OPEN_DRAIN == V1_INFO_OPEN_DRAIN {
            return Ok(Drive::OpenDrain);
        }
        if flags & V1_INFO_OPEN_SOURCE == V1_INFO_OPEN_SOURCE {
            return Ok(Drive::OpenSource);
        }
        if flags & V1_INFO_OUTPUT == V1_INFO_OUTPUT {
            return Ok(Drive::PushPull);
        }
        Err(())
    }
}

/// The edge detection options for an input line.
#[derive(Clone, Copy, Debug, PartialEq, Eq, Structural)]
pub enum EdgeDetection {
    /// Edge detection is only enabled on rising edges.
    ///
    /// A rising edge means a transition from an inactive state to an active state.
    RisingEdge,
    /// Edge detection is only enabled on falling edges.
    ///
    /// A falling edge means a transition from an active state to an inactive state.
    FallingEdge,
    /// Edge detection is enabled on both rising and falling edges.
    BothEdges,
}

/// The edge detection indicated by v2 line flags.
pub open spec fn v2_edge_detection(flags: u64) -> Option<EdgeDetection> {
    if has_flags64(flags, V2_EDGE_RISING) && has_flags64(flags, V2_EDGE_FALLING) {
        Some(EdgeDetection::BothEdges)
    } else if has_flags64(flags, V2_EDGE_RISING) {
        Some(EdgeDetection::RisingEdge)
    } else if has_flags64(flags, V2_EDGE_FALLING) {
        Some(EdgeDetection::FallingEdge)
    } else {
        None
    }
}

impl EdgeDetection {
    /// The edge detection indicated by v2 line flags, or `Err` if no edge
    /// flag is set.
    pub fn try_from_v2_flags(flags: u64) -> (r: Result<EdgeDetection, ()>)
        ensures
            r == (match v2_edge_detection(flags) {
                Some(e) => Ok(e),
                None => Err(()),
            }),
    {
        let both: u64 = V2_EDGE_RISING | V2_EDGE_FALLING;
        assert(forall|f: u64|
            (#[trigger] (f & (16u64 | 32u64)) == (16u64 | 32u64)) == (f & 16u64 == 16u64 && f
                & 32u64 == 32u64)) by (bit_vector);
        if flags & both == both {
            return Ok(EdgeDetection::BothEdges);
        }
        if flags & V2_EDGE_RISING == V2_EDGE_RISING {
            return Ok(EdgeDetection::RisingEdge);
        }
        if flags & V2_EDGE_FALLING == V2_EDGE_FALLING {
            return Ok(EdgeDetection::FallingEdge);
        }
        Err(())
    }
}

/// The available clock sources for edge event timestamps.
#[derive(Clone, Copy, Debug, PartialEq, Eq, Structural)]
pub enum EventClock {
    /// The **CLOCK_MONOTONIC** is used as the source for edge event timestamps.
    ///
    /// This is the default for ABI v2.
    Monotonic,
    /// The **CLOCK_REALTIME** is used as the source for edge event timestamps.
    Realtime,
    /// The hardware timestamp engine provides event timestamps.
    ///
    /// This source requires a Linux kernel 5.19 or later with CONFIG_HTE
    /// enabled and suitable supporting hardware.
    Hte,
}

impl Default for EventClock {
    fn default() -> (c: Self)
        ensures
            c == EventClock::Monotonic,
    {
        EventClock::Monotonic
    }
}

/// The event clock indicated by v2 line flags: realtime, then HTE, else
/// monotonic.
pub open spec fn v2_event_clock(flags: u64) -> EventClock {
    if has_flags64(flags, V2_EVENT_CLOCK_REALTIME) {
        EventClock::Realtime
    } else if has_flags64(flags, V2_EVENT_CLOCK_HTE) {
        EventClock::Hte
    } else {
        EventClock::Monotonic
    }
}

impl EventClock {
    /// The event clock indicated by v2 line flags.
    pub fn from_v2_flags(flags: u64) -> (c: EventClock)
        ensures
            c == v2_event_clock(flags),
    {
        if flags & V2_EVENT_CLOCK_REALTIME == V2_EVENT_CLOCK_REALTIME {
            return EventClock::Realtime;
        }
        if flags & V2_EVENT_CLOCK_HTE == V2_EVENT_CLOCK_HTE {
            return EventClock::Hte;
        }
        EventClock::Monotonic
    }
}

} // verus!
