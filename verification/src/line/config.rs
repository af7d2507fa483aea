//! The configuration settings for a single line.
use super::{
    v2_bias, v2_direction, v2_drive, v2_edge_detection, v2_event_clock, Bias, Direction, Drive,
    EdgeDetection, EventClock, Period, Value,
};
use crate::uapi::{
    has_flags32, has_flags64, V1_EVENT_BOTH_EDGES, V1_EVENT_FALLING_EDGE, V1_EVENT_RISING_EDGE,
    V1_HANDLE_ACTIVE_LOW, V1_HANDLE_BIAS_DISABLED, V1_HANDLE_BIAS_PULL_DOWN,
    V1_HANDLE_BIAS_PULL_UP, V1_HANDLE_INPUT, V1_HANDLE_OPEN_DRAIN, V1_HANDLE_OPEN_SOURCE,
    V1_HANDLE_OUTPUT, V2_ACTIVE_LOW, V2_BIAS_DISABLED, V2_BIAS_PULL_DOWN, V2_BIAS_PULL_UP,
    V2_EDGE_FALLING, V2_EDGE_RISING, V2_EVENT_CLOCK_HTE, V2_EVENT_CLOCK_REALTIME, V2_INPUT,
    V2_OPEN_DRAIN, V2_OPEN_SOURCE, V2_OUTPUT, V2_USED,
};
use vstd::prelude::*;

verus! {

/// The configuration settings for a single line.
///
/// It does not contain the offset so it can be applied to multiple lines.
#[derive(Clone, Copy, Debug, PartialEq, Eq, Structural)]
pub struct Config {
    /// The direction setting for the line.
    pub direction: Option<Direction>,
    /// The active low setting for the line.
    pub active_low: bool,
    /// The bias setting for the line.
    pub bias: Option<Bias>,
    /// The drive setting for the line.
    ///
    /// Only relevant for output lines.
    pub drive: Option<Drive>,
    /// The edge detection setting for the line.
    ///
    /// Only relevant for input lines.
    pub edge_detection: Option<EdgeDetection>,
    /// The source clock for edge event timestamps.
    ///
    /// Only relevant for input lines with edge detection enabled.
    pub event_clock: Option<EventClock>,
    /// The debounce period.
    ///
    /// Setting the debounce period filters edges occuring at a rate faster than
    /// that period.
    ///
    /// Only relevant for input lines with edge detection enabled.
    pub debounce_period: Option<Period>,
    /// The logical value to be applied to the line if it is an output.
    pub value: Option<Value>,
}

/// The configuration with every setting left unspecified.
pub open spec fn default_config() -> Config {
    Config {
        direction: None,
        active_low: false,
        bias: None,
        drive: None,
        edge_detection: None,
        event_clock: None,
        debounce_period: None,
        value: None,
    }
}

impl Default for Config {
    fn default() -> (c: Self)
        ensures
            c == default_config(),
    {
        Config {
            direction: None,
            active_low: false,
            bias: None,
            drive: None,
            edge_detection: None,
            event_clock: None,
            debounce_period: None,
            value: None,
        }
    }
}

/// Two configs agree on every setting other than the line value.
pub open spec fn configs_equivalent(l: Config, r: Config) -> bool {
    &&& l.direction == r.direction
    &&& l.active_low == r.active_low
    &&& l.bias == r.bias
    &&& l.drive == r.drive
    &&& l.edge_detection == r.edge_detection
    &&& l.event_clock == r.event_clock
    &&& l.debounce_period == r.debounce_period
}

/// The effective value of a config: the value set, or inactive if unset.
pub open spec fn effective_value(c: Config) -> Value {
    match c.value {
        None => Value::Inactive,
        Some(v) => v,
    }
}

/// The v2 flag for a bias setting.
pub open spec fn v2_bias_flags(bias: Option<Bias>) -> u64 {
    match bias {
        None => 0,
        Some(Bias::PullUp) => V2_BIAS_PULL_UP,
        Some(Bias::PullDown) => V2_BIAS_PULL_DOWN,
        Some(Bias::Disabled) => V2_BIAS_DISABLED,
    }
}

/// The v2 flag for a drive setting; push-pull has none.
pub open spec fn v2_drive_flags(drive: Option<Drive>) -> u64 {
    match drive {
        Some(Drive::OpenDrain) => V2_OPEN_DRAIN,
        Some(Drive::OpenSource) => V2_OPEN_SOURCE,
        _ => 0,
    }
}

/// The v2 flags for an edge detection setting.
pub open spec fn v2_edge_flags(edge: Option<EdgeDetection>) -> u64 {
    match edge {
        None => 0,
        Some(EdgeDetection::RisingEdge) => V2_EDGE_RISING,
        Some(EdgeDetection::FallingEdge) => V2_EDGE_FALLING,
        Some(EdgeDetection::BothEdges) => V2_EDGE_RISING | V2_EDGE_FALLING,
    }
}

/// The v2 flag for an event clock setting, which applies only where edge
/// detection is enabled; monotonic has none.
pub open spec fn v2_clock_flags(edge: Option<EdgeDetection>, clock: Option<EventClock>) -> u64 {
    if edge is Some {
        match clock {
            Some(EventClock::Realtime) => V2_EVENT_CLOCK_REALTIME,
            Some(EventClock::Hte) => V2_EVENT_CLOCK_HTE,
            _ => 0,
        }
    } else {
        0
    }
}

/// The v2 flags for the direction of a config, with the settings that apply
/// only to that direction: drive for outputs, edge detection and event clock
/// for inputs.
pub open spec fn v2_direction_flags(c: Config) -> u64 {
    match c.direction {
        None => 0,
        Some(Direction::Output) => V2_OUTPUT | v2_drive_flags(c.drive),
        Some(Direction::Input) => V2_INPUT | v2_edge_flags(c.edge_detection) | v2_clock_flags(
            c.edge_detection,
            c.event_clock,
        ),
    }
}

/// The v2 line flags for a config.
pub open spec fn config_v2_flags(c: Config) -> u64 {
    (if c.active_low {
        V2_ACTIVE_LOW
    } else {
        0u64
    }) | v2_bias_flags(c.bias) | v2_direction_flags(c)
}

/// The v1 handle request flag for a bias setting.
pub open spec fn v1_bias_flags(bias: Option<Bias>) -> u32 {
    match bias {
        None => 0,
        Some(Bias::PullUp) => V1_HANDLE_BIAS_PULL_UP,
        Some(Bias::PullDown) => V1_HANDLE_BIAS_PULL_DOWN,
        Some(Bias::Disabled) => V1_HANDLE_BIAS_DISABLED,
    }
}

/// The v1 handle request flags for the direction of a config, with the
/// drive for outputs.
pub open spec fn v1_direction_flags(c: Config) -> u32 {
    match c.direction {
        None => 0,
        Some(Direction::Input) => V1_HANDLE_INPUT,
        Some(Direction::Output) => V1_HANDLE_OUTPUT | match c.drive {
            Some(Drive::OpenDrain) => V1_HANDLE_OPEN_DRAIN,
            Some(Drive::OpenSource) => V1_HANDLE_OPEN_SOURCE,
            _ => 0u32,
        },
    }
}

/// The v1 handle request flags for a config.
pub open spec fn config_v1_handle_flags(c: Config) -> u32 {
    v1_direction_flags(c) | (if c.active_low {
        V1_HANDLE_ACTIVE_LOW
    } else {
        0u32
    }) | v1_bias_flags(c.bias)
}

/// The v1 event request flags for a config.
pub open spec fn config_v1_event_flags(c: Config) -> u32 {
    match c.edge_detection {
        Some(EdgeDetection::RisingEdge) => V1_EVENT_RISING_EDGE,
        Some(EdgeDetection::FallingEdge) => V1_EVENT_FALLING_EDGE,
        Some(EdgeDetection::BothEdges) => V1_EVENT_BOTH_EDGES,
        None => 0,
    }
}

impl Config {
    /// Check that two configs are equivalent, ignoring the line value.
    pub fn equivalent(&self, right: &Config) -> (r: bool)
        ensures
            r == configs_equivalent(*self, *right),
    {
        (self.direction == right.direction) && (self.active_low == right.active_low) && (self.bias
            == right.bias) && (self.drive == right.drive) && (self.edge_detection
            == right.edge_detection) && (self.event_clock == right.event_clock) && (
        self.debounce_period == right.debounce_period)
    }

    /// The effective value specified by the config: inactive unless set.
    pub fn value(&self) -> (v: Value)
        ensures
            v == effective_value(*self),
    {
        match self.value {
            None => Value::Inactive,
            Some(x) => x,
        }
    }

    /// The v2 line flags that represent the config.
    ///
    /// Drive applies only to outputs, edge detection only to inputs, and the
    /// event clock only to inputs with edge detection.
    pub fn to_v2_flags(&self) -> (flags: u64)
        ensures
            flags == config_v2_flags(*self),
    {
        let al: u64 = if self.active_low {
            V2_ACTIVE_LOW
        } else {
            0
        };
        let bias: u64 = match self.bias {
            None => 0,
            Some(Bias::PullUp) => V2_BIAS_PULL_UP,
            Some(Bias::PullDown) => V2_BIAS_PULL_DOWN,
            Some(Bias::Disabled) => V2_BIAS_DISABLED,
        };
        let dir: u64 = match self.direction {
            None => 0,
            Some(Direction::Output) => {
                let drive: u64 = match self.drive {
                    Some(Drive::OpenDrain) => V2_OPEN_DRAIN,
                    Some(Drive::OpenSource) => V2_OPEN_SOURCE,
                    _ => 0,
                };
                V2_OUTPUT | drive
            },
            Some(Direction::Input) => {
                let edge: u64 = match self.edge_detection {
                    None => 0,
                    Some(EdgeDetection::RisingEdge) => V2_EDGE_RISING,
                    Some(EdgeDetection::FallingEdge) => V2_EDGE_FALLING,
                    Some(EdgeDetection::BothEdges) => V2_EDGE_RISING | V2_EDGE_FALLING,
                };
                let clock: u64 = if self.edge_detection.is_some() {
                    match self.event_clock {
                        Some(EventClock::Realtime) => V2_EVENT_CLOCK_REALTIME,
                        Some(EventClock::Hte) => V2_EVENT_CLOCK_HTE,
                        _ => 0,
                    }
                } else {
                    0
                };
                V2_INPUT | edge | clock
            },
        };
        al | bias | dir
    }

    /// The v1 handle request flags that represent the config.
    ///
    /// Drive applies only to outputs.
    pub fn to_v1_handle_flags(&self) -> (flags: u32)
        ensures
            flags == config_v1_handle_flags(*self),
    {
        let dir: u32 = match self.direction {
            None => 0,
            Some(Direction::Input) => V1_HANDLE_INPUT,
            Some(Direction::Output) => {
                let drive: u32 = match self.drive {
                    Some(Drive::OpenDrain) => V1_HANDLE_OPEN_DRAIN,
                    Some(Drive::OpenSource) => V1_HANDLE_OPEN_SOURCE,
                    _ => 0,
                };
                V1_HANDLE_OUTPUT | drive
            },
        };
        let al: u32 = if self.active_low {
            V1_HANDLE_ACTIVE_LOW
        } else {
            0
        };
        let bias: u32 = match self.bias {
            None => 0,
            Some(Bias::PullUp) => V1_HANDLE_BIAS_PULL_UP,
            Some(Bias::PullDown) => V1_HANDLE_BIAS_PULL_DOWN,
            Some(Bias::Disabled) => V1_HANDLE_BIAS_DISABLED,
        };
        dir | al | bias
    }

    /// The v1 event request flags that represent the edge detection of the
    /// config.
    pub fn to_v1_event_flags(&self) -> (flags: u32)
        ensures
            flags == config_v1_event_flags(*self),
    {
        match self.edge_detection {
            Some(EdgeDetection::RisingEdge) => V1_EVENT_RISING_EDGE,
            Some(EdgeDetection::FallingEdge) => V1_EVENT_FALLING_EDGE,
            Some(EdgeDetection::BothEdges) => V1_EVENT_BOTH_EDGES,
            None => 0,
        }
    }
}

/// The settings of an output config decode from its v2 line flags.
proof fn lemma_v2_output_flags(al: u64, b: u64, d: u64)
    by (bit_vector)
    requires
        al == 0 || al == 2,
        b == 0 || b == 256 || b == 512 || b == 1024,
        d == 0 || d == 64 || d == 128,
    ensures
        ((al | b | (8u64 | d)) & 1 != 1),
        ((al | b | (8u64 | d)) & 8 == 8),
        ((al | b | (8u64 | d)) & 4 != 4),
        ((al | b | (8u64 | d)) & 2 == 2) == (al == 2),
        ((al | b | (8u64 | d)) & 256 == 256) == (b == 256),
        ((al | b | (8u64 | d)) & 512 == 512) == (b == 512),
        ((al | b | (8u64 | d)) & 1024 == 1024) == (b == 1024),
        ((al | b | (8u64 | d)) & 64 == 64) == (d == 64),
        ((al | b | (8u64 | d)) & 128 == 128) == (d == 128),
        ((al | b | (8u64 | d)) & 16 != 16),
        ((al | b | (8u64 | d)) & 32 != 32),
        ((al | b | (8u64 | d)) & 2048 != 2048),
        ((al | b | (8u64 | d)) & 4096 != 4096),
{
}

/// The settings of an input config decode from its v2 line flags.
proof fn lemma_v2_input_flags(al: u64, b: u64, e: u64, c: u64)
    by (bit_vector)
    requires
        al == 0 || al == 2,
        b == 0 || b == 256 || b == 512 || b == 1024,
        e == 0 || e == 16 || e == 32 || e == 48,
        c == 0 || c == 2048 || c == 4096,
    ensures
        ((al | b | (4u64 | e | c)) & 1 != 1),
        ((al | b | (4u64 | e | c)) & 8 != 8),
        ((al | b | (4u64 | e | c)) & 4 == 4),
        ((al | b | (4u64 | e | c)) & 2 == 2) == (al == 2),
        ((al | b | (4u64 | e | c)) & 256 == 256) == (b == 256),
        ((al | b | (4u64 | e | c)) & 512 == 512) == (b == 512),
        ((al | b | (4u64 | e | c)) & 1024 == 1024) == (b == 1024),
        ((al | b | (4u64 | e | c)) & 64 != 64),
        ((al | b | (4u64 | e | c)) & 128 != 128),
        ((al | b | (4u64 | e | c)) & 16 == 16) == (e == 16 || e == 48),
        ((al | b | (4u64 | e | c)) & 32 == 32) == (e == 32 || e == 48),
        ((al | b | (4u64 | e | c)) & 2048 == 2048) == (c == 2048),
        ((al | b | (4u64 | e | c)) & 4096 == 4096) == (c == 4096),
{
}

/// The settings of a config without a direction decode from its v2 line
/// flags.
proof fn lemma_v2_as_is_flags(al: u64, b: u64)
    by (bit_vector)
    requires
        al == 0 || al == 2,
        b == 0 || b == 256 || b == 512 || b == 1024,
    ensures
        ((al | b | 0u64) & 1 != 1),
        ((al | b | 0u64) & 8 != 8),
        ((al | b | 0u64) & 4 != 4),
        ((al | b | 0u64) & 2 == 2) == (al == 2),
        ((al | b | 0u64) & 256 == 256) == (b == 256),
        ((al | b | 0u64) & 512 == 512) == (b == 512),
        ((al | b | 0u64) & 1024 == 1024) == (b == 1024),
        ((al | b | 0u64) & 64 != 64),
        ((al | b | 0u64) & 128 != 128),
        ((al | b | 0u64) & 16 != 16),
        ((al | b | 0u64) & 32 != 32),
        ((al | b | 0u64) & 2048 != 2048),
        ((al | b | 0u64) & 4096 != 4096),
{
}

/// The settings of a config can be read back from the v2 line flags that
/// represent it: the direction, active low and bias always; the drive of an
/// output, with push-pull for an unset drive; the edge detection of an
/// input; and the event clock of an input with edge detection, with
/// monotonic for an unset clock.  Inputs report no drive, and lines without
/// edge detection report no edges.  Flag by flag: the bias flag is the one
/// the bias names, the drive flags are set only for outputs, the edge flags
/// only for inputs, and the event clock flags only for inputs with edge
/// detection.
pub proof fn lemma_v2_flags_roundtrip(c: Config)
    ensures
        has_flags64(config_v2_flags(c), V2_OUTPUT) == (c.direction == Some(Direction::Output)),
        has_flags64(config_v2_flags(c), V2_INPUT) == (c.direction == Some(Direction::Input)),
        has_flags64(config_v2_flags(c), V2_ACTIVE_LOW) == c.active_low,
        v2_bias(config_v2_flags(c)) == c.bias,
        c.direction is Some ==> v2_direction(config_v2_flags(c)) == c.direction.unwrap(),
        c.direction == Some(Direction::Output) ==> v2_drive(config_v2_flags(c)) == Some(
            match c.drive {
                None => Drive::PushPull,
                Some(d) => d,
            },
        ),
        c.direction != Some(Direction::Output) ==> v2_drive(config_v2_flags(c)) == None::<Drive>,
        c.direction == Some(Direction::Input) ==> v2_edge_detection(config_v2_flags(c))
            == c.edge_detection,
        c.direction != Some(Direction::Input) ==> v2_edge_detection(config_v2_flags(c)) == None::<
            EdgeDetection,
        >,
        c.direction == Some(Direction::Input) && c.edge_detection is Some ==> v2_event_clock(
            config_v2_flags(c),
        ) == match c.event_clock {
            None => EventClock::Monotonic,
            Some(k) => k,
        },
        !has_flags64(config_v2_flags(c), V2_USED),
        has_flags64(config_v2_flags(c), V2_BIAS_PULL_UP) == (c.bias == Some(Bias::PullUp)),
        has_flags64(config_v2_flags(c), V2_BIAS_PULL_DOWN) == (c.bias == Some(Bias::PullDown)),
        has_flags64(config_v2_flags(c), V2_BIAS_DISABLED) == (c.bias == Some(Bias::Disabled)),
        has_flags64(config_v2_flags(c), V2_OPEN_DRAIN) == (c.direction == Some(Direction::Output)
            && c.drive == Some(Drive::OpenDrain)),
        has_flags64(config_v2_flags(c), V2_OPEN_SOURCE) == (c.direction == Some(
            Direction::Output,
        ) && c.drive == Some(Drive::OpenSource)),
        has_flags64(config_v2_flags(c), V2_EDGE_RISING) == (c.direction == Some(Direction::Input)
            && (c.edge_detection == Some(EdgeDetection::RisingEdge) || c.edge_detection == Some(
            EdgeDetection::BothEdges,
        ))),
        has_flags64(config_v2_flags(c), V2_EDGE_FALLING) == (c.direction == Some(
            Direction::Input,
        ) && (c.edge_detection == Some(EdgeDetection::FallingEdge) || c.edge_detection == Some(
            EdgeDetection::BothEdges,
        ))),
        has_flags64(config_v2_flags(c), V2_EVENT_CLOCK_REALTIME) == (c.direction == Some(
            Direction::Input,
        ) && c.edge_detection is Some && c.event_clock == Some(EventClock::Realtime)),
        has_flags64(config_v2_flags(c), V2_EVENT_CLOCK_HTE) == (c.direction == Some(
            Direction::Input,
        ) && c.edge_detection is Some && c.event_clock == Some(EventClock::Hte)),
{
    let al: u64 = if c.active_low {
        V2_ACTIVE_LOW
    } else {
        0u64
    };
    let b = v2_bias_flags(c.bias);
    assert((16u64 | 32u64) == 48u64) by (bit_vector);
    match c.direction {
        None => {
            lemma_v2_as_is_flags(al, b);
        },
        Some(Direction::Output) => {
            lemma_v2_output_flags(al, b, v2_drive_flags(c.drive));
        },
        Some(Direction::Input) => {
            let e = v2_edge_flags(c.edge_detection);
            lemma_v2_input_flags(al, b, e, v2_clock_flags(c.edge_detection, c.event_clock));
        },
    }
}


/// The settings of a config decode from its v1 handle request flags.
proof fn lemma_v1_handle_bits(d: u32, al: u32, b: u32)
    by (bit_vector)
    requires
        d == 0 || d == 1 || d == 2 || d == 10 || d == 18,
        al == 0 || al == 4,
        b == 0 || b == 32 || b == 64 || b == 128,
    ensures
        ((d | al | b) & 1 == 1) == (d == 1),
        ((d | al | b) & 2 == 2) == (d == 2 || d == 10 || d == 18),
        ((d | al | b) & 4 == 4) == (al == 4),
        ((d | al | b) & 8 == 8) == (d == 10),
        ((d | al | b) & 16 == 16) == (d == 18),
        ((d | al | b) & 32 == 32) == (b == 32),
        ((d | al | b) & 64 == 64) == (b == 64),
        ((d | al | b) & 128 == 128) == (b == 128),
{
}

/// The v1 handle request flags of a config say what the config does, flag
/// by flag: input and output by the direction, active low whatever the
/// direction, open drain and open source only for outputs with that drive,
/// and the bias flag the bias names.  The v1 event request flags say which
/// edges are detected.
pub proof fn lemma_v1_flags_roundtrip(c: Config)
    ensures
        has_flags32(config_v1_handle_flags(c), V1_HANDLE_INPUT) == (c.direction == Some(
            Direction::Input,
        )),
        has_flags32(config_v1_handle_flags(c), V1_HANDLE_OUTPUT) == (c.direction == Some(
            Direction::Output,
        )),
        has_flags32(config_v1_handle_flags(c), V1_HANDLE_ACTIVE_LOW) == c.active_low,
        has_flags32(config_v1_handle_flags(c), V1_HANDLE_OPEN_DRAIN) == (c.direction == Some(
            Direction::Output,
        ) && c.drive == Some(Drive::OpenDrain)),
        has_flags32(config_v1_handle_flags(c), V1_HANDLE_OPEN_SOURCE) == (c.direction == Some(
            Direction::Output,
        ) && c.drive == Some(Drive::OpenSource)),
        has_flags32(config_v1_handle_flags(c), V1_HANDLE_BIAS_PULL_UP) == (c.bias == Some(
            Bias::PullUp,
        )),
        has_flags32(config_v1_handle_flags(c), V1_HANDLE_BIAS_PULL_DOWN) == (c.bias == Some(
            Bias::PullDown,
        )),
        has_flags32(config_v1_handle_flags(c), V1_HANDLE_BIAS_DISABLED) == (c.bias == Some(
            Bias::Disabled,
        )),
        has_flags32(config_v1_event_flags(c), V1_EVENT_RISING_EDGE) == (c.edge_detection == Some(
            EdgeDetection::RisingEdge,
        ) || c.edge_detection == Some(EdgeDetection::BothEdges)),
        has_flags32(config_v1_event_flags(c), V1_EVENT_FALLING_EDGE) == (c.edge_detection
            == Some(EdgeDetection::FallingEdge) || c.edge_detection == Some(
            EdgeDetection::BothEdges,
        )),
{
    assert((2u32 | 8u32) == 10u32 && (2u32 | 16u32) == 18u32 && (2u32 | 0u32) == 2u32) by (bit_vector);
    assert((0u32 & 1u32) == 0u32 && (0u32 & 2u32) == 0u32 && (1u32 & 1u32) == 1u32 && (1u32
        & 2u32) == 0u32 && (2u32 & 1u32) == 0u32 && (2u32 & 2u32) == 2u32 && (3u32 & 1u32)
        == 1u32 && (3u32 & 2u32) == 2u32) by (bit_vector);
    let al: u32 = if c.active_low {
        4u32
    } else {
        0u32
    };
    lemma_v1_handle_bits(v1_direction_flags(c), al, v1_bias_flags(c.bias));
}

} // verus!
