//! A builder of requests for lines.
use super::config::{
    all_equivalent, chip_after, chip_for, configs_with_added, debounce_of, direction_config,
    input_config, multiple_chips_error, needed_attrs, output_config, selected_updated,
    shared_config_error, v1_config_value, v2_config_applies, with_added, without, without_all,
    attr_limit_error, most_common_flags, found_lines_failed_at, v2_attrs_laid_out, Config,
};
use crate::line::config::{config_v1_event_flags, config_v1_handle_flags};
use crate::line::{self, Bias, Direction, Drive, EdgeDetection, EventClock, Offset, Period, Value, Values};
use crate::text::{decimal, decimal_spec};
use crate::uapi::{
    EventRequestV1, HandleRequestV1, LineRequestV2, UapiRequest, NUM_ATTRS_MAX, NUM_LINES_MAX,
};
use crate::{same_error, AbiVersion, Error, FoundLine};
use vstd::prelude::*;
use vstd::string::StringExecFns;

verus! {

/// A builder of line requests.
///
/// Collects the configuration for a request, and the attributes that
/// cannot be changed once the request is made, then forms the request in
/// the form of a uAPI version.
#[derive(Debug, PartialEq, Eq)]
pub struct Builder {
    cfg: Config,
    consumer: String,
    kernel_event_buffer_size: u32,
    user_event_buffer_size: usize,
    err: Option<Error>,
    abiv: Option<AbiVersion>,
}

/// The consumer name used when none is given: the library name and the id
/// of the process.
pub open spec fn default_consumer_spec(pid: u32) -> Seq<char> {
    "gpiocdev-p"@ + decimal_spec(pid as nat)
}

/// The consumer name used when none is given, for the process `pid`.
pub fn default_consumer(pid: u32) -> (s: String)
    ensures
        s@ == default_consumer_spec(pid),
{
    let mut s = String::from_str("gpiocdev-p");
    let n = decimal(pid as u64);
    s.append(n.as_str());
    s
}

/// The error for a request with no lines.
pub open spec fn no_lines_error(e: Error) -> bool {
    e matches Error::InvalidArgument(m) && m@ == "No lines specified."@
}

/// The error for a request with too many lines.
pub open spec fn too_many_lines_error(e: Error, n: nat) -> bool {
    e matches Error::InvalidArgument(m) && m@ == "Requested "@ + decimal_spec(n)
        + " lines is greater than the maximum of 64."@
}

/// The error for a v1 request with a setting v1 does not support.
pub open spec fn v1_limit_error(e: Error, what: Seq<char>) -> bool {
    e matches Error::AbiLimitation(v, m) && v == AbiVersion::V1 && m@ == what
}

impl Builder {
    /// The builder is well formed: its configuration is.
    pub open spec fn wf(&self) -> bool {
        self.config_of().wf()
    }

    /// The configuration for the request.
    pub closed spec fn config_of(&self) -> Config {
        self.cfg
    }

    /// The consumer name for the request, empty for the default.
    pub closed spec fn consumer_name(&self) -> Seq<char> {
        self.consumer@
    }

    /// The size of the kernel event buffer, zero for the kernel default.
    pub closed spec fn kernel_buffer(&self) -> u32 {
        self.kernel_event_buffer_size
    }

    /// The size of the user event buffer, zero for one event.
    pub closed spec fn user_buffer(&self) -> usize {
        self.user_event_buffer_size
    }

    /// The error recorded by a mutator, to be returned by the request.
    pub closed spec fn pending(&self) -> Option<Error> {
        self.err
    }

    /// The ABI version selected for the request, if any.
    pub closed spec fn abi(&self) -> Option<AbiVersion> {
        self.abiv
    }

    /// A builder with nothing set.
    pub fn new() -> (b: Builder)
        ensures
            b.wf(),
            b.config_of().chip_path() == Seq::<char>::empty(),
            b.config_of().line_offsets() == Seq::<Offset>::empty(),
            b.config_of().selected_lines() == Seq::<Offset>::empty(),
            b.config_of().base_config() == line::config::default_config(),
            b.consumer_name() == Seq::<char>::empty(),
            b.kernel_buffer() == 0,
            b.user_buffer() == 0,
            b.pending() is None,
            b.abi() is None,
    {
        Builder {
            cfg: Config::new(),
            consumer: String::new(),
            kernel_event_buffer_size: 0,
            user_event_buffer_size: 0,
            err: None,
            abiv: None,
        }
    }

    /// A builder for the given configuration, with nothing else set.
    pub fn from_config(cfg: Config) -> (b: Builder)
        ensures
            b.config_of() == cfg,
            b.consumer_name() == Seq::<char>::empty(),
            b.kernel_buffer() == 0,
            b.user_buffer() == 0,
            b.pending() is None,
            b.abi() is None,
    {
        Builder {
            cfg,
            consumer: String::new(),
            kernel_event_buffer_size: 0,
            user_event_buffer_size: 0,
            err: None,
            abiv: None,
        }
    }

    /// Replace the configuration for the request.
    pub fn with_config(&mut self, cfg: Config) -> (r: &mut Self)
        ensures
            r.config_of() == cfg,
            r.consumer_name() == old(self).consumer_name(),
            r.kernel_buffer() == old(self).kernel_buffer(),
            r.user_buffer() == old(self).user_buffer(),
            r.pending() == old(self).pending(),
            r.abi() == old(self).abi(),
            *final(self) == *final(r),
    {
        self.cfg = cfg;
        self
    }

    /// A copy of the configuration for the request.
    pub fn config(&self) -> (c: Config)
        ensures
            c.wf() == self.config_of().wf(),
            c.chip_path() == self.config_of().chip_path(),
            c.base_config() == self.config_of().base_config(),
            c.line_offsets() == self.config_of().line_offsets(),
            c.selected_lines() == self.config_of().selected_lines(),
            c.line_configs() == self.config_of().line_configs(),
    {
        self.cfg.clone()
    }

    /// The configuration for the request.
    pub fn config_ref(&self) -> (c: &Config)
        ensures
            *c == self.config_of(),
    {
        &self.cfg
    }

    /// The consumer name for the request, empty for the default.
    pub fn consumer(&self) -> (s: &str)
        ensures
            s@ == self.consumer_name(),
    {
        self.consumer.as_str()
    }

    /// The size of the kernel event buffer, zero for the kernel default.
    pub fn kernel_event_buffer_size(&self) -> (n: u32)
        ensures
            n == self.kernel_buffer(),
    {
        self.kernel_event_buffer_size
    }

    /// The size of the user event buffer, zero for one event.
    pub fn user_event_buffer_size(&self) -> (n: usize)
        ensures
            n == self.user_buffer(),
    {
        self.user_event_buffer_size
    }

    /// The ABI version selected for the request, if any.
    pub fn abi_version(&self) -> (v: Option<AbiVersion>)
        ensures
            v == self.abi(),
    {
        self.abiv
    }

    /// Set the consumer name for the request.
    pub fn with_consumer(&mut self, consumer: &str) -> (r: &mut Self)
        ensures
            r.config_of() == old(self).config_of(),
            r.consumer_name() == consumer@,
            r.kernel_buffer() == old(self).kernel_buffer(),
            r.user_buffer() == old(self).user_buffer(),
            r.pending() == old(self).pending(),
            r.abi() == old(self).abi(),
            *final(self) == *final(r),
    {
        self.consumer = String::from_str(consumer);
        self
    }

    /// Set the size of the kernel event buffer.
    pub fn with_kernel_event_buffer_size(&mut self, event_buffer_size: u32) -> (r: &mut Self)
        ensures
            r.config_of() == old(self).config_of(),
            r.consumer_name() == old(self).consumer_name(),
            r.kernel_buffer() == event_buffer_size,
            r.user_buffer() == old(self).user_buffer(),
            r.pending() == old(self).pending(),
            r.abi() == old(self).abi(),
            *final(self) == *final(r),
    {
        self.kernel_event_buffer_size = event_buffer_size;
        self
    }

    /// Set the size of the user event buffer.
    pub fn with_user_event_buffer_size(&mut self, event_buffer_size: usize) -> (r: &mut Self)
        ensures
            r.config_of() == old(self).config_of(),
            r.consumer_name() == old(self).consumer_name(),
            r.kernel_buffer() == old(self).kernel_buffer(),
            r.user_buffer() == event_buffer_size,
            r.pending() == old(self).pending(),
            r.abi() == old(self).abi(),
            *final(self) == *final(r),
    {
        self.user_event_buffer_size = event_buffer_size;
        self
    }

    /// Select the ABI version to use for the request.
    pub fn using_abi_version(&mut self, abiv: AbiVersion) -> (r: &mut Self)
        ensures
            r.config_of() == old(self).config_of(),
            r.consumer_name() == old(self).consumer_name(),
            r.kernel_buffer() == old(self).kernel_buffer(),
            r.user_buffer() == old(self).user_buffer(),
            r.pending() == old(self).pending(),
            r.abi() == Some(abiv),
            *final(self) == *final(r),
    {
        self.abiv = Some(abiv);
        self
    }

    /// Set the chip to request lines from.
    ///
    /// Once set, a different chip is an error returned by the request.
    pub fn on_chip(&mut self, path: &str) -> (r: &mut Self)
        requires
            old(self).wf(),
        ensures
            r.wf(),
            old(self).config_of().chip_path().len() == 0 ==> r.config_of().chip_path() == path@
                && r.pending() == old(self).pending(),
            old(self).config_of().chip_path().len() != 0 ==> r.config_of().chip_path() == old(
                self,
            ).config_of().chip_path(),
            old(self).config_of().chip_path().len() != 0 && old(self).config_of().chip_path()
                != path@ ==> (r.pending() matches Some(e) && multiple_chips_error(e)),
            old(self).config_of().chip_path().len() != 0 && old(self).config_of().chip_path()
                == path@ ==> r.pending() == old(self).pending(),
            r.config_of().base_config() == old(self).config_of().base_config(),
            r.config_of().line_offsets() == old(self).config_of().line_offsets(),
            r.config_of().selected_lines() == old(self).config_of().selected_lines(),
            r.config_of().line_configs() == old(self).config_of().line_configs(),
            r.consumer_name() == old(self).consumer_name(),
            r.kernel_buffer() == old(self).kernel_buffer(),
            r.user_buffer() == old(self).user_buffer(),
            r.abi() == old(self).abi(),
            *final(self) == *final(r),
    {
        if self.cfg.chip().is_empty() {
            self.cfg.on_chip(path);
        } else if !self.cfg.chip_is(path) {
            self.err = Some(Error::InvalidArgument(String::from_str("Multiple chips requested.")));
        }
        self
    }
}

/// The builders agree on everything but the configuration and any pending
/// error.
pub open spec fn same_settings(a: Builder, b: Builder) -> bool {
    &&& a.consumer_name() == b.consumer_name()
    &&& a.kernel_buffer() == b.kernel_buffer()
    &&& a.user_buffer() == b.user_buffer()
    &&& a.abi() == b.abi()
}

impl Builder {
    /// Set the selected lines to input.
    pub fn as_input(&mut self) -> (r: &mut Self)
        requires
            old(self).wf(),
        ensures
            selected_updated(old(self).config_of(), r.config_of(), |c: line::Config| input_config(c)),
            r.pending() == old(self).pending(),
            same_settings(*r, *old(self)),
            *final(self) == *final(r),
    {
        self.cfg.as_input();
        self
    }

    /// Set the selected lines to output with the given value.
    pub fn as_output(&mut self, value: Value) -> (r: &mut Self)
        requires
            old(self).wf(),
        ensures
            selected_updated(old(self).config_of(), r.config_of(), |c: line::Config| output_config(c, value)),
            r.pending() == old(self).pending(),
            same_settings(*r, *old(self)),
            *final(self) == *final(r),
    {
        self.cfg.as_output(value);
        self
    }

    /// Do not set the direction of the selected lines.
    pub fn as_is(&mut self) -> (r: &mut Self)
        requires
            old(self).wf(),
        ensures
            selected_updated(old(self).config_of(), r.config_of(), |c: line::Config| crate::request::config::as_is_config(c)),
            r.pending() == old(self).pending(),
            same_settings(*r, *old(self)),
            *final(self) == *final(r),
    {
        self.cfg.as_is();
        self
    }

    /// Set the selected lines to active low.
    pub fn as_active_low(&mut self) -> (r: &mut Self)
        requires
            old(self).wf(),
        ensures
            selected_updated(old(self).config_of(), r.config_of(), |c: line::Config| line::Config { active_low: true, ..c }),
            r.pending() == old(self).pending(),
            same_settings(*r, *old(self)),
            *final(self) == *final(r),
    {
        self.cfg.as_active_low();
        self
    }

    /// Set the selected lines to active high.
    pub fn as_active_high(&mut self) -> (r: &mut Self)
        requires
            old(self).wf(),
        ensures
            selected_updated(old(self).config_of(), r.config_of(), |c: line::Config| line::Config { active_low: false, ..c }),
            r.pending() == old(self).pending(),
            same_settings(*r, *old(self)),
            *final(self) == *final(r),
    {
        self.cfg.as_active_high();
        self
    }

    /// Set the bias setting for the selected lines.
    pub fn with_bias(&mut self, bias: Option<Bias>) -> (r: &mut Self)
        requires
            old(self).wf(),
        ensures
            selected_updated(old(self).config_of(), r.config_of(), |c: line::Config| line::Config { bias: bias, ..c }),
            r.pending() == old(self).pending(),
            same_settings(*r, *old(self)),
            *final(self) == *final(r),
    {
        self.cfg.with_bias(bias);
        self
    }

    /// Set the debounce period for the selected lines; zero disables debouncing.
    pub fn with_debounce_period(&mut self, period: Period) -> (r: &mut Self)
        requires
            old(self).wf(),
        ensures
            selected_updated(old(self).config_of(), r.config_of(), |c: line::Config| line::Config { debounce_period: debounce_of(period), ..input_config(c) }),
            r.pending() == old(self).pending(),
            same_settings(*r, *old(self)),
            *final(self) == *final(r),
    {
        self.cfg.with_debounce_period(period);
        self
    }

    /// Set the direction of the selected lines.
    pub fn with_direction(&mut self, direction: Direction) -> (r: &mut Self)
        requires
            old(self).wf(),
        ensures
            selected_updated(old(self).config_of(), r.config_of(), |c: line::Config| direction_config(c, direction)),
            r.pending() == old(self).pending(),
            same_settings(*r, *old(self)),
            *final(self) == *final(r),
    {
        self.cfg.with_direction(direction);
        self
    }

    /// Set the drive setting for the selected lines, which makes them outputs.
    pub fn with_drive(&mut self, drive: Drive) -> (r: &mut Self)
        requires
            old(self).wf(),
        ensures
            selected_updated(old(self).config_of(), r.config_of(), |c: line::Config| line::Config {
                    drive: Some(drive),
                    direction: Some(Direction::Output),
                    edge_detection: None,
                    debounce_period: None,
                    ..c
                }),
            r.pending() == old(self).pending(),
            same_settings(*r, *old(self)),
            *final(self) == *final(r),
    {
        self.cfg.with_drive(drive);
        self
    }

    /// Set the edge detection for the selected lines, which makes them inputs.
    pub fn with_edge_detection(&mut self, edge: Option<EdgeDetection>) -> (r: &mut Self)
        requires
            old(self).wf(),
        ensures
            selected_updated(old(self).config_of(), r.config_of(), |c: line::Config| line::Config { edge_detection: edge, ..input_config(c) }),
            r.pending() == old(self).pending(),
            same_settings(*r, *old(self)),
            *final(self) == *final(r),
    {
        self.cfg.with_edge_detection(edge);
        self
    }

    /// Set the clock source for edge events on the selected lines.
    pub fn with_event_clock(&mut self, event_clock: Option<EventClock>) -> (r: &mut Self)
        requires
            old(self).wf(),
        ensures
            selected_updated(old(self).config_of(), r.config_of(), |c: line::Config| line::Config { event_clock: event_clock, ..c }),
            r.pending() == old(self).pending(),
            same_settings(*r, *old(self)),
            *final(self) == *final(r),
    {
        self.cfg.with_event_clock(event_clock);
        self
    }

    /// Set the value of the selected lines.
    pub fn with_value(&mut self, value: Value) -> (r: &mut Self)
        requires
            old(self).wf(),
        ensures
            selected_updated(old(self).config_of(), r.config_of(), |c: line::Config| line::Config { value: Some(value), ..c }),
            r.pending() == old(self).pending(),
            same_settings(*r, *old(self)),
            *final(self) == *final(r),
    {
        self.cfg.with_value(value);
        self
    }

    /// Apply the given configuration to the selected lines.
    pub fn from_line_config(&mut self, lc: &line::Config) -> (r: &mut Self)
        requires
            old(self).wf(),
        ensures
            selected_updated(old(self).config_of(), r.config_of(), |c: line::Config| *lc),
            r.pending() == old(self).pending(),
            same_settings(*r, *old(self)),
            *final(self) == *final(r),
    {
        self.cfg.from_line_config(lc);
        self
    }

    /// Add a line to the request and select it alone.
    pub fn with_line(&mut self, offset: Offset) -> (r: &mut Self)
        requires
            old(self).wf(),
        ensures
            r.wf(),
            r.config_of().chip_path() == old(self).config_of().chip_path(),
            r.config_of().base_config() == old(self).config_of().base_config(),
            r.config_of().line_offsets() == with_added(old(self).config_of().line_offsets(), seq![offset]),
            r.config_of().selected_lines() == seq![offset],
            r.config_of().line_configs() == configs_with_added(old(self).config_of(), seq![offset]),
            r.pending() == old(self).pending(),
            same_settings(*r, *old(self)),
            *final(self) == *final(r),
    {
        self.cfg.with_line(offset);
        self
    }

    /// Add a set of lines to the request and select them alone, in order.
    pub fn with_lines(&mut self, offsets: &[Offset]) -> (r: &mut Self)
        requires
            old(self).wf(),
        ensures
            r.wf(),
            r.config_of().chip_path() == old(self).config_of().chip_path(),
            r.config_of().base_config() == old(self).config_of().base_config(),
            r.config_of().line_offsets() == with_added(old(self).config_of().line_offsets(), offsets@),
            r.config_of().selected_lines() == with_added(Seq::empty(), offsets@),
            r.config_of().line_configs() == configs_with_added(old(self).config_of(), offsets@),
            r.pending() == old(self).pending(),
            same_settings(*r, *old(self)),
            *final(self) == *final(r),
    {
        self.cfg.with_lines(offsets);
        self
    }

    /// Remove a line from the request.
    pub fn without_line(&mut self, offset: Offset) -> (r: &mut Self)
        requires
            old(self).wf(),
        ensures
            r.wf(),
            r.config_of().chip_path() == old(self).config_of().chip_path(),
            r.config_of().base_config() == old(self).config_of().base_config(),
            r.config_of().line_offsets() == without(old(self).config_of().line_offsets(), offset),
            r.config_of().selected_lines() == without(old(self).config_of().selected_lines(), offset),
            r.config_of().line_configs() == old(self).config_of().line_configs().remove(offset),
            r.pending() == old(self).pending(),
            same_settings(*r, *old(self)),
            *final(self) == *final(r),
    {
        self.cfg.without_line(offset);
        self
    }

    /// Remove a set of lines from the request.
    pub fn without_lines(&mut self, offsets: &[Offset]) -> (r: &mut Self)
        requires
            old(self).wf(),
        ensures
            r.wf(),
            r.config_of().chip_path() == old(self).config_of().chip_path(),
            r.config_of().base_config() == old(self).config_of().base_config(),
            r.config_of().line_offsets() == without_all(old(self).config_of().line_offsets(), offsets@),
            r.config_of().selected_lines() == without_all(old(self).config_of().selected_lines(), offsets@),
            r.config_of().line_configs() == old(self).config_of().line_configs().remove_keys(offsets@.to_set()),
            r.pending() == old(self).pending(),
            same_settings(*r, *old(self)),
            *final(self) == *final(r),
    {
        self.cfg.without_lines(offsets);
        self
    }

    /// Add the lines held in `values` to the request as outputs with those
    /// values, and select them alone.
    pub fn with_output_lines(&mut self, values: &Values) -> (r: &mut Self)
        requires
            old(self).wf(),
        ensures
            r.wf(),
            r.config_of().chip_path() == old(self).config_of().chip_path(),
            r.config_of().base_config() == old(self).config_of().base_config(),
            r.config_of().line_offsets() == with_added(
                old(self).config_of().line_offsets(),
                crate::request::config::value_offsets(values.entries()),
            ),
            r.config_of().selected_lines() == crate::request::config::value_offsets(values.entries()),
            r.config_of().line_configs() == Map::new(
                |k: Offset| old(self).config_of().line_configs().contains_key(k) || values@.contains_key(k),
                |k: Offset|
                    if values@.contains_key(k) {
                        output_config(
                            crate::request::config::config_or_base(old(self).config_of(), k),
                            values@[k],
                        )
                    } else {
                        old(self).config_of().line_configs()[k]
                    },
            ),
            r.pending() == old(self).pending(),
            same_settings(*r, *old(self)),
            *final(self) == *final(r),
    {
        self.cfg.with_output_lines(values);
        self
    }

    /// Add a found line to the request and select it alone.
    ///
    /// A line on a different chip is an error returned by the request.
    pub fn with_found_line(&mut self, line: &FoundLine) -> (r: &mut Self)
        requires
            old(self).wf(),
        ensures
            r.wf(),
            same_settings(*r, *old(self)),
            chip_for(old(self).config_of(), *line) != line.chip@ ==> r.config_of() == old(
                self,
            ).config_of(),
            chip_for(old(self).config_of(), *line) != line.chip@ ==> (r.pending() matches Some(e)
                && multiple_chips_error(e)),
            chip_for(old(self).config_of(), *line) == line.chip@ ==> {
                &&& r.pending() == old(self).pending()
                &&& r.config_of().chip_path() == line.chip@
                &&& r.config_of().base_config() == old(self).config_of().base_config()
                &&& r.config_of().line_offsets() == with_added(
                    old(self).config_of().line_offsets(),
                    seq![line.info.offset],
                )
                &&& r.config_of().selected_lines() == seq![line.info.offset]
                &&& r.config_of().line_configs() == configs_with_added(
                    old(self).config_of(),
                    seq![line.info.offset],
                )
            },
            *final(self) == *final(r),
    {
        match self.cfg.with_found_line(line) {
            Ok(_) => {},
            Err(e) => {
                self.err = Some(e);
            },
        }
        self
    }

    /// Add a set of found lines to the request, and select them.
    ///
    /// A line on a different chip is an error returned by the request.
    pub fn with_found_lines(&mut self, lines: &[FoundLine]) -> (r: &mut Self)
        requires
            old(self).wf(),
        ensures
            r.wf(),
            same_settings(*r, *old(self)),
            r.config_of().base_config() == old(self).config_of().base_config(),
            (forall|i: int|
                0 <= i < lines@.len() ==> #[trigger] lines@[i].chip@ == chip_after(
                    old(self).config_of().chip_path(),
                    lines@,
                    i + 1,
                )) ==> (r.pending() == old(self).pending() && {
                let offs = lines@.map_values(|l: FoundLine| l.info.offset);
                &&& r.config_of().chip_path() == chip_after(
                    old(self).config_of().chip_path(),
                    lines@,
                    lines@.len() as int,
                )
                &&& r.config_of().line_offsets() == with_added(old(self).config_of().line_offsets(), offs)
                &&& r.config_of().selected_lines() == (if lines@.len() == 0 {
                    old(self).config_of().selected_lines()
                } else {
                    with_added(seq![offs.last()], offs)
                })
                &&& r.config_of().line_configs() == configs_with_added(old(self).config_of(), offs)
            }),
            !(forall|i: int|
                0 <= i < lines@.len() ==> #[trigger] lines@[i].chip@ == chip_after(
                    old(self).config_of().chip_path(),
                    lines@,
                    i + 1,
                )) ==> (r.pending() matches Some(e) && multiple_chips_error(e) && exists|i: int|
                found_lines_failed_at(old(self).config_of(), r.config_of(), lines@, i)),
            *final(self) == *final(r),
    {
        match self.cfg.with_found_lines(lines) {
            Ok(_) => {},
            Err(e) => {
                self.err = Some(e);
            },
        }
        self
    }

    /// Sort the requested lines into increasing offset order, as the
    /// request requires.
    pub fn sort_lines(&mut self)
        requires
            old(self).wf(),
        ensures
            final(self).wf(),
            same_settings(*final(self), *old(self)),
            final(self).pending() == old(self).pending(),
            final(self).config_of().chip_path() == old(self).config_of().chip_path(),
            final(self).config_of().line_configs() == old(self).config_of().line_configs(),
            crate::line::value::strictly_increasing(final(self).config_of().line_offsets()),
            forall|k: Offset| #[trigger] final(self).config_of().line_offsets().contains(k)
                <==> old(self).config_of().line_offsets().contains(k),
    {
        self.cfg.sort_lines();
    }
}

/// The consumer name for a request from the builder by the process `pid`.
pub open spec fn consumer_for(b: Builder, pid: u32) -> Seq<char> {
    if b.consumer_name().len() == 0 {
        default_consumer_spec(pid)
    } else {
        b.consumer_name()
    }
}

/// The configuration of the first requested line.
pub open spec fn first_config(c: Config) -> line::Config {
    c.line_configs()[c.line_offsets()[0]]
}

/// The outcome `r` of forming a v1 request from the builder by the process
/// `pid`, which has between one and the maximum number of lines.
pub open spec fn v1_request(b: Builder, pid: u32, r: Result<UapiRequest, Error>) -> bool {
    let c = b.config_of();
    let l = first_config(c);
    if b.kernel_buffer() != 0 {
        r matches Err(e) && v1_limit_error(e, "does not support setting event buffer size"@)
    } else if !all_equivalent(c) {
        r matches Err(e) && shared_config_error(e)
    } else if l.debounce_period is Some {
        r matches Err(e) && v1_limit_error(e, "does not support debounce"@)
    } else if l.event_clock is Some {
        r matches Err(e) && v1_limit_error(e, "does not support selecting the event clock source"@)
    } else if l.edge_detection is Some && c.line_offsets().len() != 1 {
        r matches Err(e) && v1_limit_error(e, "only supports edge detection on single line requests"@)
    } else if l.edge_detection is Some {
        r matches Ok(UapiRequest::Event(er)) && er.offset == c.line_offsets()[0] && er.handleflags
            == config_v1_handle_flags(l) && er.eventflags == config_v1_event_flags(l)
            && er.consumer@ == consumer_for(b, pid)
    } else {
        r matches Ok(UapiRequest::Handle(hr)) && hr.offsets@ == c.line_offsets() && hr.flags
            == config_v1_handle_flags(l) && hr.values@ == Seq::new(
            64,
            |j: int| v1_config_value(c, j),
        ) && hr.consumer@ == consumer_for(b, pid) && hr.num_lines == c.line_offsets().len()
    }
}

/// The outcome `r` of forming a v2 request from the builder by the process
/// `pid`, which has between one and the maximum number of lines.
pub open spec fn v2_request(b: Builder, pid: u32, r: Result<UapiRequest, Error>) -> bool {
    let c = b.config_of();
    if needed_attrs(c) > NUM_ATTRS_MAX {
        r matches Err(e) && attr_limit_error(e, needed_attrs(c))
    } else {
        r matches Ok(UapiRequest::Line(lr)) && lr.offsets@ == c.line_offsets() && lr.consumer@
            == consumer_for(b, pid) && lr.event_buffer_size == b.kernel_buffer() && lr.num_lines
            == c.line_offsets().len() && v2_config_applies(c, lr.config) && most_common_flags(
            c,
            lr.config.flags,
        ) && v2_attrs_laid_out(c, lr.config)
    }
}

impl Default for Builder {
    fn default() -> (b: Self)
        ensures
            b.wf(),
            b.config_of().chip_path() == Seq::<char>::empty(),
            b.config_of().line_offsets() == Seq::<Offset>::empty(),
            b.config_of().selected_lines() == Seq::<Offset>::empty(),
            b.config_of().base_config() == line::config::default_config(),
            b.consumer_name() == Seq::<char>::empty(),
            b.kernel_buffer() == 0,
            b.user_buffer() == 0,
            b.pending() is None,
            b.abi() is None,
    {
        Builder::new()
    }
}

impl Builder {
    /// Check the builder can form a request: no mutator recorded an error
    /// and a chip is set.
    pub fn validate(&self) -> (r: Result<(), Error>)
        ensures
            self.pending() matches Some(e) ==> (r matches Err(e2) && same_error(e2, e)),
            self.pending() is None && self.config_of().chip_path().len() == 0 ==> (r matches Err(
                e,
            ) && e matches Error::InvalidArgument(m) && m@ == "No chip specified."@),
            self.pending() is None && self.config_of().chip_path().len() != 0 ==> r is Ok,
    {
        match &self.err {
            Some(e) => {
                return Err(e.clone());
            },
            None => {},
        }
        if self.cfg.chip().is_empty() {
            return Err(Error::InvalidArgument(String::from_str("No chip specified.")));
        }
        Ok(())
    }

    /// The request for the lines in the form of the uAPI version `abiv`,
    /// for the process `pid`.
    ///
    /// Fails if there are no lines or more than the uAPI supports, or if the
    /// configuration is beyond what that version can express.
    pub fn to_uapi(&self, abiv: AbiVersion, pid: u32) -> (r: Result<UapiRequest, Error>)
        requires
            self.wf(),
        ensures
            self.config_of().line_offsets().len() == 0 ==> (r matches Err(e) && no_lines_error(e)),
            self.config_of().line_offsets().len() > NUM_LINES_MAX ==> (r matches Err(e)
                && too_many_lines_error(e, self.config_of().line_offsets().len())),
            0 < self.config_of().line_offsets().len() <= NUM_LINES_MAX && abiv == AbiVersion::V1
                ==> v1_request(*self, pid, r),
            0 < self.config_of().line_offsets().len() <= NUM_LINES_MAX && abiv == AbiVersion::V2
                ==> v2_request(*self, pid, r),
    {
        let n = self.cfg.num_lines();
        if n == 0 {
            return Err(Error::InvalidArgument(String::from_str("No lines specified.")));
        }
        if n > NUM_LINES_MAX {
            let mut m = String::from_str("Requested ");
            let count = decimal(n as u64);
            m.append(count.as_str());
            m.append(" lines is greater than the maximum of 64.");
            return Err(Error::InvalidArgument(m));
        }
        match abiv {
            AbiVersion::V1 => self.to_v1(pid),
            AbiVersion::V2 => self.to_v2(pid),
        }
    }

    /// The consumer name for a request by the process `pid`.
    fn consumer_or_default(&self, pid: u32) -> (s: String)
        ensures
            s@ == consumer_for(*self, pid),
    {
        if self.consumer.as_str().is_empty() {
            default_consumer(pid)
        } else {
            self.consumer.clone()
        }
    }

    /// The v1 request for the lines.
    fn to_v1(&self, pid: u32) -> (r: Result<UapiRequest, Error>)
        requires
            self.wf(),
            0 < self.config_of().line_offsets().len() <= NUM_LINES_MAX,
        ensures
            v1_request(*self, pid, r),
    {
        if self.kernel_event_buffer_size != 0 {
            return Err(
                Error::AbiLimitation(
                    AbiVersion::V1,
                    String::from_str("does not support setting event buffer size"),
                ),
            );
        }
        let lcfg = match self.cfg.unique() {
            Ok(c) => *c,
            Err(e) => {
                return Err(e);
            },
        };
        if lcfg.debounce_period.is_some() {
            return Err(
                Error::AbiLimitation(AbiVersion::V1, String::from_str("does not support debounce")),
            );
        }
        if lcfg.event_clock.is_some() {
            return Err(
                Error::AbiLimitation(
                    AbiVersion::V1,
                    String::from_str("does not support selecting the event clock source"),
                ),
            );
        }
        let consumer = self.consumer_or_default(pid);
        let offsets = self.cfg.lines();
        if lcfg.edge_detection.is_some() {
            if offsets.len() != 1 {
                return Err(
                    Error::AbiLimitation(
                        AbiVersion::V1,
                        String::from_str("only supports edge detection on single line requests"),
                    ),
                );
            }
            return Ok(
                UapiRequest::Event(
                    EventRequestV1 {
                        offset: offsets[0],
                        handleflags: lcfg.to_v1_handle_flags(),
                        eventflags: lcfg.to_v1_event_flags(),
                        consumer,
                    },
                ),
            );
        }
        Ok(
            UapiRequest::Handle(
                HandleRequestV1 {
                    offsets: offsets.clone(),
                    flags: lcfg.to_v1_handle_flags(),
                    values: self.cfg.to_v1_values(),
                    consumer,
                    num_lines: offsets.len() as u32,
                },
            ),
        )
    }

    /// The v2 request for the lines.
    fn to_v2(&self, pid: u32) -> (r: Result<UapiRequest, Error>)
        requires
            self.wf(),
            0 < self.config_of().line_offsets().len() <= NUM_LINES_MAX,
        ensures
            v2_request(*self, pid, r),
    {
        let consumer = self.consumer_or_default(pid);
        let config = match self.cfg.to_v2() {
            Ok(c) => c,
            Err(e) => {
                return Err(e);
            },
        };
        let offsets = self.cfg.lines();
        let lr = LineRequestV2 {
            offsets: offsets.clone(),
            consumer,
            event_buffer_size: self.kernel_event_buffer_size,
            num_lines: offsets.len() as u32,
            config,
        };
        proof {
            assert(lr.offsets@ =~= self.config_of().line_offsets());
        }
        Ok(UapiRequest::Line(lr))
    }
}

} // verus!
