//! The configuration for a request for a set of lines.
use crate::line::value::{strictly_increasing, entries_map, lemma_entry_at, lemma_key_position, strictly_sorted, LineValue};
use crate::line::{self, Bias, Direction, Drive, EdgeDetection, EventClock, Offset, Period, Value, Values};
use crate::line::config::{config_v1_handle_flags, configs_equivalent, effective_value};
use crate::line::value::value_as_u8;
use crate::line::config::config_v2_flags;
use crate::line::period::micros_rounded_up;
use crate::request::grouping::{
    applied_debounce, applied_flags, applied_value, assemble_attrs, attrs_layout, count_eq,
    debounce_attr, debounce_groups, debounce_set, flag_groups, flags_attr, flags_set,
    group_debounce, group_flags, group_of_attr, lemma_layout_applies, most_common, values_attr,
};
use crate::text::{decimal, decimal_spec};
use crate::uapi::{
    bit, lemma_bit_nonzero, lemma_bit_set, lemma_bit_zero, HandleConfigV1, LineAttributeValueV2,
    LineConfigV2,
    LineValuesV1, NUM_ATTRS_MAX,
};
use crate::{AbiVersion, Error, FoundLine};
use vstd::prelude::*;
use vstd::string::StringExecFns;

verus! {

/// The elements of a sequence are distinct.
pub open spec fn distinct(s: Seq<Offset>) -> bool {
    forall|i: int, j: int| 0 <= i < j < s.len() ==> s[i] != s[j]
}

/// The position of `k` in the sequence, where it occurs.
pub open spec fn position_of(s: Seq<Offset>, k: Offset) -> int {
    choose|i: int| 0 <= i < s.len() && s[i] == k
}

/// The configuration for a request for one or more lines.
///
/// The configuration for a subset of lines is updated by selecting the lines
/// and then calling the appropriate mutators.  If no lines are selected then
/// the mutators modify the base configuration that lines inherit when they
/// are first added.
#[derive(Debug, PartialEq, Eq)]
pub struct Config {
    /// The chip to request lines from.
    chip: String,
    /// The configuration applied to lines as they are added.
    base: line::Config,
    /// The requested lines, in the order they were added.
    offsets: Vec<Offset>,
    /// The configuration of each requested line, by position in `offsets`.
    lcfg: Vec<line::Config>,
    /// The lines currently selected, in the order they were selected.
    selected: Vec<Offset>,
}

/// `new` is `old` with `f` applied to the configuration of the selected
/// lines, or to the base configuration if none are selected; nothing else
/// changes.
pub open spec fn selected_updated(old: Config, new: Config, f: spec_fn(line::Config) -> line::Config) -> bool {
    &&& new.wf()
    &&& new.chip_path() == old.chip_path()
    &&& new.line_offsets() == old.line_offsets()
    &&& new.selected_lines() == old.selected_lines()
    &&& old.selected_lines().len() == 0 ==> {
        &&& new.base_config() == f(old.base_config())
        &&& new.line_configs() == old.line_configs()
    }
    &&& old.selected_lines().len() > 0 ==> {
        &&& new.base_config() == old.base_config()
        &&& new.line_configs() == Map::new(
            |k: Offset| old.line_configs().contains_key(k),
            |k: Offset|
                if old.selected_lines().contains(k) {
                    f(old.line_configs()[k])
                } else {
                    old.line_configs()[k]
                },
        )
    }
}

/// The updates the mutators apply to the selected line configurations.
enum LineOp {
    AsInput,
    AsIs,
    AsOutput(Value),
    ActiveLow(bool),
    WithBias(Option<Bias>),
    WithDebounce(Option<Period>),
    WithDirection(Direction),
    WithDrive(Drive),
    WithEdge(Option<EdgeDetection>),
    WithClock(Option<EventClock>),
    WithValue(Value),
    Replace(line::Config),
}

/// A line configured as an input, without output settings.
pub open spec fn input_config(c: line::Config) -> line::Config {
    line::Config { direction: Some(Direction::Input), drive: None, value: None, ..c }
}

/// A line configured as an output with a value, without input settings.
pub open spec fn output_config(c: line::Config, v: Value) -> line::Config {
    line::Config {
        direction: Some(Direction::Output),
        value: Some(v),
        edge_detection: None,
        debounce_period: None,
        ..c
    }
}

/// A line left as is, without direction or the settings of either
/// direction.
pub open spec fn as_is_config(c: line::Config) -> line::Config {
    line::Config {
        direction: None,
        drive: None,
        value: None,
        edge_detection: None,
        debounce_period: None,
        ..c
    }
}

/// A line with the given direction, and the settings of the other
/// direction cleared.
pub open spec fn direction_config(c: line::Config, d: Direction) -> line::Config {
    match d {
        Direction::Output => line::Config {
            direction: Some(Direction::Output),
            edge_detection: None,
            debounce_period: None,
            ..c
        },
        Direction::Input => input_config(c),
    }
}

/// `n` is the line configuration `c` made an output with the value `v`:
/// direction output and value `v`, without the input settings of edge
/// detection and debounce, and with the active low, bias, drive and event
/// clock of `c`.
pub open spec fn made_output(n: line::Config, c: line::Config, v: Value) -> bool {
    &&& n.direction == Some(Direction::Output)
    &&& n.value == Some(v)
    &&& n.edge_detection is None
    &&& n.debounce_period is None
    &&& n.active_low == c.active_low
    &&& n.bias == c.bias
    &&& n.drive == c.drive
    &&& n.event_clock == c.event_clock
}

/// Making a line an output drops its input settings and keeps the rest.
pub proof fn lemma_output_config(c: line::Config, v: Value)
    ensures
        made_output(output_config(c, v), c, v),
        output_config(c, v).debounce_period is None,
        output_config(c, v).edge_detection is None,
{
}

/// Making a line an input drops its output settings of drive and value and
/// keeps the rest; leaving it as is drops the settings of both directions
/// and keeps its active low, bias and event clock.
pub proof fn lemma_input_and_as_is_config(c: line::Config)
    ensures
        input_config(c).direction == Some(Direction::Input),
        input_config(c).drive is None,
        input_config(c).value is None,
        input_config(c).active_low == c.active_low,
        input_config(c).bias == c.bias,
        input_config(c).edge_detection == c.edge_detection,
        input_config(c).event_clock == c.event_clock,
        input_config(c).debounce_period == c.debounce_period,
        as_is_config(c).direction is None,
        as_is_config(c).drive is None,
        as_is_config(c).value is None,
        as_is_config(c).edge_detection is None,
        as_is_config(c).debounce_period is None,
        as_is_config(c).active_low == c.active_low,
        as_is_config(c).bias == c.bias,
        as_is_config(c).event_clock == c.event_clock,
{
}

/// After `as_output(v)` each selected line, or the base configuration where
/// none is selected, is an output with the value `v` and without input
/// settings; the other lines are unchanged.
pub proof fn lemma_as_output_lines(before: Config, after: Config, v: Value)
    requires
        before.wf(),
        selected_updated(before, after, |c: line::Config| output_config(c, v)),
    ensures
        before.selected_lines().len() == 0 ==> made_output(after.base_config(), before.base_config(), v),
        forall|k: Offset|
            before.selected_lines().contains(k) && #[trigger] before.line_configs().contains_key(k)
                ==> after.line_configs().contains_key(k) && made_output(
                after.line_configs()[k],
                before.line_configs()[k],
                v,
            ),
        forall|k: Offset|
            !before.selected_lines().contains(k) && #[trigger] before.line_configs().contains_key(k)
                ==> after.line_configs().contains_key(k) && after.line_configs()[k]
                == before.line_configs()[k],
{
}

/// After `with_output_lines(values)` each line of `values` is an output
/// with its value there and without input settings, its other settings
/// taken from its previous configuration, or the base configuration for a
/// line new to the request.
pub proof fn lemma_output_lines(before: Config, after: Config, values: Map<Offset, Value>)
    requires
        after.line_configs() == Map::new(
            |k: Offset| before.line_configs().contains_key(k) || values.contains_key(k),
            |k: Offset|
                if values.contains_key(k) {
                    output_config(config_or_base(before, k), values[k])
                } else {
                    before.line_configs()[k]
                },
        ),
    ensures
        forall|k: Offset|
            #[trigger] values.contains_key(k) ==> after.line_configs().contains_key(k) && made_output(
                after.line_configs()[k],
                config_or_base(before, k),
                values[k],
            ),
{
}

/// The debounce period held for a requested period: none for zero.
pub open spec fn debounce_of(period: Period) -> Option<Period> {
    if period@ == 0 {
        None
    } else {
        Some(period)
    }
}

/// The result of applying an update to a line configuration.
spec fn apply_op(op: LineOp, c: line::Config) -> line::Config {
    match op {
        LineOp::AsInput => input_config(c),
        LineOp::AsIs => as_is_config(c),
        LineOp::AsOutput(v) => output_config(c, v),
        LineOp::ActiveLow(al) => line::Config { active_low: al, ..c },
        LineOp::WithBias(b) => line::Config { bias: b, ..c },
        LineOp::WithDebounce(dp) => line::Config { debounce_period: dp, ..input_config(c) },
        LineOp::WithDirection(d) => direction_config(c, d),
        LineOp::WithDrive(d) => line::Config {
            drive: Some(d),
            direction: Some(Direction::Output),
            edge_detection: None,
            debounce_period: None,
            ..c
        },
        LineOp::WithEdge(e) => line::Config { edge_detection: e, ..input_config(c) },
        LineOp::WithClock(k) => line::Config { event_clock: k, ..c },
        LineOp::WithValue(v) => line::Config { value: Some(v), ..c },
        LineOp::Replace(n) => n,
    }
}

/// Apply an update to a line configuration.
fn apply(op: &LineOp, c: line::Config) -> (r: line::Config)
    ensures
        r == apply_op(*op, c),
{
    match op {
        LineOp::AsInput => line::Config { direction: Some(Direction::Input), drive: None, value: None, ..c },
        LineOp::AsIs => line::Config {
            direction: None,
            drive: None,
            value: None,
            edge_detection: None,
            debounce_period: None,
            ..c
        },
        LineOp::AsOutput(v) => line::Config {
            direction: Some(Direction::Output),
            value: Some(*v),
            edge_detection: None,
            debounce_period: None,
            ..c
        },
        LineOp::ActiveLow(al) => line::Config { active_low: *al, ..c },
        LineOp::WithBias(b) => line::Config { bias: *b, ..c },
        LineOp::WithDebounce(dp) => line::Config {
            debounce_period: *dp,
            direction: Some(Direction::Input),
            drive: None,
            value: None,
            ..c
        },
        LineOp::WithDirection(d) => match d {
            Direction::Output => line::Config {
                direction: Some(Direction::Output),
                edge_detection: None,
                debounce_period: None,
                ..c
            },
            Direction::Input => line::Config {
                direction: Some(Direction::Input),
                drive: None,
                value: None,
                ..c
            },
        },
        LineOp::WithDrive(d) => line::Config {
            drive: Some(*d),
            direction: Some(Direction::Output),
            edge_detection: None,
            debounce_period: None,
            ..c
        },
        LineOp::WithEdge(e) => line::Config {
            edge_detection: *e,
            direction: Some(Direction::Input),
            drive: None,
            value: None,
            ..c
        },
        LineOp::WithClock(k) => line::Config { event_clock: *k, ..c },
        LineOp::WithValue(v) => line::Config { value: Some(*v), ..c },
        LineOp::Replace(n) => *n,
    }
}

/// Return true if the offset is in the list.
fn contains_offset(v: &Vec<Offset>, x: Offset) -> (r: bool)
    ensures
        r == v@.contains(x),
{
    let mut i: usize = 0;
    while i < v.len()
        invariant
            i <= v@.len(),
            forall|j: int| 0 <= j < i ==> v@[j] != x,
        decreases v@.len() - i,
    {
        if v[i] == x {
            return true;
        }
        i += 1;
    }
    proof {
        if v@.contains(x) {
            let j = choose|j: int| 0 <= j < v@.len() && v@[j] == x;
            assert(v@[j] != x);
        }
    }
    false
}

/// The first position of the offset in the list, if it is there.
fn position_in(v: &Vec<Offset>, x: Offset) -> (r: Option<usize>)
    ensures
        r is None <==> !v@.contains(x),
        r matches Some(i) ==> i < v@.len() && v@[i as int] == x,
{
    let mut i: usize = 0;
    while i < v.len()
        invariant
            i <= v@.len(),
            forall|j: int| 0 <= j < i ==> v@[j] != x,
        decreases v@.len() - i,
    {
        if v[i] == x {
            return Some(i);
        }
        i += 1;
    }
    proof {
        if v@.contains(x) {
            let j = choose|j: int| 0 <= j < v@.len() && v@[j] == x;
            assert(v@[j] != x);
        }
    }
    None
}

/// In a sequence of distinct elements an element's position is where it
/// occurs.
pub proof fn lemma_position(s: Seq<Offset>, i: int)
    requires
        distinct(s),
        0 <= i < s.len(),
    ensures
        s.contains(s[i]),
        position_of(s, s[i]) == i,
{
    assert(s.contains(s[i]));
    let p = position_of(s, s[i]);
    assert(s[p] == s[i]);
}

/// The lines `s` with the lines `new` added, in order, skipping those
/// already present.
pub open spec fn with_added(s: Seq<Offset>, new: Seq<Offset>) -> Seq<Offset>
    decreases new.len(),
{
    if new.len() == 0 {
        s
    } else {
        let prev = with_added(s, new.drop_last());
        if prev.contains(new.last()) {
            prev
        } else {
            prev.push(new.last())
        }
    }
}

/// The lines `s` without the line `k`.
pub open spec fn without(s: Seq<Offset>, k: Offset) -> Seq<Offset> {
    if s.contains(k) {
        s.remove(position_of(s, k))
    } else {
        s
    }
}

/// The lines `s` without the lines `rm`, removed in order.
pub open spec fn without_all(s: Seq<Offset>, rm: Seq<Offset>) -> Seq<Offset>
    decreases rm.len(),
{
    if rm.len() == 0 {
        s
    } else {
        without(without_all(s, rm.drop_last()), rm.last())
    }
}

/// Removing an element from distinct elements leaves them distinct and
/// holding exactly the others.
proof fn lemma_without(s: Seq<Offset>, k: Offset)
    requires
        distinct(s),
    ensures
        distinct(without(s, k)),
        forall|x: Offset| #[trigger] without(s, k).contains(x) <==> (s.contains(x) && x != k),
{
    if s.contains(k) {
        let p = position_of(s, k);
        let t = s.remove(p);
        assert forall|x: Offset| #[trigger] t.contains(x) <==> (s.contains(x) && x != k) by {
            if t.contains(x) {
                let i = choose|i: int| 0 <= i < t.len() && t[i] == x;
                if i < p {
                    assert(s[i] == x);
                } else {
                    assert(s[i + 1] == x);
                }
            }
            if s.contains(x) && x != k {
                let i = choose|i: int| 0 <= i < s.len() && s[i] == x;
                if i < p {
                    assert(t[i] == x);
                } else {
                    assert(i != p);
                    assert(t[i - 1] == x);
                }
            }
        }
    }
}

/// Adding an element absent from distinct elements leaves them distinct.
proof fn lemma_push_distinct(s: Seq<Offset>, k: Offset)
    requires
        distinct(s),
        !s.contains(k),
    ensures
        distinct(s.push(k)),
        forall|x: Offset| #[trigger] s.push(k).contains(x) <==> (s.contains(x) || x == k),
{
    assert forall|x: Offset| #[trigger] s.push(k).contains(x) <==> (s.contains(x) || x == k) by {
        crate::line::value::lemma_push_contains(s, k, x);
    }
    assert forall|i: int, j: int| 0 <= i < j < s.push(k).len() implies s.push(k)[i] != s.push(k)[j] by {
        if j == s.len() {
            assert(s.contains(s[i]));
        }
    }
}

/// Lines added to `s` are those of `s` and those added.
pub proof fn lemma_with_added_contains(s: Seq<Offset>, new: Seq<Offset>)
    ensures
        forall|k: Offset| #[trigger] with_added(s, new).contains(k) <==> (s.contains(k) || new.contains(k)),
    decreases new.len(),
{
    if new.len() > 0 {
        lemma_with_added_contains(s, new.drop_last());
        let prev = with_added(s, new.drop_last());
        assert forall|k: Offset| #[trigger] with_added(s, new).contains(k) <==> (s.contains(k) || new.contains(k)) by {
            crate::line::value::lemma_push_contains(prev, new.last(), k);
            crate::line::value::lemma_push_contains(new.drop_last(), new.last(), k);
            assert(new.drop_last().push(new.last()) =~= new);
        }
    }
}

/// Adding lines keeps distinct lines distinct.
pub proof fn lemma_with_added_distinct(s: Seq<Offset>, new: Seq<Offset>)
    requires
        distinct(s),
    ensures
        distinct(with_added(s, new)),
    decreases new.len(),
{
    if new.len() > 0 {
        lemma_with_added_distinct(s, new.drop_last());
        let prev = with_added(s, new.drop_last());
        if !prev.contains(new.last()) {
            lemma_push_distinct(prev, new.last());
        }
    }
}

/// Adding one more line extends the lines added.
pub proof fn lemma_with_added_push(s: Seq<Offset>, new: Seq<Offset>, x: Offset)
    ensures
        with_added(s, new.push(x)) == with_added(with_added(s, new), seq![x]),
{
    reveal_with_fuel(with_added, 2);
    assert(new.push(x).drop_last() =~= new);
    assert(seq![x].drop_last() =~= Seq::<Offset>::empty());
}

/// Adding distinct lines to none gives those lines.
pub proof fn lemma_with_added_empty(new: Seq<Offset>)
    requires
        distinct(new),
    ensures
        with_added(Seq::empty(), new) == new,
    decreases new.len(),
{
    if new.len() > 0 {
        let d = new.drop_last();
        assert(distinct(d));
        lemma_with_added_empty(d);
        assert(!d.contains(new.last())) by {
            if d.contains(new.last()) {
                let i = choose|i: int| 0 <= i < d.len() && d[i] == new.last();
                assert(new[i] == new[new.len() - 1]);
            }
        }
        assert(d.push(new.last()) =~= new);
    }
}

impl Config {
    /// The configuration is well formed: each requested line has one
    /// configuration, no line is requested or selected twice, and only
    /// requested lines are selected.
    pub closed spec fn wf(&self) -> bool {
        &&& self.offsets@.len() == self.lcfg@.len()
        &&& distinct(self.offsets@)
        &&& distinct(self.selected@)
        &&& forall|i: int|
            0 <= i < self.selected@.len() ==> self.offsets@.contains(#[trigger] self.selected@[i])
    }

    /// The path of the chip to request lines from.
    pub closed spec fn chip_path(&self) -> Seq<char> {
        self.chip@
    }

    /// The configuration applied to lines as they are added.
    pub closed spec fn base_config(&self) -> line::Config {
        self.base
    }

    /// The requested lines, in the order they were added.
    pub closed spec fn line_offsets(&self) -> Seq<Offset> {
        self.offsets@
    }

    /// The lines currently selected.
    pub closed spec fn selected_lines(&self) -> Seq<Offset> {
        self.selected@
    }

    /// The configuration of each requested line.
    pub closed spec fn line_configs(&self) -> Map<Offset, line::Config> {
        Map::new(
            |k: Offset| self.offsets@.contains(k),
            |k: Offset| self.lcfg@[position_of(self.offsets@, k)],
        )
    }

    /// In a well formed configuration the lines with a configuration are
    /// the requested lines, which are distinct, and the selected lines are
    /// distinct requested lines.
    pub proof fn lemma_wf(&self)
        requires
            self.wf(),
        ensures
            forall|k: Offset| #[trigger]
                self.line_configs().contains_key(k) <==> self.line_offsets().contains(k),
            distinct(self.line_offsets()),
            distinct(self.selected_lines()),
            forall|k: Offset| #[trigger]
                self.selected_lines().contains(k) ==> self.line_offsets().contains(k),
    {
        assert forall|k: Offset| #[trigger]
            self.selected_lines().contains(k) implies self.line_offsets().contains(k) by {
            let i = choose|i: int| 0 <= i < self.selected@.len() && self.selected@[i] == k;
            assert(self.offsets@.contains(self.selected@[i]));
        }
    }

    /// An empty configuration: no chip, no lines, and the base config
    /// leaving every setting unspecified.
    pub fn new() -> (c: Config)
        ensures
            c.wf(),
            c.chip_path() == Seq::<char>::empty(),
            c.base_config() == line::config::default_config(),
            c.line_offsets() == Seq::<Offset>::empty(),
            c.selected_lines() == Seq::<Offset>::empty(),
            c.line_configs() == Map::<Offset, line::Config>::empty(),
    {
        let c = Config {
            chip: String::new(),
            base: line::Config::default(),
            offsets: Vec::new(),
            lcfg: Vec::new(),
            selected: Vec::new(),
        };
        assert(c.line_configs() =~= Map::<Offset, line::Config>::empty());
        c
    }

    /// The position of a requested line.
    fn find(&self, offset: Offset) -> (r: Option<usize>)
        requires
            self.wf(),
        ensures
            r is None <==> !self.offsets@.contains(offset),
            r matches Some(i) ==> i < self.offsets@.len() && self.offsets@[i as int] == offset
                && position_of(self.offsets@, offset) == i,
    {
        let mut i: usize = 0;
        while i < self.offsets.len()
            invariant
                i <= self.offsets@.len(),
                distinct(self.offsets@),
                forall|j: int| 0 <= j < i ==> self.offsets@[j] != offset,
            decreases self.offsets@.len() - i,
        {
            if self.offsets[i] == offset {
                proof {
                    assert(self.offsets@.contains(offset));
                    let p = position_of(self.offsets@, offset);
                    assert(self.offsets@[p] == offset);
                    if p != i {
                        assert(distinct(self.offsets@));
                    }
                }
                return Some(i);
            }
            i += 1;
        }
        None
    }

    /// Apply an update to the selected lines, or to the base configuration
    /// if none are selected.
    fn update_selected(&mut self, op: LineOp)
        requires
            old(self).wf(),
        ensures
            selected_updated(*old(self), *final(self), |c: line::Config| apply_op(op, c)),
    {
        if self.selected.len() == 0 {
            self.base = apply(&op, self.base);
            return;
        }
        let ghost old_self = *self;
        let mut j: usize = 0;
        while j < self.selected.len()
            invariant
                self.wf(),
                old_self.wf(),
                self.chip@ == old_self.chip@,
                self.base == old_self.base,
                self.offsets@ == old_self.offsets@,
                self.selected@ == old_self.selected@,
                j <= self.selected@.len(),
                forall|i: int|
                    0 <= i < self.lcfg@.len() ==> #[trigger] self.lcfg@[i] == (if self.selected@.subrange(
                        0,
                        j as int,
                    ).contains(self.offsets@[i]) {
                        apply_op(op, old_self.lcfg@[i])
                    } else {
                        old_self.lcfg@[i]
                    }),
            decreases self.selected@.len() - j,
        {
            let s = self.selected[j];
            proof {
                assert(self.offsets@.contains(self.selected@[j as int]));
            }
            let i = match self.find(s) {
                Some(i) => i,
                None => {
                    return;
                },
            };
            let c = apply(&op, self.lcfg[i]);
            self.lcfg.set(i, c);
            j += 1;
            proof {
                assert forall|k: int| 0 <= k < self.lcfg@.len() implies #[trigger] self.lcfg@[k]
                    == (if self.selected@.subrange(0, j as int).contains(self.offsets@[k]) {
                    apply_op(op, old_self.lcfg@[k])
                } else {
                    old_self.lcfg@[k]
                }) by {
                    let prev = self.selected@.subrange(0, j - 1);
                    let cur = self.selected@.subrange(0, j as int);
                    assert(cur =~= prev.push(s));
                    crate::line::value::lemma_push_contains(prev, s, self.offsets@[k]);
                    if k != i {
                        assert(self.offsets@[k] != s);
                    } else {
                        assert(!prev.contains(s)) by {
                            if prev.contains(s) {
                                let a = choose|a: int| 0 <= a < prev.len() && prev[a] == s;
                                assert(self.selected@[a] == self.selected@[j - 1]);
                            }
                        }
                    }
                }
            }
        }
        proof {
            assert(self.selected@.subrange(0, self.selected@.len() as int) =~= self.selected@);
            let f = |c: line::Config| apply_op(op, c);
            assert forall|k: Offset| #[trigger] self.line_configs().contains_key(k) implies self.line_configs()[k]
                == (if old_self.selected_lines().contains(k) {
                f(old_self.line_configs()[k])
            } else {
                old_self.line_configs()[k]
            }) by {
                let p = position_of(self.offsets@, k);
                assert(self.offsets@[p] == k);
            }
            assert(self.line_configs() =~= Map::new(
                |k: Offset| old_self.line_configs().contains_key(k),
                |k: Offset|
                    if old_self.selected_lines().contains(k) {
                        f(old_self.line_configs()[k])
                    } else {
                        old_self.line_configs()[k]
                    },
            ));
        }
    }
}

impl Config {
    /// Add a line, with the base configuration, if it is not already
    /// requested, and select it if it is not already selected.
    pub fn select_line(&mut self, offset: Offset)
        requires
            old(self).wf(),
        ensures
            final(self).wf(),
            final(self).chip_path() == old(self).chip_path(),
            final(self).base_config() == old(self).base_config(),
            final(self).line_offsets() == with_added(old(self).line_offsets(), seq![offset]),
            final(self).selected_lines() == with_added(old(self).selected_lines(), seq![offset]),
            final(self).line_configs() == (if old(self).line_configs().contains_key(offset) {
                old(self).line_configs()
            } else {
                old(self).line_configs().insert(offset, old(self).base_config())
            }),
    {
        let ghost old_self = *self;
        proof {
            reveal_with_fuel(with_added, 2);
            assert(seq![offset].drop_last() =~= Seq::<Offset>::empty());
        }
        if self.find(offset).is_none() {
            proof {
                lemma_push_distinct(self.offsets@, offset);
            }
            self.offsets.push(offset);
            self.lcfg.push(self.base);
            proof {
                let n = old_self.offsets@.len();
                assert forall|k: Offset| #[trigger] self.line_configs().contains_key(k) implies self.line_configs()[k]
                    == old_self.line_configs().insert(offset, old_self.base)[k] by {
                    let p = position_of(self.offsets@, k);
                    assert(self.offsets@[p] == k);
                    if k == offset {
                        lemma_position(self.offsets@, n as int);
                    } else {
                        assert(p < n);
                        lemma_position(old_self.offsets@, p);
                    }
                }
                assert(self.line_configs() =~= old_self.line_configs().insert(offset, old_self.base));
            }
        } else {
            proof {
                assert(old_self.line_configs().contains_key(offset));
            }
        }
        let found = contains_offset(&self.selected, offset);
        if !found {
            proof {
                lemma_push_distinct(self.selected@, offset);
            }
            self.selected.push(offset);
            proof {
                assert(self.offsets@.contains(offset));
                assert forall|i: int| 0 <= i < self.selected@.len() implies self.offsets@.contains(
                    #[trigger] self.selected@[i],
                ) by {
                    if i < self.selected@.len() - 1 {
                        assert(old_self.selected@[i] == self.selected@[i]);
                        assert(old_self.offsets@.contains(old_self.selected@[i]));
                        let q = choose|q: int| 0 <= q < old_self.offsets@.len() && old_self.offsets@[q] == old_self.selected@[i];
                        assert(self.offsets@[q] == old_self.offsets@[q]);
                    }
                }
            }
        } else {
            proof {
                assert forall|i: int| 0 <= i < self.selected@.len() implies self.offsets@.contains(
                    #[trigger] self.selected@[i],
                ) by {
                    assert(old_self.offsets@.contains(old_self.selected@[i]));
                    let q = choose|q: int| 0 <= q < old_self.offsets@.len() && old_self.offsets@[q] == old_self.selected@[i];
                    assert(self.offsets@[q] == old_self.offsets@[q]);
                }
            }
        }
    }

    /// Remove a line from the request and from the selection.
    fn remove_line(&mut self, offset: Offset)
        requires
            old(self).wf(),
        ensures
            final(self).wf(),
            final(self).chip_path() == old(self).chip_path(),
            final(self).base_config() == old(self).base_config(),
            final(self).line_offsets() == without(old(self).line_offsets(), offset),
            final(self).selected_lines() == without(old(self).selected_lines(), offset),
            final(self).line_configs() == old(self).line_configs().remove(offset),
    {
        let ghost old_self = *self;
        proof {
            lemma_without(self.offsets@, offset);
            lemma_without(self.selected@, offset);
        }
        match self.find(offset) {
            Some(idx) => {
                self.offsets.remove(idx);
                self.lcfg.remove(idx);
                proof {
                    assert forall|k: Offset| #[trigger] self.line_configs().contains_key(k) implies self.line_configs()[k]
                        == old_self.line_configs().remove(offset)[k] by {
                        let p = position_of(self.offsets@, k);
                        assert(self.offsets@[p] == k);
                        if p < idx {
                            assert(old_self.offsets@[p] == k);
                            lemma_position(old_self.offsets@, p);
                        } else {
                            assert(old_self.offsets@[p + 1] == k);
                            lemma_position(old_self.offsets@, p + 1);
                        }
                    }
                    assert(self.line_configs() =~= old_self.line_configs().remove(offset));
                }
            },
            None => {
                proof {
                    assert(self.line_configs() =~= old_self.line_configs().remove(offset));
                }
            },
        }
        match position_in(&self.selected, offset) {
            Some(i) => {
                proof {
                    lemma_position(self.selected@, i as int);
                }
                self.selected.remove(i);
            },
            None => {},
        }
        proof {
            if !old_self.selected@.contains(offset) {
                assert(self.selected@ == old_self.selected@);
            }
            assert forall|i: int| 0 <= i < self.selected@.len() implies self.offsets@.contains(
                #[trigger] self.selected@[i],
            ) by {
                let x = self.selected@[i];
                assert(without(old_self.selected@, offset).contains(x));
                assert(old_self.offsets@.contains(x));
            }
        }
    }
}

impl Config {
    /// Set the chip from which to request lines.
    pub fn on_chip(&mut self, path: &str) -> (r: &mut Self)
        requires
            old(self).wf(),
        ensures
            r.wf(),
            r.chip_path() == path@,
            r.base_config() == old(self).base_config(),
            r.line_offsets() == old(self).line_offsets(),
            r.selected_lines() == old(self).selected_lines(),
            r.line_configs() == old(self).line_configs(),
            *final(self) == *final(r),
    {
        self.chip = String::from_str(path);
        self
    }

    /// Set the selected lines to input.
    ///
    /// This removes any output specific settings.
    pub fn as_input(&mut self) -> (r: &mut Self)
        requires
            old(self).wf(),
        ensures
            selected_updated(*old(self), *r, |c: line::Config| input_config(c)),
            *final(self) == *final(r),
    {
        self.update_selected(LineOp::AsInput);
        proof {
            let f = |c: line::Config| input_config(c);
            assert(self.line_configs() =~= Map::new(
                |k: Offset| old(self).line_configs().contains_key(k),
                |k: Offset| if old(self).selected_lines().contains(k) { f(old(self).line_configs()[k]) } else { old(self).line_configs()[k] },
            ));
        }
        self
    }

    /// Do not set the direction of the selected lines.
    ///
    /// This removes any input or output specific settings.
    pub fn as_is(&mut self) -> (r: &mut Self)
        requires
            old(self).wf(),
        ensures
            selected_updated(*old(self), *r, |c: line::Config| as_is_config(c)),
            *final(self) == *final(r),
    {
        self.update_selected(LineOp::AsIs);
        proof {
            let f = |c: line::Config| as_is_config(c);
            assert(self.line_configs() =~= Map::new(
                |k: Offset| old(self).line_configs().contains_key(k),
                |k: Offset| if old(self).selected_lines().contains(k) { f(old(self).line_configs()[k]) } else { old(self).line_configs()[k] },
            ));
        }
        self
    }

    /// Set the selected lines to output with the given value.
    ///
    /// This removes any input specific settings.
    pub fn as_output(&mut self, value: Value) -> (r: &mut Self)
        requires
            old(self).wf(),
        ensures
            selected_updated(*old(self), *r, |c: line::Config| output_config(c, value)),
            *final(self) == *final(r),
    {
        self.update_selected(LineOp::AsOutput(value));
        proof {
            let f = |c: line::Config| output_config(c, value);
            assert(self.line_configs() =~= Map::new(
                |k: Offset| old(self).line_configs().contains_key(k),
                |k: Offset| if old(self).selected_lines().contains(k) { f(old(self).line_configs()[k]) } else { old(self).line_configs()[k] },
            ));
        }
        self
    }

    /// Set the selected lines to active low.
    pub fn as_active_low(&mut self) -> (r: &mut Self)
        requires
            old(self).wf(),
        ensures
            selected_updated(*old(self), *r, |c: line::Config| line::Config { active_low: true, ..c }),
            *final(self) == *final(r),
    {
        self.update_selected(LineOp::ActiveLow(true));
        proof {
            let f = |c: line::Config| line::Config { active_low: true, ..c };
            assert(self.line_configs() =~= Map::new(
                |k: Offset| old(self).line_configs().contains_key(k),
                |k: Offset| if old(self).selected_lines().contains(k) { f(old(self).line_configs()[k]) } else { old(self).line_configs()[k] },
            ));
        }
        self
    }

    /// Set the selected lines to active high.
    pub fn as_active_high(&mut self) -> (r: &mut Self)
        requires
            old(self).wf(),
        ensures
            selected_updated(*old(self), *r, |c: line::Config| line::Config { active_low: false, ..c }),
            *final(self) == *final(r),
    {
        self.update_selected(LineOp::ActiveLow(false));
        proof {
            let f = |c: line::Config| line::Config { active_low: false, ..c };
            assert(self.line_configs() =~= Map::new(
                |k: Offset| old(self).line_configs().contains_key(k),
                |k: Offset| if old(self).selected_lines().contains(k) { f(old(self).line_configs()[k]) } else { old(self).line_configs()[k] },
            ));
        }
        self
    }

    /// Set the bias setting for the selected lines.
    pub fn with_bias(&mut self, bias: Option<Bias>) -> (r: &mut Self)
        requires
            old(self).wf(),
        ensures
            selected_updated(*old(self), *r, |c: line::Config| line::Config { bias: bias, ..c }),
            *final(self) == *final(r),
    {
        self.update_selected(LineOp::WithBias(bias));
        proof {
            let f = |c: line::Config| line::Config { bias: bias, ..c };
            assert(self.line_configs() =~= Map::new(
                |k: Offset| old(self).line_configs().contains_key(k),
                |k: Offset| if old(self).selected_lines().contains(k) { f(old(self).line_configs()[k]) } else { old(self).line_configs()[k] },
            ));
        }
        self
    }

    /// Set the direction of the selected lines.
    ///
    /// Setting to input removes any output specific settings.
    ///
    /// Setting to output removes any input specific settings.
    pub fn with_direction(&mut self, direction: Direction) -> (r: &mut Self)
        requires
            old(self).wf(),
        ensures
            selected_updated(*old(self), *r, |c: line::Config| direction_config(c, direction)),
            *final(self) == *final(r),
    {
        self.update_selected(LineOp::WithDirection(direction));
        proof {
            let f = |c: line::Config| direction_config(c, direction);
            assert(self.line_configs() =~= Map::new(
                |k: Offset| old(self).line_configs().contains_key(k),
                |k: Offset| if old(self).selected_lines().contains(k) { f(old(self).line_configs()[k]) } else { old(self).line_configs()[k] },
            ));
        }
        self
    }

    /// Set the drive setting for the selected lines.
    ///
    /// This implies the lines are outputs, so removes any input specific
    /// settings.
    pub fn with_drive(&mut self, drive: Drive) -> (r: &mut Self)
        requires
            old(self).wf(),
        ensures
            selected_updated(*old(self), *r, |c: line::Config| line::Config {
                    drive: Some(drive),
                    direction: Some(Direction::Output),
                    edge_detection: None,
                    debounce_period: None,
                    ..c
                }),
            *final(self) == *final(r),
    {
        self.update_selected(LineOp::WithDrive(drive));
        proof {
            let f = |c: line::Config| line::Config {
                    drive: Some(drive),
                    direction: Some(Direction::Output),
                    edge_detection: None,
                    debounce_period: None,
                    ..c
                };
            assert(self.line_configs() =~= Map::new(
                |k: Offset| old(self).line_configs().contains_key(k),
                |k: Offset| if old(self).selected_lines().contains(k) { f(old(self).line_configs()[k]) } else { old(self).line_configs()[k] },
            ));
        }
        self
    }

    /// Set the edge detection for the selected lines.
    ///
    /// This implies the lines are inputs, so removes any output specific
    /// settings.
    pub fn with_edge_detection(&mut self, edge: Option<EdgeDetection>) -> (r: &mut Self)
        requires
            old(self).wf(),
        ensures
            selected_updated(*old(self), *r, |c: line::Config| line::Config { edge_detection: edge, ..input_config(c) }),
            *final(self) == *final(r),
    {
        self.update_selected(LineOp::WithEdge(edge));
        proof {
            let f = |c: line::Config| line::Config { edge_detection: edge, ..input_config(c) };
            assert(self.line_configs() =~= Map::new(
                |k: Offset| old(self).line_configs().contains_key(k),
                |k: Offset| if old(self).selected_lines().contains(k) { f(old(self).line_configs()[k]) } else { old(self).line_configs()[k] },
            ));
        }
        self
    }

    /// Set the clock source for edge events on the selected lines.
    ///
    /// The clock does not imply anything about edge detection or direction,
    /// so other settings are left alone.
    pub fn with_event_clock(&mut self, event_clock: Option<EventClock>) -> (r: &mut Self)
        requires
            old(self).wf(),
        ensures
            selected_updated(*old(self), *r, |c: line::Config| line::Config { event_clock: event_clock, ..c }),
            *final(self) == *final(r),
    {
        self.update_selected(LineOp::WithClock(event_clock));
        proof {
            let f = |c: line::Config| line::Config { event_clock: event_clock, ..c };
            assert(self.line_configs() =~= Map::new(
                |k: Offset| old(self).line_configs().contains_key(k),
                |k: Offset| if old(self).selected_lines().contains(k) { f(old(self).line_configs()[k]) } else { old(self).line_configs()[k] },
            ));
        }
        self
    }

    /// Set the value of the selected lines.
    ///
    /// This is only relevant for outputs.
    pub fn with_value(&mut self, value: Value) -> (r: &mut Self)
        requires
            old(self).wf(),
        ensures
            selected_updated(*old(self), *r, |c: line::Config| line::Config { value: Some(value), ..c }),
            *final(self) == *final(r),
    {
        self.update_selected(LineOp::WithValue(value));
        proof {
            let f = |c: line::Config| line::Config { value: Some(value), ..c };
            assert(self.line_configs() =~= Map::new(
                |k: Offset| old(self).line_configs().contains_key(k),
                |k: Offset| if old(self).selected_lines().contains(k) { f(old(self).line_configs()[k]) } else { old(self).line_configs()[k] },
            ));
        }
        self
    }

    /// Set the debounce period for the selected lines.
    ///
    /// A zero period disables debouncing.  This implies the lines are
    /// inputs, so removes any output specific settings.
    pub fn with_debounce_period(&mut self, period: Period) -> (r: &mut Self)
        requires
            old(self).wf(),
        ensures
            selected_updated(
                *old(self),
                *r,
                |c: line::Config| line::Config { debounce_period: debounce_of(period), ..input_config(c) },
            ),
            *final(self) == *final(r),
    {
        let dp = if period.is_zero() {
            None
        } else {
            Some(period)
        };
        self.update_selected(LineOp::WithDebounce(dp));
        proof {
            let f = |c: line::Config| line::Config { debounce_period: debounce_of(period), ..input_config(c) };
            assert(self.line_configs() =~= Map::new(
                |k: Offset| old(self).line_configs().contains_key(k),
                |k: Offset| if old(self).selected_lines().contains(k) { f(old(self).line_configs()[k]) } else { old(self).line_configs()[k] },
            ));
        }
        self
    }

    /// Apply the given configuration to the selected lines.
    pub fn from_line_config(&mut self, lc: &line::Config) -> (r: &mut Self)
        requires
            old(self).wf(),
        ensures
            selected_updated(*old(self), *r, |c: line::Config| *lc),
            *final(self) == *final(r),
    {
        self.update_selected(LineOp::Replace(*lc));
        proof {
            let f = |c: line::Config| *lc;
            assert(self.line_configs() =~= Map::new(
                |k: Offset| old(self).line_configs().contains_key(k),
                |k: Offset| if old(self).selected_lines().contains(k) { f(old(self).line_configs()[k]) } else { old(self).line_configs()[k] },
            ));
        }
        self
    }
}

/// The chip a found line is to be requested from: the configured chip, or
/// that of the line if none is configured.
pub open spec fn chip_for(c: Config, line: FoundLine) -> Seq<char> {
    if c.chip_path().len() == 0 {
        line.chip@
    } else {
        c.chip_path()
    }
}

/// The chip configured after adding the first `i` of the found `lines` to
/// a config for the chip `c0`: the first chip set, either `c0` or that of a
/// line.
pub open spec fn chip_after(c0: Seq<char>, lines: Seq<FoundLine>, i: int) -> Seq<char>
    decreases i,
{
    if i <= 0 {
        c0
    } else {
        let prev = chip_after(c0, lines, i - 1);
        if prev.len() == 0 {
            lines[i - 1].chip@
        } else {
            prev
        }
    }
}

/// The line configs after adding the lines `new`, each with the base
/// configuration if not already present.
pub open spec fn configs_with_added(c: Config, new: Seq<Offset>) -> Map<Offset, line::Config> {
    Map::new(
        |k: Offset| c.line_configs().contains_key(k) || new.contains(k),
        |k: Offset|
            if c.line_configs().contains_key(k) {
                c.line_configs()[k]
            } else {
                c.base_config()
            },
    )
}

/// The message of the error for lines requested from more than one chip.
pub open spec fn multiple_chips_error(e: Error) -> bool {
    e matches Error::InvalidArgument(m) && m@ == "Multiple chips requested."@
}

impl Config {
    /// Add a line to the request and select it alone.
    ///
    /// A line already requested keeps its configuration; a new line takes
    /// the base configuration.
    pub fn with_line(&mut self, offset: Offset) -> (r: &mut Self)
        requires
            old(self).wf(),
        ensures
            r.wf(),
            r.chip_path() == old(self).chip_path(),
            r.base_config() == old(self).base_config(),
            r.line_offsets() == with_added(old(self).line_offsets(), seq![offset]),
            r.selected_lines() == seq![offset],
            r.line_configs() == configs_with_added(*old(self), seq![offset]),
            *final(self) == *final(r),
    {
        self.selected.clear();
        self.select_line(offset);
        proof {
            reveal_with_fuel(with_added, 2);
            assert(seq![offset].drop_last() =~= Seq::<Offset>::empty());
            assert(with_added(Seq::<Offset>::empty(), seq![offset]) =~= seq![offset]);
            assert(self.line_configs() =~= configs_with_added(*old(self), seq![offset]));
        }
        self
    }

    /// Add a set of lines to the request and select them alone, in order.
    ///
    /// Lines already requested keep their configuration; new lines take the
    /// base configuration.
    pub fn with_lines(&mut self, offsets: &[Offset]) -> (r: &mut Self)
        requires
            old(self).wf(),
        ensures
            r.wf(),
            r.chip_path() == old(self).chip_path(),
            r.base_config() == old(self).base_config(),
            r.line_offsets() == with_added(old(self).line_offsets(), offsets@),
            r.selected_lines() == with_added(Seq::empty(), offsets@),
            r.line_configs() == configs_with_added(*old(self), offsets@),
            *final(self) == *final(r),
    {
        let ghost old_self = *self;
        self.selected.clear();
        proof {
            old_self.lemma_wf();
            assert(self.line_configs() =~= configs_with_added(old_self, offsets@.subrange(0, 0)));
        }
        let mut i: usize = 0;
        while i < offsets.len()
            invariant
                i <= offsets@.len(),
                self.wf(),
                old_self.wf(),
                self.chip@ == old_self.chip@,
                self.base == old_self.base,
                self.line_offsets() == with_added(old_self.line_offsets(), offsets@.subrange(0, i as int)),
                self.selected_lines() == with_added(Seq::empty(), offsets@.subrange(0, i as int)),
                self.line_configs() == configs_with_added(old_self, offsets@.subrange(0, i as int)),
            decreases offsets@.len() - i,
        {
            let o = offsets[i];
            proof {
                self.lemma_wf();
            }
            self.select_line(o);
            proof {
                let prev = offsets@.subrange(0, i as int);
                let cur = offsets@.subrange(0, i + 1);
                assert(cur =~= prev.push(o));
                lemma_with_added_push(old_self.line_offsets(), prev, o);
                lemma_with_added_push(Seq::empty(), prev, o);
                assert forall|k: Offset| #[trigger] cur.contains(k) <==> (prev.contains(k) || k == o) by {
                    crate::line::value::lemma_push_contains(prev, o, k);
                }
                assert(self.line_configs() =~= configs_with_added(old_self, cur));
            }
            i += 1;
        }
        proof {
            assert(offsets@.subrange(0, offsets@.len() as int) =~= offsets@);
        }
        self
    }

    /// Remove a line from the request.
    pub fn without_line(&mut self, offset: Offset) -> (r: &mut Self)
        requires
            old(self).wf(),
        ensures
            r.wf(),
            r.chip_path() == old(self).chip_path(),
            r.base_config() == old(self).base_config(),
            r.line_offsets() == without(old(self).line_offsets(), offset),
            r.selected_lines() == without(old(self).selected_lines(), offset),
            r.line_configs() == old(self).line_configs().remove(offset),
            *final(self) == *final(r),
    {
        self.remove_line(offset);
        self
    }

    /// Remove a set of lines from the request.
    pub fn without_lines(&mut self, offsets: &[Offset]) -> (r: &mut Self)
        requires
            old(self).wf(),
        ensures
            r.wf(),
            r.chip_path() == old(self).chip_path(),
            r.base_config() == old(self).base_config(),
            r.line_offsets() == without_all(old(self).line_offsets(), offsets@),
            r.selected_lines() == without_all(old(self).selected_lines(), offsets@),
            r.line_configs() == old(self).line_configs().remove_keys(offsets@.to_set()),
            *final(self) == *final(r),
    {
        let ghost old_self = *self;
        proof {
            assert(old_self.line_configs().remove_keys(offsets@.subrange(0, 0).to_set()) =~= old_self.line_configs());
        }
        let mut i: usize = 0;
        while i < offsets.len()
            invariant
                i <= offsets@.len(),
                self.wf(),
                self.chip@ == old_self.chip@,
                self.base == old_self.base,
                self.line_offsets() == without_all(old_self.line_offsets(), offsets@.subrange(0, i as int)),
                self.selected_lines() == without_all(old_self.selected_lines(), offsets@.subrange(0, i as int)),
                self.line_configs() == old_self.line_configs().remove_keys(offsets@.subrange(0, i as int).to_set()),
            decreases offsets@.len() - i,
        {
            let o = offsets[i];
            self.remove_line(o);
            proof {
                let prev = offsets@.subrange(0, i as int);
                let cur = offsets@.subrange(0, i + 1);
                assert(cur =~= prev.push(o));
                assert(cur.drop_last() =~= prev);
                assert forall|k: Offset| #[trigger] cur.to_set().contains(k) <==> (prev.to_set().contains(k) || k == o) by {
                    crate::line::value::lemma_push_contains(prev, o, k);
                }
                assert(self.line_configs() =~= old_self.line_configs().remove_keys(cur.to_set()));
            }
            i += 1;
        }
        proof {
            assert(offsets@.subrange(0, offsets@.len() as int) =~= offsets@);
        }
        self
    }
}

/// The offsets of a sequence of line values.
pub open spec fn value_offsets(s: Seq<LineValue>) -> Seq<Offset> {
    s.map_values(|lv: LineValue| lv.offset)
}

/// The offsets of strictly sorted line values are distinct and are those
/// that the values hold.
proof fn lemma_value_offsets(s: Seq<LineValue>)
    requires
        strictly_sorted(s),
    ensures
        distinct(value_offsets(s)),
        forall|k: Offset| #[trigger] value_offsets(s).contains(k) <==> entries_map(s).contains_key(k),
{
    let ks = value_offsets(s);
    assert forall|i: int, j: int| 0 <= i < j < ks.len() implies ks[i] != ks[j] by {
        assert(s[i].offset < s[j].offset);
    }
    assert forall|k: Offset| #[trigger] ks.contains(k) <==> entries_map(s).contains_key(k) by {
        if ks.contains(k) {
            let i = choose|i: int| 0 <= i < ks.len() && ks[i] == k;
            lemma_entry_at(s, i);
        }
        if entries_map(s).contains_key(k) {
            let i = lemma_key_position(s, k);
            assert(ks[i] == k);
        }
    }
}

/// The configuration of line `k` once it is requested: its own if
/// requested, else the base configuration.
pub open spec fn config_or_base(c: Config, k: Offset) -> line::Config {
    if c.line_configs().contains_key(k) {
        c.line_configs()[k]
    } else {
        c.base_config()
    }
}

impl Config {
    /// Replace the configuration of the line at position `idx`.
    fn set_line_config(&mut self, idx: usize, c: line::Config)
        requires
            old(self).wf(),
            idx < old(self).line_offsets().len(),
        ensures
            final(self).wf(),
            final(self).chip_path() == old(self).chip_path(),
            final(self).base_config() == old(self).base_config(),
            final(self).line_offsets() == old(self).line_offsets(),
            final(self).selected_lines() == old(self).selected_lines(),
            final(self).line_configs() == old(self).line_configs().insert(
                old(self).line_offsets()[idx as int],
                c,
            ),
    {
        let ghost old_self = *self;
        self.lcfg.set(idx, c);
        proof {
            let o = self.offsets@[idx as int];
            lemma_position(self.offsets@, idx as int);
            assert forall|k: Offset| #[trigger] self.line_configs().contains_key(k) implies self.line_configs()[k]
                == old_self.line_configs().insert(o, c)[k] by {
                let p = position_of(self.offsets@, k);
                assert(self.offsets@[p] == k);
            }
            assert(self.line_configs() =~= old_self.line_configs().insert(o, c));
        }
    }

    /// Add the lines held in `values` to the request as outputs with those
    /// values, and select them alone, in increasing offset order.
    ///
    /// This removes any input specific settings from those lines.
    pub fn with_output_lines(&mut self, values: &Values) -> (r: &mut Self)
        requires
            old(self).wf(),
        ensures
            r.wf(),
            r.chip_path() == old(self).chip_path(),
            r.base_config() == old(self).base_config(),
            r.line_offsets() == with_added(old(self).line_offsets(), value_offsets(values.entries())),
            r.selected_lines() == value_offsets(values.entries()),
            r.line_configs() == Map::new(
                |k: Offset| old(self).line_configs().contains_key(k) || values@.contains_key(k),
                |k: Offset|
                    if values@.contains_key(k) {
                        output_config(config_or_base(*old(self), k), values@[k])
                    } else {
                        old(self).line_configs()[k]
                    },
            ),
            *final(self) == *final(r),
    {
        let ghost old_self = *self;
        let vs = values.as_slice();
        let ghost keys = value_offsets(vs@);
        proof {
            lemma_value_offsets(vs@);
            old_self.lemma_wf();
        }
        self.selected.clear();
        proof {
            assert(self.line_configs() =~= Map::new(
                |k: Offset| old_self.line_configs().contains_key(k) || keys.subrange(0, 0).contains(k),
                |k: Offset|
                    if keys.subrange(0, 0).contains(k) {
                        output_config(config_or_base(old_self, k), values@[k])
                    } else {
                        old_self.line_configs()[k]
                    },
            ));
        }
        let mut i: usize = 0;
        while i < vs.len()
            invariant
                i <= vs@.len(),
                keys == value_offsets(vs@),
                keys.len() == vs@.len(),
                strictly_sorted(vs@),
                entries_map(vs@) == values@,
                distinct(keys),
                forall|k: Offset| #[trigger] keys.contains(k) <==> values@.contains_key(k),
                self.wf(),
                old_self.wf(),
                self.chip@ == old_self.chip@,
                self.base == old_self.base,
                self.line_offsets() == with_added(old_self.line_offsets(), keys.subrange(0, i as int)),
                self.selected_lines() == with_added(Seq::empty(), keys.subrange(0, i as int)),
                self.line_configs() == Map::new(
                    |k: Offset| old_self.line_configs().contains_key(k) || keys.subrange(0, i as int).contains(k),
                    |k: Offset|
                        if keys.subrange(0, i as int).contains(k) {
                            output_config(config_or_base(old_self, k), values@[k])
                        } else {
                            old_self.line_configs()[k]
                        },
                ),
            decreases vs@.len() - i,
        {
            let lv = vs[i];
            let ghost before = *self;
            proof {
                self.lemma_wf();
                lemma_entry_at(vs@, i as int);
                assert(keys[i as int] == lv.offset);
            }
            self.select_line(lv.offset);
            let idx = match self.find(lv.offset) {
                Some(idx) => idx,
                None => {
                    proof {
                        lemma_with_added_contains(before.line_offsets(), seq![lv.offset]);
                    }
                    return self;
                },
            };
            let c = self.lcfg[idx];
            let oc = line::Config {
                direction: Some(Direction::Output),
                value: Some(lv.value),
                edge_detection: None,
                debounce_period: None,
                ..c
            };
            proof {
                lemma_position(self.offsets@, idx as int);
                assert(c == self.line_configs()[lv.offset]);
                assert(self.line_configs()[lv.offset] == config_or_base(before, lv.offset));
                let prev = keys.subrange(0, i as int);
                assert(!prev.contains(lv.offset)) by {
                    if prev.contains(lv.offset) {
                        let j = choose|j: int| 0 <= j < prev.len() && prev[j] == lv.offset;
                        assert(keys[j] == keys[i as int]);
                    }
                }
                assert(config_or_base(before, lv.offset) == config_or_base(old_self, lv.offset));
            }
            let ghost mid = *self;
            self.set_line_config(idx, oc);
            proof {
                let prev = keys.subrange(0, i as int);
                let cur = keys.subrange(0, i + 1);
                assert(cur =~= prev.push(lv.offset));
                lemma_with_added_push(old_self.line_offsets(), prev, lv.offset);
                lemma_with_added_push(Seq::empty(), prev, lv.offset);
                assert(!prev.contains(lv.offset)) by {
                    if prev.contains(lv.offset) {
                        let j = choose|j: int| 0 <= j < prev.len() && prev[j] == lv.offset;
                        assert(keys[j] == keys[i as int]);
                    }
                }
                assert forall|k: Offset| #[trigger] cur.contains(k) <==> (prev.contains(k) || k == lv.offset) by {
                    crate::line::value::lemma_push_contains(prev, lv.offset, k);
                }
                assert(values@[lv.offset] == lv.value);
                assert(oc == output_config(config_or_base(old_self, lv.offset), values@[lv.offset]));
                assert forall|k: Offset| k != lv.offset && #[trigger] mid.line_configs().contains_key(k) implies mid.line_configs()[k] == before.line_configs()[k] by {
                }
                assert(self.line_configs() =~= Map::new(
                    |k: Offset| old_self.line_configs().contains_key(k) || cur.contains(k),
                    |k: Offset|
                        if cur.contains(k) {
                            output_config(config_or_base(old_self, k), values@[k])
                        } else {
                            old_self.line_configs()[k]
                        },
                ));
            }
            i += 1;
        }
        proof {
            assert(keys.subrange(0, vs@.len() as int) =~= keys);
            lemma_with_added_empty(keys);
            assert(self.line_configs() =~= Map::new(
                |k: Offset| old_self.line_configs().contains_key(k) || values@.contains_key(k),
                |k: Offset|
                    if values@.contains_key(k) {
                        output_config(config_or_base(old_self, k), values@[k])
                    } else {
                        old_self.line_configs()[k]
                    },
            ));
        }
        self
    }
}

/// Adding the found `lines` to `old` failed at the line at position `i`,
/// the first on a different chip from those before it, leaving `new` with
/// the lines before it added and the last of them selected.
pub open spec fn found_lines_failed_at(old: Config, new: Config, lines: Seq<FoundLine>, i: int) -> bool {
    let offs = lines.map_values(|l: FoundLine| l.info.offset);
    &&& 0 <= i < lines.len()
    &&& lines[i].chip@ != chip_after(old.chip_path(), lines, i + 1)
    &&& forall|j: int| 0 <= j < i ==> #[trigger] lines[j].chip@ == chip_after(old.chip_path(), lines, j + 1)
    &&& new.chip_path() == chip_after(old.chip_path(), lines, i)
    &&& new.base_config() == old.base_config()
    &&& new.line_offsets() == with_added(old.line_offsets(), offs.subrange(0, i))
    &&& new.line_configs() == configs_with_added(old, offs.subrange(0, i))
    &&& new.selected_lines() == (if i == 0 {
        old.selected_lines()
    } else {
        seq![offs[i - 1]]
    })
}

impl Config {
    /// Add a found line to the request and select it alone.
    ///
    /// The chip is taken from the line if none is set; the request fails if
    /// the line is on a different chip, leaving the config unchanged.
    pub fn with_found_line(&mut self, line: &FoundLine) -> (r: Result<&mut Self, Error>)
        requires
            old(self).wf(),
        ensures
            chip_for(*old(self), *line) != line.chip@ ==> (r matches Err(e) && multiple_chips_error(e)
                && *final(self) == *old(self)),
            chip_for(*old(self), *line) == line.chip@ ==> (r matches Ok(c) && {
                &&& c.wf()
                &&& c.chip_path() == line.chip@
                &&& c.base_config() == old(self).base_config()
                &&& c.line_offsets() == with_added(old(self).line_offsets(), seq![line.info.offset])
                &&& c.selected_lines() == seq![line.info.offset]
                &&& c.line_configs() == configs_with_added(*old(self), seq![line.info.offset])
                &&& *final(self) == *final(c)
            }),
    {
        if self.chip.as_str().is_empty() {
            self.on_chip(line.chip.as_str());
        }
        if self.chip == line.chip {
            proof {
                assert(configs_with_added(*self, seq![line.info.offset]) =~= configs_with_added(*old(self), seq![line.info.offset]));
            }
            self.with_line(line.info.offset);
            Ok(self)
        } else {
            Err(Error::InvalidArgument(String::from_str("Multiple chips requested.")))
        }
    }

    /// Add a set of found lines to the request, and select them.
    ///
    /// Each line is added as by `with_found_line`, so the request fails at
    /// the first line on a different chip from those before it.  Once all
    /// are added they are selected: the last line added, then the others in
    /// order.
    pub fn with_found_lines(&mut self, lines: &[FoundLine]) -> (r: Result<&mut Self, Error>)
        requires
            old(self).wf(),
        ensures
            r is Ok <==> forall|i: int|
                0 <= i < lines@.len() ==> #[trigger] lines@[i].chip@ == chip_after(
                    old(self).chip_path(),
                    lines@,
                    i + 1,
                ),
            r matches Err(e) ==> multiple_chips_error(e) && final(self).wf() && final(self).base_config()
                == old(self).base_config() && exists|i: int| found_lines_failed_at(*old(self), *final(self), lines@, i),
            r matches Ok(c) ==> {
                let offs = lines@.map_values(|l: FoundLine| l.info.offset);
                &&& c.wf()
                &&& c.chip_path() == chip_after(old(self).chip_path(), lines@, lines@.len() as int)
                &&& c.base_config() == old(self).base_config()
                &&& c.line_offsets() == with_added(old(self).line_offsets(), offs)
                &&& c.selected_lines() == (if lines@.len() == 0 {
                    old(self).selected_lines()
                } else {
                    with_added(seq![offs.last()], offs)
                })
                &&& c.line_configs() == configs_with_added(*old(self), offs)
                &&& *final(self) == *final(c)
            },
    {
        let ghost old_self = *self;
        let ghost offs = lines@.map_values(|l: FoundLine| l.info.offset);
        let n = lines.len();
        if n == 0 {
            proof {
                assert(self.line_configs() =~= configs_with_added(old_self, offs));
            }
            return Ok(self);
        }
        proof {
            old_self.lemma_wf();
            assert(self.line_configs() =~= configs_with_added(old_self, offs.subrange(0, 0)));
        }
        let mut i: usize = 0;
        while i < n
            invariant
                n == lines@.len(),
                n > 0,
                i <= n,
                offs == lines@.map_values(|l: FoundLine| l.info.offset),
                old_self == *old(self),
                forall|j: int|
                    0 <= j < i ==> #[trigger] lines@[j].chip@ == chip_after(old_self.chip@, lines@, j + 1),
                self.wf(),
                old_self.wf(),
                self.chip@ == chip_after(old_self.chip@, lines@, i as int),
                i == 0 ==> *self == old_self,
                self.base == old_self.base,
                self.line_offsets() == with_added(old_self.line_offsets(), offs.subrange(0, i as int)),
                i > 0 ==> self.selected_lines() == seq![offs[i - 1]],
                self.line_configs() == configs_with_added(old_self, offs.subrange(0, i as int)),
            decreases n - i,
        {
            proof {
                assert(chip_for(*self, lines@[i as int]) == chip_after(old_self.chip@, lines@, i + 1));
            }
            match self.with_found_line(&lines[i]) {
                Ok(_) => {},
                Err(e) => {
                    proof {
                        assert(lines@[i as int].chip@ != chip_after(old_self.chip@, lines@, i + 1));
                        assert(found_lines_failed_at(old_self, *self, lines@, i as int));
                    }
                    return Err(e);
                },
            }
            proof {
                let prev = offs.subrange(0, i as int);
                let cur = offs.subrange(0, i + 1);
                let o = lines@[i as int].info.offset;
                assert(cur =~= prev.push(o));
                lemma_with_added_push(old_self.line_offsets(), prev, o);
                assert forall|k: Offset| #[trigger] cur.contains(k) <==> (prev.contains(k) || k == o) by {
                    crate::line::value::lemma_push_contains(prev, o, k);
                }
                assert(self.line_configs() =~= configs_with_added(old_self, cur));
            }
            i += 1;
        }
        proof {
            assert(offs.subrange(0, n as int) =~= offs);
            lemma_with_added_contains(old_self.line_offsets(), offs);
        }
        let ghost mid = *self;
        let mut j: usize = 0;
        while j < n
            invariant
                n == lines@.len(),
                j <= n,
                offs == lines@.map_values(|l: FoundLine| l.info.offset),
                old_self == *old(self),
                forall|i: int|
                    0 <= i < n ==> #[trigger] lines@[i].chip@ == chip_after(old_self.chip@, lines@, i + 1),
                self.wf(),
                self.chip@ == mid.chip@,
                self.base == mid.base,
                self.line_offsets() == mid.line_offsets(),
                self.line_configs() == mid.line_configs(),
                forall|k: Offset| #[trigger] offs.contains(k) ==> mid.line_offsets().contains(k),
                self.selected_lines() == with_added(mid.selected_lines(), offs.subrange(0, j as int)),
            decreases n - j,
        {
            let o = lines[j].info.offset;
            proof {
                assert(offs[j as int] == o);
                assert(offs.contains(o));
                self.lemma_wf();
            }
            self.select_line(o);
            proof {
                let prev = offs.subrange(0, j as int);
                let cur = offs.subrange(0, j + 1);
                assert(cur =~= prev.push(o));
                lemma_with_added_push(mid.selected_lines(), prev, o);
                reveal_with_fuel(with_added, 2);
                assert(seq![o].drop_last() =~= Seq::<Offset>::empty());
            }
            j += 1;
        }
        proof {
            assert(offs.subrange(0, n as int) =~= offs);
            assert(offs.last() == offs[n - 1]);
        }
        Ok(self)
    }

    /// The configuration of a requested line.
    pub fn line_config(&self, offset: Offset) -> (r: Option<&line::Config>)
        requires
            self.wf(),
        ensures
            r is Some <==> self.line_configs().contains_key(offset),
            r matches Some(c) ==> *c == self.line_configs()[offset],
    {
        match self.find(offset) {
            Some(idx) => Some(&self.lcfg[idx]),
            None => None,
        }
    }

    /// The requested lines, in the order they were added.
    pub fn lines(&self) -> (r: &Vec<Offset>)
        ensures
            r@ == self.line_offsets(),
    {
        &self.offsets
    }

    /// The number of requested lines.
    pub fn num_lines(&self) -> (r: usize)
        requires
            self.wf(),
        ensures
            r == self.line_offsets().len(),
            r == self.line_configs().dom().len(),
    {
        proof {
            self.lemma_num_lines();
        }
        self.lcfg.len()
    }

    /// The number of lines with a configuration is the number of requested
    /// lines.
    pub proof fn lemma_num_lines(&self)
        requires
            self.wf(),
        ensures
            self.line_configs().dom().len() == self.line_offsets().len(),
            self.line_configs().dom().finite(),
    {
        self.offsets@.unique_seq_to_set();
        assert(self.line_configs().dom() =~= self.offsets@.to_set());
    }

    /// Return true if the chip to request lines from is `path`.
    pub fn chip_is(&self, path: &str) -> (r: bool)
        ensures
            r == (self.chip_path() == path@),
    {
        let p = String::from_str(path);
        self.chip == p
    }

    /// The path of the chip to request lines from.
    pub fn chip(&self) -> (r: &str)
        ensures
            r@ == self.chip_path(),
    {
        self.chip.as_str()
    }

    /// The configuration applied to lines as they are added.
    pub fn base(&self) -> (r: &line::Config)
        ensures
            *r == self.base_config(),
    {
        &self.base
    }

    /// The lines currently selected.
    pub fn selected(&self) -> (r: &Vec<Offset>)
        ensures
            r@ == self.selected_lines(),
    {
        &self.selected
    }
}

/// The message of the error for v1 requests with lines configured
/// differently.
pub open spec fn shared_config_error(e: Error) -> bool {
    e matches Error::AbiLimitation(v, m) && v == AbiVersion::V1 && m@
        == "requires all lines to share the same configuration"@
}

/// Every requested line has a configuration equivalent to that of the
/// first.
pub open spec fn all_equivalent(c: Config) -> bool {
    forall|i: int|
        0 <= i < c.line_offsets().len() ==> configs_equivalent(
            c.line_configs()[c.line_offsets()[0]],
            #[trigger] c.line_configs()[c.line_offsets()[i]],
        )
}

/// The v1 value at index `j` of the lines of a config: the numeric form of
/// the effective value of the line at that index, or zero beyond the lines.
pub open spec fn v1_config_value(c: Config, j: int) -> u8 {
    if 0 <= j < c.line_offsets().len() {
        value_as_u8(effective_value(c.line_configs()[c.line_offsets()[j]]))
    } else {
        0
    }
}

impl Config {
    /// The configuration of the line at a position.
    fn config_at(&self, i: usize) -> (c: line::Config)
        requires
            self.wf(),
            i < self.line_offsets().len(),
        ensures
            c == self.line_configs()[self.line_offsets()[i as int]],
    {
        proof {
            lemma_position(self.offsets@, i as int);
        }
        self.lcfg[i]
    }

    /// The configuration shared by all the requested lines, which the v1
    /// uAPI requires, or an error if they differ in more than their values.
    pub fn unique(&self) -> (r: Result<&line::Config, Error>)
        requires
            self.wf(),
            self.line_offsets().len() > 0,
        ensures
            all_equivalent(*self) ==> (r matches Ok(c) && *c == self.line_configs()[self.line_offsets()[0]]),
            !all_equivalent(*self) ==> (r matches Err(e) && shared_config_error(e)),
    {
        proof {
            lemma_position(self.offsets@, 0);
        }
        let first = &self.lcfg[0];
        let n = self.offsets.len();
        let mut i: usize = 1;
        while i < n
            invariant
                self.wf(),
                n == self.line_offsets().len(),
                1 <= i <= n,
                *first == self.line_configs()[self.line_offsets()[0]],
                forall|j: int|
                    0 <= j < i ==> configs_equivalent(*first, #[trigger] self.line_configs()[self.line_offsets()[j]]),
            decreases n - i,
        {
            let c = self.config_at(i);
            if !first.equivalent(&c) {
                return Err(
                    Error::AbiLimitation(
                        AbiVersion::V1,
                        String::from_str("requires all lines to share the same configuration"),
                    ),
                );
            }
            i += 1;
        }
        Ok(first)
    }

    /// The configuration for a reconfiguration of these lines by `top`:
    /// the lines keep their order, and each takes its configuration from
    /// `top` if it has one there, else keeps its own.  Lines only in `top`
    /// are ignored.
    pub fn overlay(&self, top: &Config) -> (r: Config)
        requires
            self.wf(),
            top.wf(),
        ensures
            r.wf(),
            r.chip_path() == Seq::<char>::empty(),
            r.base_config() == line::config::default_config(),
            r.selected_lines() == Seq::<Offset>::empty(),
            r.line_offsets() == self.line_offsets(),
            r.line_configs() == Map::new(
                |k: Offset| self.line_configs().contains_key(k),
                |k: Offset|
                    if top.line_configs().contains_key(k) {
                        top.line_configs()[k]
                    } else {
                        self.line_configs()[k]
                    },
            ),
    {
        let n = self.offsets.len();
        let mut lcfg: Vec<line::Config> = Vec::new();
        let mut i: usize = 0;
        while i < n
            invariant
                self.wf(),
                top.wf(),
                n == self.line_offsets().len(),
                i <= n,
                lcfg@.len() == i,
                forall|j: int|
                    0 <= j < i ==> #[trigger] lcfg@[j] == (if top.line_configs().contains_key(
                        self.line_offsets()[j],
                    ) {
                        top.line_configs()[self.line_offsets()[j]]
                    } else {
                        self.line_configs()[self.line_offsets()[j]]
                    }),
            decreases n - i,
        {
            let o = self.offsets[i];
            let c = match top.line_config(o) {
                Some(c) => *c,
                None => self.config_at(i),
            };
            lcfg.push(c);
            i += 1;
        }
        let r = Config {
            chip: String::new(),
            base: line::Config::default(),
            offsets: self.offsets.clone(),
            lcfg,
            selected: Vec::new(),
        };
        proof {
            assert(r.offsets@ =~= self.offsets@);
            assert forall|k: Offset| #[trigger] r.line_configs().contains_key(k) implies r.line_configs()[k]
                == (if top.line_configs().contains_key(k) {
                top.line_configs()[k]
            } else {
                self.line_configs()[k]
            }) by {
                let p = position_of(r.offsets@, k);
                assert(r.offsets@[p] == k);
                lemma_position(self.offsets@, p);
            }
            assert(r.line_configs() =~= Map::new(
                |k: Offset| self.line_configs().contains_key(k),
                |k: Offset|
                    if top.line_configs().contains_key(k) {
                        top.line_configs()[k]
                    } else {
                        self.line_configs()[k]
                    },
            ));
        }
        r
    }

    /// Take the line configurations of `cfg`, which has the same lines.
    pub fn update(&mut self, cfg: Config)
        requires
            old(self).wf(),
            cfg.wf(),
            cfg.line_offsets() == old(self).line_offsets(),
        ensures
            final(self).wf(),
            final(self).chip_path() == old(self).chip_path(),
            final(self).base_config() == old(self).base_config(),
            final(self).line_offsets() == old(self).line_offsets(),
            final(self).selected_lines() == old(self).selected_lines(),
            final(self).line_configs() == cfg.line_configs(),
    {
        self.lcfg = cfg.lcfg;
    }

    /// The v1 values of the lines, by index: the effective value of each.
    pub fn to_v1_values(&self) -> (r: LineValuesV1)
        requires
            self.wf(),
            self.line_offsets().len() <= 64,
        ensures
            r@ == Seq::new(64, |j: int| v1_config_value(*self, j)),
    {
        let n = self.offsets.len();
        let mut values = LineValuesV1::new();
        let mut i: usize = 0;
        while i < n
            invariant
                self.wf(),
                n == self.line_offsets().len(),
                n <= 64,
                i <= n,
                values@ == Seq::new(64, |j: int| if j < i { v1_config_value(*self, j) } else { 0u8 }),
            decreases n - i,
        {
            let c = self.config_at(i);
            values.set(i, u8::from(c.value()));
            i += 1;
            proof {
                assert(values@ =~= Seq::new(64, |j: int| if j < i { v1_config_value(*self, j) } else { 0u8 }));
            }
        }
        proof {
            assert(values@ =~= Seq::new(64, |j: int| v1_config_value(*self, j)));
        }
        values
    }

    /// The v1 configuration for the lines, which must share a
    /// configuration.
    pub fn to_v1(&self) -> (r: Result<HandleConfigV1, Error>)
        requires
            self.wf(),
            0 < self.line_offsets().len() <= 64,
        ensures
            !all_equivalent(*self) ==> (r matches Err(e) && shared_config_error(e)),
            all_equivalent(*self) ==> (r matches Ok(hc) && hc.flags == config_v1_handle_flags(
                self.line_configs()[self.line_offsets()[0]],
            ) && hc.values@ == Seq::new(64, |j: int| v1_config_value(*self, j))),
    {
        let lcfg = match self.unique() {
            Ok(c) => c,
            Err(e) => {
                return Err(e);
            },
        };
        Ok(HandleConfigV1 { flags: lcfg.to_v1_handle_flags(), values: self.to_v1_values() })
    }
}

/// The configuration of the line at index `j` of the requested lines.
pub open spec fn config_at_index(c: Config, j: int) -> line::Config {
    c.line_configs()[c.line_offsets()[j]]
}

/// The v2 flags of each requested line, by index.
pub open spec fn flags_seq(c: Config) -> Seq<u64> {
    Seq::new(c.line_offsets().len(), |j: int| config_v2_flags(config_at_index(c, j)))
}

/// The debounce period, in whole microseconds rounded up, of each requested
/// line, by index.
pub open spec fn debounce_seq(c: Config) -> Seq<Option<u32>> {
    Seq::new(
        c.line_offsets().len(),
        |j: int|
            match config_at_index(c, j).debounce_period {
                Some(p) => Some(micros_rounded_up(p@) as u32),
                None => None,
            },
    )
}

/// The line at index `j` is an output.
pub open spec fn is_output_at(c: Config, j: int) -> bool {
    config_at_index(c, j).direction == Some(Direction::Output)
}

/// The line at index `j` is an output set active.
pub open spec fn is_active_at(c: Config, j: int) -> bool {
    is_output_at(c, j) && effective_value(config_at_index(c, j)) == Value::Active
}

/// Some requested line is an output set active.
pub open spec fn any_active(c: Config) -> bool {
    exists|j: int| 0 <= j < c.line_offsets().len() && #[trigger] is_active_at(c, j)
}

/// The number of attributes a v2 line config needs for the lines: one per
/// distinct set of flags but the most common, one per distinct debounce
/// period, and one for the output values if any output is active.
pub open spec fn needed_attrs(c: Config) -> int {
    let n = c.line_offsets().len() as int;
    flags_set(flags_seq(c), n).len() + debounce_set(debounce_seq(c), n).len() - 1 + (if any_active(c) {
        1int
    } else {
        0int
    })
}

/// The error for a configuration that needs more attributes than the v2
/// uAPI provides.
pub open spec fn attr_limit_error(e: Error, needed: int) -> bool {
    e matches Error::AbiLimitation(v, m) && v == AbiVersion::V2 && m@
        == "supports 10 attrs, configuration requires "@ + decimal_spec(needed as nat)
}

/// The v2 line config applies to each requested line, by index, its own
/// flags and debounce period, and, where any output is active, the value of
/// each output; it selects no other lines.
pub open spec fn v2_config_applies(c: Config, lc: LineConfigV2) -> bool {
    let n = c.line_offsets().len();
    &&& lc.num_attrs == lc.attrs@.len()
    &&& forall|k: int, j: u64|
        0 <= k < lc.attrs@.len() && j < 64 && #[trigger] bit(lc.attrs@[k].mask, j) ==> j < n
    &&& forall|j: u64| j < n ==> #[trigger] applied_flags(lc, j) == flags_seq(c)[j as int]
    &&& forall|j: u64| j < n ==> #[trigger] applied_debounce(lc, j) == debounce_seq(c)[j as int]
    &&& forall|j: u64|
        j < n ==> #[trigger] applied_value(lc, j) == (if any_active(c) && is_output_at(c, j as int) {
            Some(is_active_at(c, j as int))
        } else {
            None
        })
}

/// The flags are those of the most lines.
pub open spec fn most_common_flags(c: Config, f: u64) -> bool {
    let n = c.line_offsets().len() as int;
    &&& flags_set(flags_seq(c), n).contains(f)
    &&& forall|j: int|
        0 <= j < n ==> count_eq(flags_seq(c), #[trigger] flags_seq(c)[j], n) <= count_eq(
            flags_seq(c),
            f,
            n,
        )
}

/// The attributes of the v2 line config `lc` are the fewest that express
/// the lines' configuration: a flags attribute for each set of line flags
/// other than the config's own, selecting the lines with those flags; then,
/// if some output is active, one output values attribute selecting the
/// outputs, with the active ones set; then a debounce attribute for each
/// distinct debounce period, selecting the lines with that period.
pub open spec fn v2_attrs_laid_out(c: Config, lc: LineConfigV2) -> bool {
    let n = c.line_offsets().len() as int;
    let fs = flags_seq(c);
    let ds = debounce_seq(c);
    let nf = flags_set(fs, n).len() - 1;
    let nv: int = if any_active(c) {
        1
    } else {
        0
    };
    let attrs = lc.attrs@;
    &&& lc.num_attrs == needed_attrs(c)
    &&& attrs.len() == nf + nv + debounce_set(ds, n).len()
    &&& forall|k: int|
        #![trigger attrs[k]]
        0 <= k < nf ==> (attrs[k].value matches LineAttributeValueV2::Flags(f) && f != lc.flags
            && flags_set(fs, n).contains(f) && forall|j: u64|
            j < 64 ==> #[trigger] bit(attrs[k].mask, j) == (j < n && fs[j as int] == f))
    &&& forall|k1: int, k2: int| 0 <= k1 < k2 < nf ==> attrs[k1].value != attrs[k2].value
    &&& forall|f: u64|
        #[trigger] flags_set(fs, n).contains(f) && f != lc.flags ==> exists|k: int|
            0 <= k < nf && attrs[k].value == LineAttributeValueV2::Flags(f)
    &&& nv == 1 ==> (attrs[nf].value matches LineAttributeValueV2::Values(bits) && forall|j: u64|
        j < 64 ==> (#[trigger] bit(attrs[nf].mask, j) == (j < n && is_output_at(c, j as int))
            && bit(bits, j) == (j < n && is_active_at(c, j as int))))
    &&& forall|k: int|
        #![trigger attrs[k]]
        nf + nv <= k < attrs.len() ==> (attrs[k].value matches LineAttributeValueV2::DebouncePeriod(d)
            && debounce_set(ds, n).contains(d) && forall|j: u64|
            j < 64 ==> #[trigger] bit(attrs[k].mask, j) == (j < n && ds[j as int] == Some(d)))
    &&& forall|k1: int, k2: int| nf + nv <= k1 < k2 < attrs.len() ==> attrs[k1].value != attrs[k2].value
    &&& forall|d: u32|
        #[trigger] debounce_set(ds, n).contains(d) ==> exists|k: int|
            nf + nv <= k < attrs.len() && attrs[k].value == LineAttributeValueV2::DebouncePeriod(d)
}

/// The attributes assembled from the flag groups, the output masks and the
/// debounce groups of the lines are laid out as the fewest that express the
/// lines' configuration.
proof fn lemma_attrs_laid_out(
    c: Config,
    gflags: Seq<u64>,
    gmask: Seq<u64>,
    gcount: Seq<usize>,
    b: int,
    vmask: u64,
    vbits: u64,
    dus: Seq<u32>,
    dmask: Seq<u64>,
    lc: LineConfigV2,
)
    requires
        c.line_offsets().len() <= 64,
        flag_groups(flags_seq(c), c.line_offsets().len() as int, gflags, gmask, gcount),
        gflags.to_set() == flags_set(flags_seq(c), c.line_offsets().len() as int),
        gflags.len() == flags_set(flags_seq(c), c.line_offsets().len() as int).len(),
        0 <= b < gflags.len(),
        debounce_groups(debounce_seq(c), c.line_offsets().len() as int, dus, dmask),
        dus.len() == debounce_set(debounce_seq(c), c.line_offsets().len() as int).len(),
        forall|j: u64|
            j < 64 ==> #[trigger] bit(vmask, j) == (j < c.line_offsets().len() && is_output_at(c, j as int)),
        forall|j: u64|
            j < 64 ==> #[trigger] bit(vbits, j) == (j < c.line_offsets().len() && is_active_at(c, j as int)),
        (vbits != 0) == any_active(c),
        lc.flags == gflags[b],
        lc.num_attrs == needed_attrs(c),
        attrs_layout(lc.attrs@, gflags, gmask, b, vmask, vbits, dus, dmask),
    ensures
        v2_attrs_laid_out(c, lc),
{
    let n = c.line_offsets().len() as int;
    let fs = flags_seq(c);
    let ds = debounce_seq(c);
    let attrs = lc.attrs@;
    let nf = gflags.len() - 1;
    let nv: int = if vbits != 0 {
        1
    } else {
        0
    };
    assert forall|k: int| #![trigger attrs[k]] 0 <= k < nf implies (attrs[k].value matches LineAttributeValueV2::Flags(f)
        && f != lc.flags && flags_set(fs, n).contains(f) && forall|j: u64|
        j < 64 ==> #[trigger] bit(attrs[k].mask, j) == (j < n && fs[j as int] == f)) by {
        let g = group_of_attr(k, b);
        assert(attrs[k] == flags_attr(gflags[g], gmask[g]));
        assert(gflags[g] != gflags[b]);
        assert(gflags.to_set().contains(gflags[g]));
    }
    assert forall|k1: int, k2: int| 0 <= k1 < k2 < nf implies attrs[k1].value != attrs[k2].value by {
        let g1 = group_of_attr(k1, b);
        let g2 = group_of_attr(k2, b);
        assert(attrs[k1] == flags_attr(gflags[g1], gmask[g1]));
        assert(attrs[k2] == flags_attr(gflags[g2], gmask[g2]));
        assert(gflags[g1] != gflags[g2]);
    }
    assert forall|f: u64| #[trigger] flags_set(fs, n).contains(f) && f != lc.flags implies exists|k: int|
        0 <= k < nf && attrs[k].value == LineAttributeValueV2::Flags(f) by {
        assert(gflags.to_set().contains(f));
        let g = choose|g: int| 0 <= g < gflags.len() && gflags[g] == f;
        let k = if g < b {
            g
        } else {
            g - 1
        };
        assert(group_of_attr(k, b) == g);
        assert(attrs[k] == flags_attr(gflags[g], gmask[g]));
    }
    if nv == 1 {
        assert(attrs[nf] == values_attr(vbits, vmask));
    }
    assert forall|k: int| #![trigger attrs[k]] nf + nv <= k < attrs.len() implies (attrs[k].value
        matches LineAttributeValueV2::DebouncePeriod(d) && debounce_set(ds, n).contains(d) && forall|j: u64|
        j < 64 ==> #[trigger] bit(attrs[k].mask, j) == (j < n && ds[j as int] == Some(d))) by {
        let g = k - nf - nv;
        assert(attrs[k] == debounce_attr(dus[g], dmask[g]));
        assert(dus.to_set().contains(dus[g]));
    }
    assert forall|k1: int, k2: int| nf + nv <= k1 < k2 < attrs.len() implies attrs[k1].value
        != attrs[k2].value by {
        let g1 = k1 - nf - nv;
        let g2 = k2 - nf - nv;
        assert(attrs[k1] == debounce_attr(dus[g1], dmask[g1]));
        assert(attrs[k2] == debounce_attr(dus[g2], dmask[g2]));
        assert(dus[g1] != dus[g2]);
    }
    assert forall|d: u32| #[trigger] debounce_set(ds, n).contains(d) implies exists|k: int|
        nf + nv <= k < attrs.len() && attrs[k].value == LineAttributeValueV2::DebouncePeriod(d) by {
        assert(dus.to_set().contains(d));
        let g = choose|g: int| 0 <= g < dus.len() && dus[g] == d;
        let k = nf + nv + g;
        assert(attrs[k] == debounce_attr(dus[k - nf - nv], dmask[k - nf - nv]));
    }
}

impl Config {
    /// The per line data of the v2 config: flags and debounce by index, and
    /// the masks of the outputs and of the active outputs.
    fn line_data(&self) -> (r: (Vec<u64>, Vec<Option<u32>>, u64, u64))
        requires
            self.wf(),
            self.line_offsets().len() <= 64,
        ensures
            r.0@ == flags_seq(*self),
            r.1@ == debounce_seq(*self),
            forall|j: u64|
                j < 64 ==> #[trigger] bit(r.2, j) == (j < self.line_offsets().len() && is_output_at(
                    *self,
                    j as int,
                )),
            forall|j: u64|
                j < 64 ==> #[trigger] bit(r.3, j) == (j < self.line_offsets().len() && is_active_at(
                    *self,
                    j as int,
                )),
            (r.3 != 0) == any_active(*self),
    {
        let n = self.offsets.len();
        let mut fl: Vec<u64> = Vec::new();
        let mut db: Vec<Option<u32>> = Vec::new();
        let mut vmask: u64 = 0;
        let mut vbits: u64 = 0;
        proof {
            assert forall|j: u64| j < 64 implies !#[trigger] bit(0u64, j) by {
                lemma_bit_zero(j);
            }
        }
        let mut idx: usize = 0;
        while idx < n
            invariant
                self.wf(),
                n == self.line_offsets().len(),
                n <= 64,
                idx <= n,
                fl@ == flags_seq(*self).subrange(0, idx as int),
                db@ == debounce_seq(*self).subrange(0, idx as int),
                forall|j: u64| j < 64 ==> #[trigger] bit(vmask, j) == (j < idx && is_output_at(*self, j as int)),
                forall|j: u64| j < 64 ==> #[trigger] bit(vbits, j) == (j < idx && is_active_at(*self, j as int)),
                (vbits != 0) == (exists|j: int| 0 <= j < idx && #[trigger] is_active_at(*self, j)),
            decreases n - idx,
        {
            let c = self.config_at(idx);
            fl.push(c.to_v2_flags());
            let d = match c.debounce_period {
                Some(p) => Some(p.as_micros_rounded_up()),
                None => None,
            };
            db.push(d);
            let ghost old_mask = vmask;
            let ghost old_bits = vbits;
            let output = match c.direction {
                Some(Direction::Output) => true,
                _ => false,
            };
            let active = output && c.value() == Value::Active;
            if output {
                vmask = vmask | (1u64 << (idx as u64));
            }
            if active {
                vbits = vbits | (1u64 << (idx as u64));
            }
            proof {
                assert(fl@ =~= flags_seq(*self).subrange(0, idx + 1));
                assert(db@ =~= debounce_seq(*self).subrange(0, idx + 1));
                assert forall|j: u64| j < 64 implies #[trigger] bit(vmask, j) == (j < idx + 1 && is_output_at(*self, j as int)) by {
                    if output {
                        lemma_bit_set(old_mask, idx as u64, j);
                    }
                }
                assert forall|j: u64| j < 64 implies #[trigger] bit(vbits, j) == (j < idx + 1 && is_active_at(*self, j as int)) by {
                    if active {
                        lemma_bit_set(old_bits, idx as u64, j);
                    }
                }
                if is_active_at(*self, idx as int) {
                    assert(bit(vbits, idx as u64));
                    lemma_bit_nonzero(vbits, idx as u64);
                    assert(exists|j: int| 0 <= j < idx + 1 && #[trigger] is_active_at(*self, j));
                } else {
                    if exists|j: int| 0 <= j < idx + 1 && #[trigger] is_active_at(*self, j) {
                        let j = choose|j: int| 0 <= j < idx + 1 && #[trigger] is_active_at(*self, j);
                        assert(j < idx);
                    }
                }
            }
            idx += 1;
        }
        proof {
            assert(fl@ =~= flags_seq(*self));
            assert(db@ =~= debounce_seq(*self));
        }
        (fl, db, vmask, vbits)
    }

    /// The v2 line config for the lines.
    ///
    /// The flags most common among the lines are the config's flags; the
    /// others, the output values and the debounce periods are held in
    /// attributes, each selecting its lines by index.  Fails if more
    /// attributes are needed than the uAPI provides.
    pub fn to_v2(&self) -> (r: Result<LineConfigV2, Error>)
        requires
            self.wf(),
            0 < self.line_offsets().len() <= 64,
        ensures
            needed_attrs(*self) > NUM_ATTRS_MAX ==> (r matches Err(e) && attr_limit_error(
                e,
                needed_attrs(*self),
            )),
            needed_attrs(*self) <= NUM_ATTRS_MAX ==> (r matches Ok(lc) && v2_config_applies(*self, lc)
                && most_common_flags(*self, lc.flags) && v2_attrs_laid_out(*self, lc)),
    {
        let n = self.offsets.len();
        let (fl, db, vmask, vbits) = self.line_data();
        let (gflags, gmask, gcount) = group_flags(&fl);
        let (dus, dmask) = group_debounce(&db);
        let extra: usize = if vbits != 0 {
            1
        } else {
            0
        };
        let num_attrs: usize = gflags.len() + dus.len() - 1 + extra;
        proof {
            assert(num_attrs == needed_attrs(*self));
        }
        if num_attrs > NUM_ATTRS_MAX {
            let mut m = String::from_str("supports 10 attrs, configuration requires ");
            let count = decimal(num_attrs as u64);
            m.append(count.as_str());
            return Err(Error::AbiLimitation(AbiVersion::V2, m));
        }
        let b = most_common(&gcount);
        let attrs = assemble_attrs(&gflags, &gmask, b, vmask, vbits, &dus, &dmask);
        let lc = LineConfigV2 { flags: gflags[b], num_attrs: num_attrs as u32, attrs };
        proof {
            lemma_attrs_laid_out(
                *self,
                gflags@,
                gmask@,
                gcount@,
                b as int,
                vmask,
                vbits,
                dus@,
                dmask@,
                lc,
            );
            lemma_layout_applies(
                fl@,
                db@,
                n as int,
                gflags@,
                gmask@,
                gcount@,
                b as int,
                vmask,
                vbits,
                dus@,
                dmask@,
                lc,
            );
            assert forall|j: u64| j < n implies #[trigger] applied_value(lc, j) == (if any_active(*self)
                && is_output_at(*self, j as int) {
                Some(is_active_at(*self, j as int))
            } else {
                None
            }) by {
                assert(bit(vmask, j) == (j < n && is_output_at(*self, j as int)));
                assert(bit(vbits, j) == (j < n && is_active_at(*self, j as int)));
            }
            assert(gflags@.contains(gflags@[b as int]));
            assert(gflags@.to_set().contains(gflags@[b as int]));
            assert forall|j: int| 0 <= j < n implies count_eq(flags_seq(*self), #[trigger] flags_seq(*self)[j], n as int)
                <= count_eq(flags_seq(*self), gflags@[b as int], n as int) by {
                assert(gflags@.contains(fl@[j]));
                let g = choose|g: int| 0 <= g < gflags@.len() && gflags@[g] == fl@[j];
                assert(gcount@[g] == count_eq(fl@, gflags@[g], n as int));
                assert(gcount@[b as int] == count_eq(fl@, gflags@[b as int], n as int));
            }
        }
        Ok(lc)
    }
}

impl Config {
    /// Put the requested lines in increasing offset order, each keeping its
    /// configuration.
    pub fn sort_lines(&mut self)
        requires
            old(self).wf(),
        ensures
            final(self).wf(),
            final(self).chip_path() == old(self).chip_path(),
            final(self).base_config() == old(self).base_config(),
            final(self).selected_lines() == old(self).selected_lines(),
            final(self).line_configs() == old(self).line_configs(),
            strictly_increasing(final(self).line_offsets()),
            final(self).line_offsets().len() == old(self).line_offsets().len(),
            forall|k: Offset| #[trigger] final(self).line_offsets().contains(k) <==> old(self).line_offsets().contains(k),
    {
        let ghost old_self = *self;
        let n = self.offsets.len();
        let mut no: Vec<Offset> = Vec::new();
        let mut nc: Vec<line::Config> = Vec::new();
        let mut i: usize = 0;
        while i < n
            invariant
                self.wf(),
                *self == old_self,
                n == self.offsets@.len(),
                i <= n,
                no@.len() == i,
                nc@.len() == i,
                strictly_increasing(no@),
                forall|k: Offset| #[trigger] no@.contains(k) <==> self.offsets@.subrange(0, i as int).contains(k),
                forall|p: int| 0 <= p < i ==> #[trigger] nc@[p] == self.line_configs()[no@[p]],
            decreases n - i,
        {
            let o = self.offsets[i];
            let c = self.config_at(i);
            let mut pos: usize = 0;
            while pos < no.len() && no[pos] < o
                invariant
                    pos <= no@.len(),
                    forall|q: int| 0 <= q < pos ==> no@[q] < o,
                decreases no@.len() - pos,
            {
                pos += 1;
            }
            let ghost before_o = no@;
            let ghost before_c = nc@;
            proof {
                assert(!before_o.contains(o)) by {
                    if before_o.contains(o) {
                        assert(self.offsets@.subrange(0, i as int).contains(o));
                        let q = choose|q: int| 0 <= q < i && self.offsets@.subrange(0, i as int)[q] == o;
                        assert(self.offsets@[q] == self.offsets@[i as int]);
                    }
                }
                if pos < before_o.len() {
                    assert(before_o[pos as int] != o);
                    assert(o < before_o[pos as int]);
                }
            }
            no.insert(pos, o);
            nc.insert(pos, c);
            proof {
                assert forall|a: int, b: int| 0 <= a < b < no@.len() implies no@[a] < no@[b] by {
                    if b < pos {
                        assert(no@[a] == before_o[a] && no@[b] == before_o[b]);
                    } else if b == pos {
                        assert(no@[a] == before_o[a]);
                    } else if a < pos {
                        assert(no@[a] == before_o[a] && no@[b] == before_o[b - 1]);
                        assert(before_o[pos as int] <= before_o[b - 1] || b - 1 == pos);
                    } else if a == pos {
                        assert(no@[b] == before_o[b - 1]);
                        assert(o < before_o[pos as int]);
                        if b - 1 > pos {
                            assert(before_o[pos as int] < before_o[b - 1]);
                        }
                    } else {
                        assert(no@[a] == before_o[a - 1] && no@[b] == before_o[b - 1]);
                    }
                }
                let prev = self.offsets@.subrange(0, i as int);
                let cur = self.offsets@.subrange(0, i + 1);
                assert(cur =~= prev.push(o));
                assert forall|k: Offset| #[trigger] no@.contains(k) <==> cur.contains(k) by {
                    crate::line::value::lemma_push_contains(prev, o, k);
                    if no@.contains(k) {
                        let q = choose|q: int| 0 <= q < no@.len() && no@[q] == k;
                        if q < pos {
                            assert(before_o[q] == k);
                        } else if q > pos {
                            assert(before_o[q - 1] == k);
                        }
                    }
                    if before_o.contains(k) {
                        let q = choose|q: int| 0 <= q < before_o.len() && before_o[q] == k;
                        if q < pos {
                            assert(no@[q] == k);
                        } else {
                            assert(no@[q + 1] == k);
                        }
                    }
                    if k == o {
                        assert(no@[pos as int] == k);
                    }
                }
                lemma_position(self.offsets@, i as int);
                assert forall|p: int| 0 <= p < i + 1 implies #[trigger] nc@[p] == self.line_configs()[no@[p]] by {
                    if p < pos {
                        assert(nc@[p] == before_c[p] && no@[p] == before_o[p]);
                    } else if p > pos {
                        assert(nc@[p] == before_c[p - 1] && no@[p] == before_o[p - 1]);
                    }
                }
            }
            i += 1;
        }
        proof {
            assert(self.offsets@.subrange(0, n as int) =~= self.offsets@);
            old_self.lemma_wf();
        }
        self.offsets = no;
        self.lcfg = nc;
        proof {
            assert forall|a: int, b: int| 0 <= a < b < self.offsets@.len() implies self.offsets@[a] != self.offsets@[b] by {
                assert(self.offsets@[a] < self.offsets@[b]);
            }
            assert forall|q: int| 0 <= q < self.selected@.len() implies self.offsets@.contains(#[trigger] self.selected@[q]) by {
                assert(old_self.offsets@.contains(old_self.selected@[q]));
            }
            assert forall|k: Offset| #[trigger] self.line_configs().contains_key(k) implies self.line_configs()[k]
                == old_self.line_configs()[k] by {
                let p = position_of(self.offsets@, k);
                assert(self.offsets@[p] == k);
            }
            assert(self.line_configs() =~= old_self.line_configs());
        }
    }
}

impl Clone for Config {
    fn clone(&self) -> (r: Self)
        ensures
            r.wf() == self.wf(),
            r.chip_path() == self.chip_path(),
            r.base_config() == self.base_config(),
            r.line_offsets() == self.line_offsets(),
            r.selected_lines() == self.selected_lines(),
            r.line_configs() == self.line_configs(),
    {
        let r = Config {
            chip: self.chip.clone(),
            base: self.base,
            offsets: self.offsets.clone(),
            lcfg: self.lcfg.clone(),
            selected: self.selected.clone(),
        };
        proof {
            assert(r.offsets@ =~= self.offsets@);
            assert(r.lcfg@ =~= self.lcfg@);
            assert(r.selected@ =~= self.selected@);
        }
        r
    }
}

impl Default for Config {
    fn default() -> (c: Self)
        ensures
            c.wf(),
            c.chip_path() == Seq::<char>::empty(),
            c.base_config() == line::config::default_config(),
            c.line_offsets() == Seq::<Offset>::empty(),
            c.selected_lines() == Seq::<Offset>::empty(),
            c.line_configs() == Map::<Offset, line::Config>::empty(),
    {
        Config::new()
    }
}

} // verus!
