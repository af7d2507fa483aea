//! Line values, individually and as collections keyed by line offset.
use super::Offset;
use crate::uapi::{bit, LineValuesV1, LineValuesV2, lemma_bit_all, lemma_bit_low_mask, lemma_bit_zero};
use vstd::prelude::*;

verus! {

/// The logical level of a line.
///
/// The mapping between logical and physical levels depends on the
///  active-low setting as follows:
///
/// |                 | Physical Low | Physical High |
/// |-----------------|--------------|---------------|
/// | **Active-High** | Inactive     | Active        |
/// | **Active-Low**  | Active       | Inactive      |
#[derive(Clone, Copy, Debug, PartialEq, Eq, Structural)]
pub enum Value {
    /// The line is inactive.
    Inactive,
    /// The line is active.
    Active,
}

/// The value opposite to `v`.
pub open spec fn opposite(v: Value) -> Value {
    match v {
        Value::Active => Value::Inactive,
        Value::Inactive => Value::Active,
    }
}

/// The boolean form of a value: true for active.
pub open spec fn value_is_active(v: Value) -> bool {
    v == Value::Active
}

/// The value corresponding to a boolean: true is active.
pub open spec fn value_of_bool(b: bool) -> Value {
    if b {
        Value::Active
    } else {
        Value::Inactive
    }
}

/// The numeric form of a value: 1 for active, 0 for inactive.
pub open spec fn value_as_u8(v: Value) -> u8 {
    if v == Value::Active {
        1u8
    } else {
        0u8
    }
}

impl Value {
    /// The value opposite the current value.
    pub fn not(&self) -> (r: Value)
        ensures
            r == opposite(*self),
    {
        match self {
            Value::Active => Value::Inactive,
            Value::Inactive => Value::Active,
        }
    }

    /// The textual form of the value, "active" or "inactive".
    pub fn name(&self) -> (s: &'static str)
        ensures
            *self == Value::Active ==> s@ == "active"@,
            *self == Value::Inactive ==> s@ == "inactive"@,
    {
        match self {
            Value::Active => "active",
            Value::Inactive => "inactive",
        }
    }
}

impl Default for Value {
    fn default() -> (v: Self)
        ensures
            v == Value::Inactive,
    {
        Value::Inactive
    }
}

impl From<Value> for bool {
    fn from(l: Value) -> (b: bool) {
        match l {
            Value::Inactive => false,
            Value::Active => true,
        }
    }
}

impl vstd::std_specs::convert::FromSpecImpl<Value> for bool {
    open spec fn obeys_from_spec() -> bool {
        true
    }

    open spec fn from_spec(l: Value) -> bool {
        value_is_active(l)
    }
}

impl From<Value> for u8 {
    fn from(l: Value) -> (u: u8) {
        match l {
            Value::Inactive => 0,
            Value::Active => 1,
        }
    }
}

impl vstd::std_specs::convert::FromSpecImpl<Value> for u8 {
    open spec fn obeys_from_spec() -> bool {
        true
    }

    open spec fn from_spec(l: Value) -> u8 {
        value_as_u8(l)
    }
}

impl From<bool> for Value {
    fn from(b: bool) -> (v: Value) {
        match b {
            false => Value::Inactive,
            true => Value::Active,
        }
    }
}

impl vstd::std_specs::convert::FromSpecImpl<bool> for Value {
    open spec fn obeys_from_spec() -> bool {
        true
    }

    open spec fn from_spec(b: bool) -> Value {
        value_of_bool(b)
    }
}

impl From<u8> for Value {
    fn from(i: u8) -> (v: Value) {
        match i {
            0 => Value::Inactive,
            _ => Value::Active,
        }
    }
}

impl vstd::std_specs::convert::FromSpecImpl<u8> for Value {
    open spec fn obeys_from_spec() -> bool {
        true
    }

    open spec fn from_spec(i: u8) -> Value {
        value_of_bool(i != 0)
    }
}

/// Negating a value twice gives the value back.
pub proof fn lemma_opposite_involution(v: Value)
    ensures
        opposite(opposite(v)) == v,
        opposite(v) != v,
{
}

/// Converting a value to a boolean and back gives the value back, as does
/// converting to a `u8` and back.
pub proof fn lemma_value_conversions_roundtrip(v: Value)
    ensures
        value_of_bool(value_is_active(v)) == v,
        value_of_bool(value_as_u8(v) != 0) == v,
{
}

/// The value of a particular line.
#[derive(Clone, Copy, Debug, PartialEq, Eq, Structural)]
pub struct LineValue {
    /// the offset of the line
    pub offset: Offset,
    /// the value of the line
    pub value: Value,
}

impl Default for LineValue {
    fn default() -> (lv: Self)
        ensures
            lv.offset == 0,
            lv.value == Value::Inactive,
    {
        LineValue { offset: 0, value: Value::Inactive }
    }
}

/// The entries are in strictly increasing offset order, so each offset
/// occurs at most once.
pub open spec fn strictly_sorted(s: Seq<LineValue>) -> bool {
    forall|i: int, j: int| 0 <= i < j < s.len() ==> s[i].offset < s[j].offset
}

/// Some entry of `s` is for line `o`.
pub open spec fn holds_offset(s: Seq<LineValue>, o: Offset) -> bool {
    exists|i: int| 0 <= i < s.len() && s[i].offset == o
}

/// The map from line offset to value described by a sequence of entries.
pub open spec fn entries_map(s: Seq<LineValue>) -> Map<Offset, Value> {
    Map::new(
        |o: Offset| holds_offset(s, o),
        |o: Offset| s[choose|i: int| 0 <= i < s.len() && s[i].offset == o].value,
    )
}

/// In a strictly sorted sequence the entry for an offset is the one at the
/// position holding that offset.
pub proof fn lemma_entry_at(s: Seq<LineValue>, i: int)
    requires
        strictly_sorted(s),
        0 <= i < s.len(),
    ensures
        entries_map(s).contains_key(s[i].offset),
        entries_map(s)[s[i].offset] == s[i].value,
{
    let o = s[i].offset;
    assert(holds_offset(s, o));
    let j = choose|j: int| 0 <= j < s.len() && s[j].offset == o;
    if j < i {
        assert(s[j].offset < s[i].offset);
    } else if i < j {
        assert(s[i].offset < s[j].offset);
    }
}

/// Every key of the map of a sequence is the offset at some position.
pub proof fn lemma_key_position(s: Seq<LineValue>, o: Offset) -> (i: int)
    requires
        strictly_sorted(s),
        entries_map(s).contains_key(o),
    ensures
        0 <= i < s.len(),
        s[i].offset == o,
        entries_map(s)[o] == s[i].value,
{
    let i = choose|i: int| 0 <= i < s.len() && s[i].offset == o;
    lemma_entry_at(s, i);
    i
}

/// A collection of line values.
///
/// Lines are identified by their offset, and the values are kept in
/// increasing offset order.
#[derive(Debug, PartialEq, Eq)]
pub struct Values(Vec<LineValue>);

impl Clone for Values {
    fn clone(&self) -> (r: Self)
        ensures
            r@ == self@,
            r.entries() == self.entries(),
    {
        proof {
            use_type_invariant(self);
        }
        let mut v: Vec<LineValue> = Vec::new();
        let mut i: usize = 0;
        while i < self.0.len()
            invariant
                i <= self.0@.len(),
                v@ == self.0@.subrange(0, i as int),
            decreases self.0@.len() - i,
        {
            v.push(self.0[i]);
            i += 1;
        }
        assert(v@ =~= self.0@);
        Values(v)
    }
}

impl Default for Values {
    fn default() -> (v: Self)
        ensures
            v@ == Map::<Offset, Value>::empty(),
    {
        Values::new()
    }
}

impl View for Values {
    type V = Map<Offset, Value>;

    closed spec fn view(&self) -> Map<Offset, Value> {
        entries_map(self.0@)
    }
}

impl Values {
    #[verifier::type_invariant]
    spec fn inv(self) -> bool {
        strictly_sorted(self.0@)
    }

    /// The entries of the collection, in increasing offset order.
    pub closed spec fn entries(&self) -> Seq<LineValue> {
        self.0@
    }

    /// Construct an empty collection.
    pub fn new() -> (v: Values)
        ensures
            v@ == Map::<Offset, Value>::empty(),
            v.entries().len() == 0,
    {
        let v = Values(Vec::new());
        assert(v@ =~= Map::<Offset, Value>::empty());
        v
    }

    /// Locate the position of a line in the sorted entries: `Ok` with its
    /// position if present, else `Err` with the position it would take.
    fn search(&self, offset: Offset) -> (r: Result<usize, usize>)
        ensures
            match r {
                Ok(i) => i < self.0@.len() && self.0@[i as int].offset == offset,
                Err(i) => i <= self.0@.len() && (forall|j: int|
                    0 <= j < i ==> self.0@[j].offset < offset) && (forall|j: int|
                    i <= j < self.0@.len() ==> self.0@[j].offset > offset),
            },
    {
        proof {
            use_type_invariant(self);
        }
        let mut lo: usize = 0;
        let mut hi: usize = self.0.len();
        while lo < hi
            invariant
                lo <= hi <= self.0@.len(),
                strictly_sorted(self.0@),
                forall|j: int| 0 <= j < lo ==> self.0@[j].offset < offset,
                forall|j: int| hi <= j < self.0@.len() ==> self.0@[j].offset > offset,
            decreases hi - lo,
        {
            let mid = lo + (hi - lo) / 2;
            let mo = self.0[mid].offset;
            if mo == offset {
                return Ok(mid);
            } else if mo < offset {
                lo = mid + 1;
            } else {
                hi = mid;
            }
        }
        Err(lo)
    }

    /// Get the value of a line.
    pub fn get(&self, offset: Offset) -> (r: Option<Value>)
        ensures
            r == self@.get(offset),
    {
        proof {
            use_type_invariant(self);
        }
        match self.search(offset) {
            Ok(idx) => {
                proof {
                    lemma_entry_at(self.0@, idx as int);
                }
                Some(self.0[idx].value)
            },
            Err(_idx) => {
                proof {
                    if self@.contains_key(offset) {
                        lemma_key_position(self.0@, offset);
                    }
                }
                None
            },
        }
    }

    /// Set the value of a line.
    pub fn set(&mut self, offset: Offset, value: Value) -> (r: &mut Self)
        ensures
            r@ == old(self)@.insert(offset, value),
            *final(self) == *final(r),
    {
        self.put(offset, value);
        self
    }

    fn put(&mut self, offset: Offset, value: Value)
        ensures
            final(self)@ == old(self)@.insert(offset, value),
    {
        proof {
            use_type_invariant(&*self);
        }
        let ghost old_s = self.0@;
        let lv = LineValue { offset, value };
        let pos = self.search(offset);
        let mut v: Vec<LineValue> = Vec::new();
        std::mem::swap(&mut v, &mut self.0);
        match pos {
            Ok(idx) => {
                proof {
                    lemma_update_sorted(old_s, idx as int, value);
                }
                v.set(idx, lv);
            },
            Err(idx) => {
                proof {
                    lemma_insert_sorted(old_s, idx as int, lv);
                    lemma_insert_map(old_s, idx as int, lv);
                }
                if idx == v.len() {
                    // appending
                    v.push(lv);
                    proof {
                        assert(v@ =~= old_s.insert(idx as int, lv));
                    }
                } else {
                    v.insert(idx, lv);
                }
            },
        }
        self.0 = v;
    }

    /// Toggle all values.
    pub fn not(&mut self) -> (r: &mut Self)
        ensures
            r@ == negated(old(self)@),
            *final(self) == *final(r),
    {
        proof {
            use_type_invariant(&*self);
        }
        let ghost old_s = self.0@;
        let mut v: Vec<LineValue> = Vec::new();
        std::mem::swap(&mut v, &mut self.0);
        let n = v.len();
        let mut i: usize = 0;
        while i < n
            invariant
                n == v@.len(),
                n == old_s.len(),
                i <= n,
                forall|j: int|
                    0 <= j < i ==> #[trigger] v@[j] == (LineValue {
                        offset: old_s[j].offset,
                        value: opposite(old_s[j].value),
                    }),
                forall|j: int| i <= j < n ==> #[trigger] v@[j] == old_s[j],
            decreases n - i,
        {
            let lv = v[i];
            v.set(i, LineValue { offset: lv.offset, value: lv.value.not() });
            i += 1;
        }
        proof {
            lemma_same_offsets_map(old_s, v@);
            assert(entries_map(v@) =~= negated(entries_map(old_s)));
        }
        self.0 = v;
        self
    }

    /// Toggle the value of a line.
    ///
    /// If not already set then sets the line active.
    pub fn toggle(&mut self, offset: Offset)
        ensures
            final(self)@ == old(self)@.insert(
                offset,
                if old(self)@.contains_key(offset) {
                    opposite(old(self)@[offset])
                } else {
                    Value::Active
                },
            ),
    {
        proof {
            use_type_invariant(&*self);
        }
        match self.search(offset) {
            Ok(idx) => {
                proof {
                    lemma_entry_at(self.0@, idx as int);
                }
                let v = self.0[idx].value.not();
                self.put(offset, v);
            },
            Err(_idx) => {
                proof {
                    if self@.contains_key(offset) {
                        lemma_key_position(self.0@, offset);
                    }
                }
                self.put(offset, Value::Active);
            },
        }
    }

    /// Remove any value setting for a line.
    pub fn unset(&mut self, offset: Offset)
        ensures
            final(self)@ == old(self)@.remove(offset),
    {
        proof {
            use_type_invariant(&*self);
        }
        let ghost old_s = self.0@;
        match self.search(offset) {
            Ok(idx) => {
                proof {
                    lemma_remove_map(old_s, idx as int);
                }
                let mut v: Vec<LineValue> = Vec::new();
                std::mem::swap(&mut v, &mut self.0);
                v.remove(idx);
                self.0 = v;
            },
            Err(_idx) => {
                proof {
                    if self@.contains_key(offset) {
                        lemma_key_position(self.0@, offset);
                    }
                    assert(self@ =~= old(self)@.remove(offset));
                }
            },
        }
    }

    /// The number of lines for which values are contained in this set.
    pub fn len(&self) -> (r: usize)
        ensures
            r == self@.dom().len(),
            self@.dom().finite(),
    {
        proof {
            use_type_invariant(self);
            lemma_map_of_sorted(self.0@);
        }
        self.0.len()
    }

    /// Return true if the values is empty.
    pub fn is_empty(&self) -> (r: bool)
        ensures
            r == (self@.dom().len() == 0),
            r == (self@ == Map::<Offset, Value>::empty()),
    {
        proof {
            use_type_invariant(self);
            lemma_map_of_sorted(self.0@);
            if self.0@.len() > 0 {
                lemma_entry_at(self.0@, 0);
                assert(!(self@ =~= Map::<Offset, Value>::empty()));
            } else {
                assert(self@ =~= Map::<Offset, Value>::empty());
            }
        }
        self.0.len() == 0
    }

    /// Construct a `Values` collection for a set of line offsets.
    ///
    /// All lines are set to inactive.
    pub fn from_offsets(offsets: &[Offset]) -> (v: Values)
        ensures
            v@ == Map::new(|o: Offset| offsets@.contains(o), |o: Offset| Value::Inactive),
    {
        let mut v = Values::new();
        let mut i: usize = 0;
        while i < offsets.len()
            invariant
                i <= offsets@.len(),
                v@ == Map::new(
                    |o: Offset| offsets@.subrange(0, i as int).contains(o),
                    |o: Offset| Value::Inactive,
                ),
            decreases offsets@.len() - i,
        {
            v.put(offsets[i], Value::Inactive);
            proof {
                assert(offsets@.subrange(0, i + 1) =~= offsets@.subrange(0, i as int).push(
                    offsets@[i as int],
                ));
                assert forall|o: Offset|
                    #[trigger] offsets@.subrange(0, i + 1).contains(o) == (offsets@.subrange(
                        0,
                        i as int,
                    ).contains(o) || o == offsets@[i as int]) by {
                    lemma_push_contains(offsets@.subrange(0, i as int), offsets@[i as int], o);
                }
            }
            i += 1;
            proof {
                assert(v@ =~= Map::new(
                    |o: Offset| offsets@.subrange(0, i as int).contains(o),
                    |o: Offset| Value::Inactive,
                ));
            }
        }
        proof {
            assert(offsets@.subrange(0, offsets@.len() as int) =~= offsets@);
        }
        v
    }

    /// Construct a `Values` collection from pairs of line offset and value.
    ///
    /// Where an offset is repeated the last value given for it applies.
    pub fn from_pairs(pairs: &[(Offset, Value)]) -> (v: Values)
        ensures
            v@ == pairs_map(pairs@),
    {
        let mut v = Values::new();
        let mut i: usize = 0;
        while i < pairs.len()
            invariant
                i <= pairs@.len(),
                v@ == pairs_map(pairs@.subrange(0, i as int)),
            decreases pairs@.len() - i,
        {
            let (o, val) = pairs[i];
            v.put(o, val);
            i += 1;
            proof {
                assert(pairs@.subrange(0, i as int).drop_last() =~= pairs@.subrange(0, i - 1));
            }
        }
        proof {
            assert(pairs@.subrange(0, pairs@.len() as int) =~= pairs@);
        }
        v
    }

    /// The values, as a slice in increasing offset order.
    pub fn as_slice(&self) -> (r: &[LineValue])
        ensures
            r@ == self.entries(),
            strictly_sorted(r@),
            entries_map(r@) == self@,
    {
        proof {
            use_type_invariant(self);
        }
        self.0.as_slice()
    }

    /// Set the value of the entry at position `index` of the entries, in
    /// increasing offset order, keeping its offset.
    ///
    /// This visits the values in order for update, as a mutable iteration
    /// over the entries would, without letting an offset change.
    pub fn set_value_at(&mut self, index: usize, value: Value)
        requires
            index < old(self).entries().len(),
        ensures
            final(self).entries() == old(self).entries().update(
                index as int,
                LineValue { offset: old(self).entries()[index as int].offset, value },
            ),
            final(self)@ == old(self)@.insert(old(self).entries()[index as int].offset, value),
    {
        proof {
            use_type_invariant(&*self);
        }
        let ghost old_s = self.0@;
        let mut v: Vec<LineValue> = Vec::new();
        std::mem::swap(&mut v, &mut self.0);
        let offset = v[index].offset;
        proof {
            lemma_update_sorted(old_s, index as int, value);
        }
        v.set(index, LineValue { offset, value });
        self.0 = v;
    }

    /// An iterator to visit all values, in increasing offset order.
    pub fn iter(&self) -> (r: std::slice::Iter<'_, LineValue>)
        ensures
            vstd::std_specs::iter::IteratorSpec::remaining(&r) == self.entries().as_ref(),
            strictly_sorted(self.entries()),
            entries_map(self.entries()) == self@,
    {
        proof {
            use_type_invariant(self);
        }
        let s = self.0.as_slice();
        let r = s.iter();
        proof {
            vstd::std_specs::slice::axiom_spec_slice_iter(s);
        }
        r
    }

    /// Update the values from those read from a v2 request.
    ///
    /// `offsets` are the requested lines, in increasing order, and `src`
    /// holds their values by index.  If this collection is empty it is
    /// filled with every requested line; otherwise only the lines it already
    /// holds are updated, from those selected by the mask of `src`.
    pub fn update_from_v2(&mut self, offsets: &[Offset], src: &LineValuesV2)
        requires
            strictly_increasing(offsets@),
            offsets@.len() <= 64,
            old(self)@ == Map::<Offset, Value>::empty() ==> forall|i: int|
                0 <= i < offsets@.len() ==> #[trigger] bit(src.mask, i as u64),
        ensures
            old(self)@ == Map::<Offset, Value>::empty() ==> final(self)@ == Map::new(
                |k: Offset| offsets@.contains(k),
                |k: Offset| value_of_bool(bit(src.bits, index_in(offsets@, k) as u64)),
            ),
            old(self)@ != Map::<Offset, Value>::empty() ==> final(self)@ == Map::new(
                |k: Offset| old(self)@.contains_key(k),
                |k: Offset| v2_updated_value(offsets@, *src, k, old(self)@[k]),
            ),
    {
        proof {
            use_type_invariant(&*self);
        }
        let ghost old_s = self.0@;
        let n = offsets.len();
        let empty = self.is_empty();
        proof {
            if old_s.len() > 0 {
                lemma_entry_at(old_s, 0);
            }
        }
        let mut v: Vec<LineValue> = Vec::new();
        std::mem::swap(&mut v, &mut self.0);
        if empty {
            // requested full set
            let mut idx: usize = 0;
            proof {
                assert(v@ =~= Seq::new(
                    0,
                    |i: int|
                        LineValue {
                            offset: offsets@[i],
                            value: value_of_bool(bit(src.bits, i as u64)),
                        },
                ));
            }
            while idx < n
                invariant
                    n == offsets@.len(),
                    n <= 64,
                    idx <= n,
                    strictly_increasing(offsets@),
                    forall|i: int| 0 <= i < n ==> #[trigger] bit(src.mask, i as u64),
                    v@ == Seq::new(
                        idx as nat,
                        |i: int|
                            LineValue {
                                offset: offsets@[i],
                                value: value_of_bool(bit(src.bits, i as u64)),
                            },
                    ),
                decreases n - idx,
            {
                let active = src.get(idx);
                let lv = LineValue { offset: offsets[idx], value: Value::from(active.unwrap()) };
                v.push(lv);
                idx += 1;
                proof {
                    assert(v@ =~= Seq::new(
                        idx as nat,
                        |i: int|
                            LineValue {
                                offset: offsets@[i],
                                value: value_of_bool(bit(src.bits, i as u64)),
                            },
                    ));
                }
            }
            proof {
                assert(strictly_sorted(v@));
                let m = Map::new(
                    |k: Offset| offsets@.contains(k),
                    |k: Offset| value_of_bool(bit(src.bits, index_in(offsets@, k) as u64)),
                );
                assert forall|k: Offset| #[trigger] entries_map(v@).contains_key(k) <==> m.contains_key(k) by {
                    if entries_map(v@).contains_key(k) {
                        let i = lemma_key_position(v@, k);
                        assert(offsets@[i] == k);
                    }
                    if m.contains_key(k) {
                        let i = choose|i: int| 0 <= i < n && offsets@[i] == k;
                        lemma_entry_at(v@, i);
                    }
                }
                assert forall|k: Offset| entries_map(v@).contains_key(k) implies #[trigger] entries_map(v@)[k] == m[k] by {
                    let i = lemma_key_position(v@, k);
                    lemma_index_in(offsets@, i);
                }
                assert(entries_map(v@) =~= m);
            }
            self.0 = v;
            return ;
        }
        // requested explicit set
        let len = v.len();
        let mut didx: usize = 0;
        let mut idx: usize = 0;
        while idx < n
            invariant
                n == offsets@.len(),
                n <= 64,
                idx <= n,
                len == v@.len(),
                len == old_s.len(),
                old(self)@ == entries_map(old_s),
                old(self)@ != Map::<Offset, Value>::empty(),
                didx <= len,
                strictly_increasing(offsets@),
                strictly_sorted(old_s),
                forall|j: int| 0 <= j < len ==> #[trigger] v@[j].offset == old_s[j].offset,
                forall|j: int| didx <= j < len ==> #[trigger] v@[j] == old_s[j],
                forall|j: int|
                    0 <= j < didx ==> #[trigger] v@[j].value == v2_updated_value(
                        offsets@,
                        *src,
                        old_s[j].offset,
                        old_s[j].value,
                    ),
                idx < n ==> forall|j: int| 0 <= j < didx ==> #[trigger] v@[j].offset < offsets@[idx as int],
                forall|j: int, i: int|
                    didx <= j < len && 0 <= i < idx && bit(src.mask, i as u64) ==> #[trigger] offsets@[i]
                        < #[trigger] old_s[j].offset,
            decreases n - idx,
        {
            let offset = offsets[idx];
            match src.get(idx) {
                Some(active) => {
                    // self is a superset of src, and both are sorted, so scan to find offset
                    while didx < len && v[didx].offset < offset
                        invariant
                            n == offsets@.len(),
                            idx < n,
                            offset == offsets@[idx as int],
                            len == v@.len(),
                            len == old_s.len(),
                            old(self)@ == entries_map(old_s),
                            old(self)@ != Map::<Offset, Value>::empty(),
                            didx <= len,
                            strictly_increasing(offsets@),
                            strictly_sorted(old_s),
                            bit(src.mask, idx as u64),
                            forall|j: int| 0 <= j < len ==> #[trigger] v@[j].offset == old_s[j].offset,
                            forall|j: int| didx <= j < len ==> #[trigger] v@[j] == old_s[j],
                            forall|j: int|
                                0 <= j < didx ==> #[trigger] v@[j].value == v2_updated_value(
                                    offsets@,
                                    *src,
                                    old_s[j].offset,
                                    old_s[j].value,
                                ),
                            forall|j: int| 0 <= j < didx ==> #[trigger] v@[j].offset < offset,
                            forall|j: int, i: int|
                                didx <= j < len && 0 <= i < idx && bit(src.mask, i as u64)
                                    ==> #[trigger] offsets@[i] < #[trigger] old_s[j].offset,
                        decreases len - didx,
                    {
                        proof {
                            let k = old_s[didx as int].offset;
                            lemma_not_selected(offsets@, *src, k, old_s[didx as int].value, idx as int);
                        }
                        didx += 1;
                    }
                    if didx == len {
                        // the remaining offsets are beyond every held line
                        proof {
                            lemma_same_offsets_map(old_s, v@);
                        }
                        self.0 = v;
                        proof {
                            lemma_updated_map(old_s, self.0@, offsets@, *src);
                        }
                        return ;
                    }
                    if v[didx].offset == offset {
                        proof {
                            lemma_index_in(offsets@, idx as int);
                        }
                        v.set(didx, LineValue { offset, value: Value::from(active) });
                        didx += 1;
                    }
                    proof {
                        assert forall|j: int, i: int|
                            didx <= j < len && 0 <= i < idx + 1 && bit(src.mask, i as u64)
                                implies #[trigger] offsets@[i] < #[trigger] old_s[j].offset by {
                            if i == idx {
                                assert(old_s[didx as int].offset > offset || didx < j);
                            }
                        }
                    }
                },
                None => {},
            }
            idx += 1;
        }
        proof {
            assert forall|j: int| didx <= j < len implies #[trigger] v@[j].value == v2_updated_value(
                offsets@,
                *src,
                old_s[j].offset,
                old_s[j].value,
            ) by {
                lemma_not_selected(offsets@, *src, old_s[j].offset, old_s[j].value, n as int);
            }
            lemma_same_offsets_map(old_s, v@);
        }
        self.0 = v;
        proof {
            lemma_updated_map(old_s, self.0@, offsets@, *src);
        }
    }
}

impl Values {
    /// The values of the requested lines, in v2 form.
    ///
    /// `offsets` are the requested lines, in increasing order.  If this
    /// collection is empty every requested line is selected, else the
    /// requested lines held in this collection are selected with their
    /// values.
    pub fn to_v2(&self, offsets: &[Offset]) -> (r: LineValuesV2)
        requires
            strictly_increasing(offsets@),
            offsets@.len() <= 64,
        ensures
            self@ == Map::<Offset, Value>::empty() ==> {
                &&& r.bits == 0
                &&& forall|j: u64| j < 64 ==> #[trigger] bit(r.mask, j) == (j < offsets@.len())
            },
            self@ != Map::<Offset, Value>::empty() ==> encodes_v2(self@, offsets@, r),
    {
        let n = offsets.len();
        if self.is_empty() {
            let mask: u64 = if n < 64 {
                assert((1u64 << (n as u64)) >= 1) by (bit_vector)
                    requires
                        n < 64,
                ;
                (1u64 << (n as u64)) - 1
            } else {
                !0u64
            };
            proof {
                assert forall|j: u64| j < 64 implies #[trigger] bit(mask, j) == (j < n) by {
                    if n < 64 {
                        lemma_bit_low_mask(n as u64, j);
                    } else {
                        lemma_bit_all(j);
                    }
                }
            }
            return LineValuesV2 { bits: 0, mask };
        }
        let mut dst = LineValuesV2::new();
        proof {
            assert forall|j: u64| j < 64 implies !#[trigger] bit(0u64, j) by {
                lemma_bit_zero(j);
            }
        }
        let mut idx: usize = 0;
        while idx < n
            invariant
                n == offsets@.len(),
                n <= 64,
                idx <= n,
                forall|j: u64|
                    j < 64 ==> #[trigger] bit(dst.mask, j) == (j < idx && self@.contains_key(
                        offsets@[j as int],
                    )),
                forall|j: u64|
                    j < 64 ==> #[trigger] bit(dst.bits, j) == (j < idx && self@.contains_key(
                        offsets@[j as int],
                    ) && self@[offsets@[j as int]] == Value::Active),
            decreases n - idx,
        {
            match self.get(offsets[idx]) {
                Some(v) => {
                    dst.set(idx, v == Value::Active);
                },
                None => {},
            }
            idx += 1;
        }
        dst
    }

    /// The values of the requested lines, in v1 form.
    ///
    /// `offsets` are the requested lines, in increasing order.  Requested
    /// lines not held in this collection are inactive.
    pub fn to_v1(&self, offsets: &[Offset]) -> (r: LineValuesV1)
        requires
            strictly_increasing(offsets@),
            offsets@.len() <= 64,
        ensures
            r@ == Seq::new(64, |j: int| v1_value_at(self@, offsets@, j)),
    {
        let n = offsets.len();
        let mut dst = LineValuesV1::new();
        let mut idx: usize = 0;
        while idx < n
            invariant
                n == offsets@.len(),
                n <= 64,
                idx <= n,
                dst@ == Seq::new(
                    64,
                    |j: int|
                        if j < idx {
                            v1_value_at(self@, offsets@, j)
                        } else {
                            0u8
                        },
                ),
            decreases n - idx,
        {
            match self.get(offsets[idx]) {
                Some(v) => {
                    dst.set(idx, u8::from(v));
                },
                None => {},
            }
            idx += 1;
            proof {
                assert(dst@ =~= Seq::new(
                    64,
                    |j: int|
                        if j < idx {
                            v1_value_at(self@, offsets@, j)
                        } else {
                            0u8
                        },
                ));
            }
        }
        proof {
            assert(dst@ =~= Seq::new(64, |j: int| v1_value_at(self@, offsets@, j)));
        }
        dst
    }

    /// Update the values from those read from a v1 request.
    ///
    /// `offsets` are the requested lines, in increasing order, and `src`
    /// holds their values by index.  If this collection is empty it is
    /// filled with every requested line; otherwise only the lines it already
    /// holds are updated.
    pub fn update_from_v1(&mut self, offsets: &[Offset], src: &LineValuesV1)
        requires
            strictly_increasing(offsets@),
            offsets@.len() <= 64,
        ensures
            old(self)@ == Map::<Offset, Value>::empty() ==> final(self)@ == Map::new(
                |k: Offset| offsets@.contains(k),
                |k: Offset| value_of_bool(src@[index_in(offsets@, k)] != 0),
            ),
            old(self)@ != Map::<Offset, Value>::empty() ==> final(self)@ == Map::new(
                |k: Offset| old(self)@.contains_key(k),
                |k: Offset|
                    if offsets@.contains(k) {
                        value_of_bool(src@[index_in(offsets@, k)] != 0)
                    } else {
                        old(self)@[k]
                    },
            ),
    {
        let ghost m0 = self@;
        let n = offsets.len();
        let full = self.is_empty();
        let mut idx: usize = 0;
        while idx < n
            invariant
                n == offsets@.len(),
                n <= 64,
                idx <= n,
                strictly_increasing(offsets@),
                full == (m0 == Map::<Offset, Value>::empty()),
                self@ == Map::new(
                    |k: Offset|
                        m0.contains_key(k) || (full && offsets@.subrange(0, idx as int).contains(k)),
                    |k: Offset|
                        if offsets@.subrange(0, idx as int).contains(k) {
                            value_of_bool(src@[index_in(offsets@, k)] != 0)
                        } else {
                            m0[k]
                        },
                ),
            decreases n - idx,
        {
            let offset = offsets[idx];
            let value = Value::from(src.get(idx));
            let held = self.get(offset).is_some();
            proof {
                lemma_index_in(offsets@, idx as int);
                assert forall|k: Offset| #[trigger] offsets@.subrange(0, idx + 1).contains(k) == (
                offsets@.subrange(0, idx as int).contains(k) || k == offset) by {
                    assert(offsets@.subrange(0, idx + 1) =~= offsets@.subrange(0, idx as int).push(
                        offset,
                    ));
                    lemma_push_contains(offsets@.subrange(0, idx as int), offset, k);
                }
            }
            if full || held {
                self.set(offset, value);
            }
            idx += 1;
            proof {
                let m = Map::new(
                    |k: Offset|
                        m0.contains_key(k) || (full && offsets@.subrange(0, idx as int).contains(k)),
                    |k: Offset|
                        if offsets@.subrange(0, idx as int).contains(k) {
                            value_of_bool(src@[index_in(offsets@, k)] != 0)
                        } else {
                            m0[k]
                        },
                );
                assert(self@ =~= m);
            }
        }
        proof {
            assert(offsets@.subrange(0, n as int) =~= offsets@);
            if full {
                assert(self@ =~= Map::new(
                    |k: Offset| offsets@.contains(k),
                    |k: Offset| value_of_bool(src@[index_in(offsets@, k)] != 0),
                ));
            } else {
                assert(self@ =~= Map::new(
                    |k: Offset| m0.contains_key(k),
                    |k: Offset|
                        if offsets@.contains(k) {
                            value_of_bool(src@[index_in(offsets@, k)] != 0)
                        } else {
                            m0[k]
                        },
                ));
            }
        }
    }

    /// Return true if values are held for all the `offsets`, which are in
    /// increasing order.
    pub fn contains_keys(&self, offsets: &[Offset]) -> (r: bool)
        requires
            strictly_increasing(offsets@),
        ensures
            r == (forall|i: int| 0 <= i < offsets@.len() ==> self@.contains_key(#[trigger] offsets@[i])),
    {
        let mut idx: usize = 0;
        while idx < offsets.len()
            invariant
                idx <= offsets@.len(),
                forall|i: int| 0 <= i < idx ==> self@.contains_key(#[trigger] offsets@[i]),
            decreases offsets@.len() - idx,
        {
            if self.get(offsets[idx]).is_none() {
                return false;
            }
            idx += 1;
        }
        true
    }
}

/// The v2 values `r` encode the values `m` held for the requested `offsets`:
/// a line is selected if it is requested and held, with bit set if active.
pub open spec fn encodes_v2(m: Map<Offset, Value>, offsets: Seq<Offset>, r: LineValuesV2) -> bool {
    forall|j: u64|
        #![trigger bit(r.mask, j)]
        #![trigger bit(r.bits, j)]
        j < 64 ==> {
            &&& bit(r.mask, j) == (j < offsets.len() && m.contains_key(offsets[j as int]))
            &&& bit(r.bits, j) == (j < offsets.len() && m.contains_key(offsets[j as int])
                && m[offsets[j as int]] == Value::Active)
        }
}

/// The v1 value at index `j` for the values `m` held for the requested
/// `offsets`: the numeric value of a requested line that is held, else 0.
pub open spec fn v1_value_at(m: Map<Offset, Value>, offsets: Seq<Offset>, j: int) -> u8 {
    if 0 <= j < offsets.len() && m.contains_key(offsets[j]) {
        value_as_u8(m[offsets[j]])
    } else {
        0u8
    }
}

/// The offsets are in strictly increasing order.
pub open spec fn strictly_increasing(s: Seq<Offset>) -> bool {
    forall|i: int, j: int| 0 <= i < j < s.len() ==> s[i] < s[j]
}

/// The position of line `k` in the requested offsets.
pub open spec fn index_in(offsets: Seq<Offset>, k: Offset) -> int {
    choose|i: int| 0 <= i < offsets.len() && offsets[i] == k
}

/// The value of line `k` after an update from v2 values read for
/// `offsets`: the value read, if the line was requested and selected by
/// the mask, else its previous value `old`.
pub open spec fn v2_updated_value(
    offsets: Seq<Offset>,
    src: LineValuesV2,
    k: Offset,
    old: Value,
) -> Value {
    if offsets.contains(k) && bit(src.mask, index_in(offsets, k) as u64) {
        value_of_bool(bit(src.bits, index_in(offsets, k) as u64))
    } else {
        old
    }
}

/// In strictly increasing offsets the position of an offset is unique.
pub proof fn lemma_index_in(offsets: Seq<Offset>, i: int)
    requires
        strictly_increasing(offsets),
        0 <= i < offsets.len(),
    ensures
        offsets.contains(offsets[i]),
        index_in(offsets, offsets[i]) == i,
{
    assert(offsets.contains(offsets[i]));
    let j = index_in(offsets, offsets[i]);
    if j < i {
        assert(offsets[j] < offsets[i]);
    } else if i < j {
        assert(offsets[i] < offsets[j]);
    }
}

/// A line that lies below the offset at `bound` and above every selected
/// offset before `bound` keeps its value in a v2 update.
proof fn lemma_not_selected(offsets: Seq<Offset>, src: LineValuesV2, k: Offset, old: Value, bound: int)
    requires
        strictly_increasing(offsets),
        0 <= bound <= offsets.len(),
        forall|i: int| 0 <= i < bound && bit(src.mask, i as u64) ==> offsets[i] < k,
        bound < offsets.len() ==> k < offsets[bound],
    ensures
        v2_updated_value(offsets, src, k, old) == old,
{
    if offsets.contains(k) {
        let i = choose|i: int| 0 <= i < offsets.len() && offsets[i] == k;
        lemma_index_in(offsets, i);
        if i >= bound && bound < offsets.len() {
            if i > bound {
                assert(offsets[bound] < offsets[i]);
            }
        }
    }
}

/// Entries with the same offsets as `old_s` and each value updated from v2
/// values describe the updated map.
proof fn lemma_updated_map(old_s: Seq<LineValue>, t: Seq<LineValue>, offsets: Seq<Offset>, src: LineValuesV2)
    requires
        strictly_sorted(old_s),
        old_s.len() == t.len(),
        forall|j: int| 0 <= j < t.len() ==> #[trigger] t[j].offset == old_s[j].offset,
        forall|j: int|
            0 <= j < t.len() ==> #[trigger] t[j].value == v2_updated_value(
                offsets,
                src,
                old_s[j].offset,
                old_s[j].value,
            ),
    ensures
        strictly_sorted(t),
        entries_map(t) == Map::new(
            |k: Offset| entries_map(old_s).contains_key(k),
            |k: Offset| v2_updated_value(offsets, src, k, entries_map(old_s)[k]),
        ),
{
    lemma_same_offsets_map(old_s, t);
    let m = Map::new(
        |k: Offset| entries_map(old_s).contains_key(k),
        |k: Offset| v2_updated_value(offsets, src, k, entries_map(old_s)[k]),
    );
    assert forall|k: Offset| entries_map(t).contains_key(k) implies #[trigger] entries_map(t)[k] == m[k] by {
        let i = lemma_key_position(t, k);
        lemma_entry_at(old_s, i);
    }
    assert(entries_map(t) =~= m);
}

/// Pushing onto a sequence adds exactly the pushed element.
pub proof fn lemma_push_contains<A>(s: Seq<A>, x: A, y: A)
    ensures
        s.push(x).contains(y) == (s.contains(y) || x == y),
{
    if s.contains(y) {
        let k = choose|k: int| 0 <= k < s.len() && s[k] == y;
        assert(s.push(x)[k] == y);
    }
    if x == y {
        assert(s.push(x)[s.len() as int] == y);
    }
    if s.push(x).contains(y) {
        let k = choose|k: int| 0 <= k < s.push(x).len() && s.push(x)[k] == y;
        if k < s.len() {
            assert(s[k] == y);
        }
    }
}

/// The map with the same lines and every value negated.
pub open spec fn negated(m: Map<Offset, Value>) -> Map<Offset, Value> {
    Map::new(|o: Offset| m.contains_key(o), |o: Offset| opposite(m[o]))
}

/// Negating all the values twice gives the values back.
pub proof fn lemma_negated_involution(m: Map<Offset, Value>)
    ensures
        negated(negated(m)) == m,
{
    assert(negated(negated(m)) =~= m);
}

/// Toggling a line twice gives it back, if it held a value.
pub proof fn lemma_toggle_twice(m: Map<Offset, Value>, o: Offset)
    requires
        m.contains_key(o),
    ensures
        ({
            let once = m.insert(o, opposite(m[o]));
            once.insert(o, opposite(once[o]))
        }) == m,
{
    let once = m.insert(o, opposite(m[o]));
    assert(once.insert(o, opposite(once[o])) =~= m);
}

/// Values written in the v2 form for the requested lines read back
/// unchanged: an update from the v2 values that encode `m` gives each
/// requested line held in `m` its value in `m`, and leaves a line that `m`
/// does not hold as it was.
pub proof fn lemma_v2_values_roundtrip(
    m: Map<Offset, Value>,
    offsets: Seq<Offset>,
    lv: LineValuesV2,
    k: Offset,
    prev: Value,
)
    requires
        strictly_increasing(offsets),
        offsets.len() <= 64,
        encodes_v2(m, offsets, lv),
    ensures
        offsets.contains(k) && m.contains_key(k) ==> v2_updated_value(offsets, lv, k, prev) == m[k],
        !m.contains_key(k) ==> v2_updated_value(offsets, lv, k, prev) == prev,
{
    if offsets.contains(k) {
        let i = choose|i: int| 0 <= i < offsets.len() && offsets[i] == k;
        lemma_index_in(offsets, i);
        let j = i as u64;
        assert(bit(lv.mask, j) == m.contains_key(k));
        assert(bit(lv.bits, j) == (m.contains_key(k) && m[k] == Value::Active));
    }
}

/// Values written in the v1 form for the requested lines read back
/// unchanged: an update from the v1 values of `m` gives each requested line
/// held in `m` its value in `m`.
pub proof fn lemma_v1_values_roundtrip(m: Map<Offset, Value>, offsets: Seq<Offset>, k: Offset)
    requires
        strictly_increasing(offsets),
        offsets.len() <= 64,
        offsets.contains(k),
        m.contains_key(k),
    ensures
        value_of_bool(Seq::new(64, |j: int| v1_value_at(m, offsets, j))[index_in(offsets, k)] != 0)
            == m[k],
{
    let i = choose|i: int| 0 <= i < offsets.len() && offsets[i] == k;
    lemma_index_in(offsets, i);
}

/// The map described by a sequence of offset and value pairs, where later
/// pairs take precedence over earlier ones.
pub open spec fn pairs_map(s: Seq<(Offset, Value)>) -> Map<Offset, Value>
    decreases s.len(),
{
    if s.len() == 0 {
        Map::empty()
    } else {
        pairs_map(s.drop_last()).insert(s.last().0, s.last().1)
    }
}

/// Sequences with the same offset at each position describe maps with the
/// same keys, each holding the value at its position.
proof fn lemma_same_offsets_map(s: Seq<LineValue>, t: Seq<LineValue>)
    requires
        strictly_sorted(s),
        s.len() == t.len(),
        forall|j: int| 0 <= j < s.len() ==> #[trigger] t[j].offset == s[j].offset,
    ensures
        strictly_sorted(t),
        forall|o: Offset| #[trigger] entries_map(t).contains_key(o) == entries_map(s).contains_key(o),
        forall|j: int| 0 <= j < t.len() ==> #[trigger] entries_map(t)[t[j].offset] == t[j].value,
{
    assert(strictly_sorted(t)) by {
        assert forall|i: int, j: int| 0 <= i < j < t.len() implies t[i].offset < t[j].offset by {
            assert(t[i].offset == s[i].offset);
            assert(t[j].offset == s[j].offset);
        }
    }
    assert forall|o: Offset| #[trigger] entries_map(t).contains_key(o) == entries_map(s).contains_key(o) by {
        if entries_map(t).contains_key(o) {
            let i = lemma_key_position(t, o);
            lemma_entry_at(s, i);
        }
        if entries_map(s).contains_key(o) {
            let i = lemma_key_position(s, o);
            lemma_entry_at(t, i);
        }
    }
    assert forall|j: int| 0 <= j < t.len() implies #[trigger] entries_map(t)[t[j].offset] == t[j].value by {
        lemma_entry_at(t, j);
    }
}

/// Removing the entry at a position removes its offset from the map.
proof fn lemma_remove_map(s: Seq<LineValue>, idx: int)
    requires
        strictly_sorted(s),
        0 <= idx < s.len(),
    ensures
        strictly_sorted(s.remove(idx)),
        entries_map(s.remove(idx)) == entries_map(s).remove(s[idx].offset),
{
    let t = s.remove(idx);
    assert(strictly_sorted(t)) by {
        assert forall|i: int, j: int| 0 <= i < j < t.len() implies t[i].offset < t[j].offset by {
            if j < idx {
            } else if i < idx {
                assert(t[j] == s[j + 1]);
            } else {
                assert(t[i] == s[i + 1]);
                assert(t[j] == s[j + 1]);
            }
        }
    }
    let m = entries_map(s).remove(s[idx].offset);
    assert forall|k: Offset| #[trigger] entries_map(t).contains_key(k) <==> m.contains_key(k) by {
        if entries_map(t).contains_key(k) {
            let i = lemma_key_position(t, k);
            if i < idx {
                lemma_entry_at(s, i);
                assert(s[i].offset < s[idx].offset);
            } else {
                assert(t[i] == s[i + 1]);
                lemma_entry_at(s, i + 1);
                assert(s[idx].offset < s[i + 1].offset);
            }
        }
        if m.contains_key(k) {
            let i = lemma_key_position(s, k);
            if i < idx {
                lemma_entry_at(t, i);
            } else {
                assert(i != idx);
                assert(t[i - 1] == s[i]);
                lemma_entry_at(t, i - 1);
            }
        }
    }
    assert forall|k: Offset| entries_map(t).contains_key(k) implies #[trigger] entries_map(t)[k]
        == m[k] by {
        let i = lemma_key_position(t, k);
        if i < idx {
            lemma_entry_at(s, i);
        } else {
            assert(t[i] == s[i + 1]);
            lemma_entry_at(s, i + 1);
        }
    }
    assert(entries_map(t) =~= m);
}

/// The map of a sorted sequence has as many keys as the sequence has entries.
pub proof fn lemma_map_of_sorted(s: Seq<LineValue>)
    requires
        strictly_sorted(s),
    ensures
        entries_map(s).dom().finite(),
        entries_map(s).dom().len() == s.len(),
    decreases s.len(),
{
    if s.len() == 0 {
        assert(entries_map(s).dom() =~= Set::<Offset>::empty());
    } else {
        let t = s.drop_last();
        lemma_map_of_sorted(t);
        let o = s.last().offset;
        assert(entries_map(s).dom() =~= entries_map(t).dom().insert(o)) by {
            assert forall|k: Offset| entries_map(s).dom().contains(k) implies entries_map(
                t,
            ).dom().insert(o).contains(k) by {
                let i = choose|i: int| 0 <= i < s.len() && s[i].offset == k;
                if i < s.len() - 1 {
                    assert(t[i].offset == k);
                }
            }
            assert forall|k: Offset| entries_map(t).dom().insert(o).contains(k) implies entries_map(
                s,
            ).dom().contains(k) by {
                if k == o {
                    assert(s[s.len() - 1].offset == k);
                } else {
                    let i = choose|i: int| 0 <= i < t.len() && t[i].offset == k;
                    assert(s[i].offset == k);
                }
            }
        }
        assert(!entries_map(t).dom().contains(o)) by {
            if entries_map(t).dom().contains(o) {
                let i = choose|i: int| 0 <= i < t.len() && t[i].offset == o;
                assert(s[i].offset < s[s.len() - 1].offset);
            }
        }
    }
}

/// Inserting an entry at its sorted position keeps the sequence sorted.
proof fn lemma_insert_sorted(s: Seq<LineValue>, idx: int, lv: LineValue)
    requires
        strictly_sorted(s),
        0 <= idx <= s.len(),
        forall|j: int| 0 <= j < idx ==> s[j].offset < lv.offset,
        forall|j: int| idx <= j < s.len() ==> s[j].offset > lv.offset,
    ensures
        strictly_sorted(s.insert(idx, lv)),
{
    let t = s.insert(idx, lv);
    assert forall|i: int, j: int| 0 <= i < j < t.len() implies t[i].offset < t[j].offset by {
        if j < idx {
        } else if j == idx {
        } else if i < idx {
        } else if i == idx {
        } else {
        }
    }
}

/// Inserting an entry for a new offset at its sorted position adds that
/// offset to the map.
proof fn lemma_insert_map(s: Seq<LineValue>, idx: int, lv: LineValue)
    requires
        strictly_sorted(s),
        0 <= idx <= s.len(),
        forall|j: int| 0 <= j < idx ==> s[j].offset < lv.offset,
        forall|j: int| idx <= j < s.len() ==> s[j].offset > lv.offset,
    ensures
        entries_map(s.insert(idx, lv)) == entries_map(s).insert(lv.offset, lv.value),
{
    let t = s.insert(idx, lv);
    lemma_insert_sorted(s, idx, lv);
    let m = entries_map(s).insert(lv.offset, lv.value);
    assert forall|k: Offset| #[trigger] entries_map(t).contains_key(k) <==> m.contains_key(k) by {
        if entries_map(t).contains_key(k) {
            let i = lemma_key_position(t, k);
            if i < idx {
                lemma_entry_at(s, i);
            } else if i > idx {
                lemma_entry_at(s, i - 1);
            }
        }
        if m.contains_key(k) {
            if k == lv.offset {
                lemma_entry_at(t, idx);
            } else {
                let i = lemma_key_position(s, k);
                if i < idx {
                    lemma_entry_at(t, i);
                } else {
                    lemma_entry_at(t, i + 1);
                }
            }
        }
    }
    assert forall|k: Offset| entries_map(t).contains_key(k) implies #[trigger] entries_map(t)[k]
        == m[k] by {
        let i = lemma_key_position(t, k);
        if i < idx {
            lemma_entry_at(s, i);
        } else if i > idx {
            lemma_entry_at(s, i - 1);
        }
    }
    assert(entries_map(t) =~= m);
}

/// Replacing the value at a position keeps the sequence sorted and updates
/// the map at that offset.
proof fn lemma_update_sorted(s: Seq<LineValue>, idx: int, value: Value)
    requires
        strictly_sorted(s),
        0 <= idx < s.len(),
    ensures
        strictly_sorted(s.update(idx, LineValue { offset: s[idx].offset, value })),
        entries_map(s.update(idx, LineValue { offset: s[idx].offset, value })) == entries_map(
            s,
        ).insert(s[idx].offset, value),
{
    let lv = LineValue { offset: s[idx].offset, value };
    let t = s.update(idx, lv);
    assert(strictly_sorted(t));
    let m = entries_map(s).insert(lv.offset, value);
    assert forall|k: Offset| #[trigger] entries_map(t).contains_key(k) <==> m.contains_key(k) by {
        if entries_map(t).contains_key(k) {
            let i = lemma_key_position(t, k);
            lemma_entry_at(s, i);
        }
        if m.contains_key(k) {
            if k == lv.offset {
                lemma_entry_at(t, idx);
            } else {
                let i = lemma_key_position(s, k);
                lemma_entry_at(t, i);
            }
        }
    }
    assert forall|k: Offset| entries_map(t).contains_key(k) implies #[trigger] entries_map(t)[k]
        == m[k] by {
        let i = lemma_key_position(t, k);
        if i != idx {
            lemma_entry_at(s, i);
        }
    }
    assert(entries_map(t) =~= m);
}

} // verus!
