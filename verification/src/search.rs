//! Discovering the lines of the chips in the system, and finding lines by
//! name.
use crate::line::info::same_info;
use crate::line::Info;
use crate::{same_found_line, Error, FoundLine};
use vstd::prelude::*;
use crate::chip::str_eq;
use vstd::string::StringExecFns;

verus! {

/// The lines reported by a chip: its path and, if the chip could be opened
/// and its info read, the info of each of its lines, where that could be
/// read.
#[derive(Debug)]
pub struct ChipLines {
    /// The path of the chip.
    pub path: String,
    /// The info of each line, by offset, or `None` if the chip could not be
    /// read.
    pub lines: Option<Vec<Option<Info>>>,
}

/// The lines found on a chip with the given infos, in offset order.
pub open spec fn infos_found(path: String, infos: Seq<Option<Info>>) -> Seq<FoundLine>
    decreases infos.len(),
{
    if infos.len() == 0 {
        Seq::empty()
    } else {
        let prev = infos_found(path, infos.drop_last());
        match infos.last() {
            Some(i) => prev.push(FoundLine { chip: path, info: i }),
            None => prev,
        }
    }
}

/// The lines found on the chips, in chip order and then offset order,
/// skipping chips and lines that could not be read.
pub open spec fn all_found(chips: Seq<ChipLines>) -> Seq<FoundLine>
    decreases chips.len(),
{
    if chips.len() == 0 {
        Seq::empty()
    } else {
        all_found(chips.drop_last()) + match chips.last().lines {
            Some(v) => infos_found(chips.last().path, v@),
            None => Seq::empty(),
        }
    }
}

/// The sequences of found lines are the same, line by line.
pub open spec fn same_found_lines(a: Seq<FoundLine>, b: Seq<FoundLine>) -> bool {
    a.len() == b.len() && forall|i: int| 0 <= i < a.len() ==> #[trigger] same_found_line(a[i], b[i])
}

/// Some chip could be read.
pub open spec fn some_chip_read(chips: Seq<ChipLines>) -> bool {
    exists|c: int| 0 <= c < chips.len() && (#[trigger] chips[c]).lines is Some
}

/// An iterator over the lines found on the chips in the system.
pub struct LineIterator {
    found: Vec<FoundLine>,
    pos: usize,
}

impl LineIterator {
    /// The lines the iterator has yet to return.
    pub closed spec fn remaining(&self) -> Seq<FoundLine> {
        if self.pos <= self.found@.len() {
            self.found@.subrange(self.pos as int, self.found@.len() as int)
        } else {
            Seq::empty()
        }
    }

    /// An iterator over the lines reported by the chips, or an error if no
    /// chip could be read.
    pub fn new(chips: &[ChipLines]) -> (r: Result<LineIterator, Error>)
        ensures
            !some_chip_read(chips@) ==> (r matches Err(e) && e is NoGpioChips),
            some_chip_read(chips@) ==> (r matches Ok(it) && same_found_lines(
                it.remaining(),
                all_found(chips@),
            )),
    {
        let mut found: Vec<FoundLine> = Vec::new();
        let mut any = false;
        let mut c: usize = 0;
        while c < chips.len()
            invariant
                c <= chips@.len(),
                same_found_lines(found@, all_found(chips@.subrange(0, c as int))),
                any == some_chip_read(chips@.subrange(0, c as int)),
            decreases chips@.len() - c,
        {
            let ghost before = found@;
            proof {
                assert(chips@.subrange(0, c + 1).drop_last() =~= chips@.subrange(0, c as int));
                assert(chips@.subrange(0, c + 1).last() == chips@[c as int]);
            }
            match &chips[c].lines {
                None => {},
                Some(infos) => {
                    any = true;
                    let mut l: usize = 0;
                    while l < infos.len()
                        invariant
                            l <= infos@.len(),
                            c < chips@.len(),
                            chips@[c as int].lines matches Some(v) && v@ == infos@,
                            before == found@.subrange(0, before.len() as int),
                            before.len() <= found@.len(),
                            same_found_lines(
                                found@.subrange(before.len() as int, found@.len() as int),
                                infos_found(chips@[c as int].path, infos@.subrange(0, l as int)),
                            ),
                        decreases infos@.len() - l,
                    {
                        let ghost mid = found@;
                        proof {
                            assert(infos@.subrange(0, l + 1).drop_last() =~= infos@.subrange(0, l as int));
                            assert(infos@.subrange(0, l + 1).last() == infos@[l as int]);
                        }
                        match &infos[l] {
                            None => {},
                            Some(info) => {
                                let f = FoundLine { chip: chips[c].path.clone(), info: info.clone() };
                                found.push(f);
                            },
                        }
                        proof {
                            let seg = found@.subrange(before.len() as int, found@.len() as int);
                            let spec_seg = infos_found(chips@[c as int].path, infos@.subrange(0, l + 1));
                            let prev_seg = mid.subrange(before.len() as int, mid.len() as int);
                            assert(found@.subrange(0, before.len() as int) =~= before);
                            if infos@[l as int] is Some {
                                assert(seg =~= prev_seg.push(found@.last()));
                                assert forall|i: int| 0 <= i < seg.len() implies #[trigger] same_found_line(seg[i], spec_seg[i]) by {
                                    if i < prev_seg.len() {
                                        assert(seg[i] == prev_seg[i]);
                                    }
                                }
                            } else {
                                assert(seg =~= prev_seg);
                            }
                        }
                        l += 1;
                    }
                    proof {
                        assert(infos@.subrange(0, infos@.len() as int) =~= infos@);
                    }
                },
            }
            proof {
                let cur = all_found(chips@.subrange(0, c + 1));
                let prev = all_found(chips@.subrange(0, c as int));
                assert forall|i: int| 0 <= i < found@.len() implies #[trigger] same_found_line(found@[i], cur[i]) by {
                    if i < before.len() {
                        assert(found@[i] == before[i]);
                    } else {
                        assert(found@[i] == found@.subrange(before.len() as int, found@.len() as int)[i - before.len()]);
                    }
                }
                if chips@[c as int].lines is Some {
                    assert(chips@.subrange(0, c + 1)[c as int].lines is Some);
                }
                if some_chip_read(chips@.subrange(0, c + 1)) {
                    let k = choose|k: int| 0 <= k < c + 1 && (#[trigger] chips@.subrange(0, c + 1)[k]).lines is Some;
                    if k < c {
                        assert(chips@.subrange(0, c as int)[k] == chips@.subrange(0, c + 1)[k]);
                    }
                }
                if some_chip_read(chips@.subrange(0, c as int)) {
                    let k = choose|k: int| 0 <= k < c && (#[trigger] chips@.subrange(0, c as int)[k]).lines is Some;
                    assert(chips@.subrange(0, c as int)[k] == chips@.subrange(0, c + 1)[k]);
                }
            }
            c += 1;
        }
        proof {
            assert(chips@.subrange(0, chips@.len() as int) =~= chips@);
        }
        if !any {
            return Err(Error::NoGpioChips());
        }
        let it = LineIterator { found, pos: 0 };
        proof {
            assert(it.remaining() =~= it.found@);
        }
        Ok(it)
    }

    /// The next line, if any remain.
    pub fn next(&mut self) -> (r: Option<FoundLine>)
        ensures
            old(self).remaining().len() == 0 ==> r is None && final(self).remaining().len() == 0,
            old(self).remaining().len() > 0 ==> (r matches Some(f) && same_found_line(
                f,
                old(self).remaining()[0],
            )) && final(self).remaining() == old(self).remaining().drop_first(),
    {
        if self.pos >= self.found.len() {
            return None;
        }
        let f = self.found[self.pos].clone();
        self.pos += 1;
        proof {
            assert(self.remaining() =~= old(self).remaining().drop_first());
        }
        Some(f)
    }
}

/// An iterator over the lines reported by the chips, or an error if no chip
/// could be read.
pub fn lines(chips: &[ChipLines]) -> (r: Result<LineIterator, Error>)
    ensures
        !some_chip_read(chips@) ==> (r matches Err(e) && e is NoGpioChips),
        some_chip_read(chips@) ==> (r matches Ok(it) && same_found_lines(
            it.remaining(),
            all_found(chips@),
        )),
{
    LineIterator::new(chips)
}

/// The line at position `p` is the first of the lines with the name.
pub open spec fn first_named_at(lines: Seq<FoundLine>, name: Seq<char>, p: int) -> bool {
    &&& 0 <= p < lines.len()
    &&& lines[p].info.name@ == name
    &&& forall|q: int| 0 <= q < p ==> lines[q].info.name@ != name
}

/// The position of the first of the lines with the name.
pub open spec fn first_named(lines: Seq<FoundLine>, name: Seq<char>) -> int {
    choose|p: int| first_named_at(lines, name, p)
}

/// Some line has the name.
pub open spec fn has_named(lines: Seq<FoundLine>, name: Seq<char>) -> bool {
    exists|i: int| 0 <= i < lines.len() && #[trigger] lines[i].info.name@ == name
}

/// A line with the name comes before the position `k`; the first is then
/// the first with that name overall.
proof fn lemma_first_named(lines: Seq<FoundLine>, name: Seq<char>, k: int)
    requires
        0 <= k < lines.len(),
        lines[k].info.name@ == name,
        forall|j: int| 0 <= j < k ==> lines[j].info.name@ != name,
    ensures
        first_named(lines, name) == k,
{
    let i = first_named(lines, name);
    assert(first_named_at(lines, name, k));
    if i < k {
        assert(lines[i].info.name@ != name);
    } else if i > k {
        assert(lines[k].info.name@ != name);
    }
}

/// Find the first line with the name among the lines reported by the chips.
pub fn find_named_line(name: &str, chips: &[ChipLines]) -> (r: Option<FoundLine>)
    ensures
        !(some_chip_read(chips@) && has_named(all_found(chips@), name@)) ==> r is None,
        some_chip_read(chips@) && has_named(all_found(chips@), name@) ==> (r matches Some(f)
            && same_found_line(f, all_found(chips@)[first_named(all_found(chips@), name@)])),
{
    let mut it = match LineIterator::new(chips) {
        Ok(it) => it,
        Err(_) => {
            return None;
        },
    };
    let ghost all = all_found(chips@);
    let ghost n = all.len() as int;
    let ghost mut k: int = 0;
    loop
        invariant
            n == all.len(),
            0 <= k <= n,
            some_chip_read(chips@),
            all == all_found(chips@),
            same_found_lines(it.remaining(), all.subrange(k, n)),
            forall|j: int| 0 <= j < k ==> all[j].info.name@ != name@,
        decreases n - k,
    {
        let ghost rem = it.remaining();
        match it.next() {
            None => {
                proof {
                    if has_named(all, name@) {
                        let j = choose|j: int| 0 <= j < all.len() && #[trigger] all[j].info.name@ == name@;
                        assert(all[j].info.name@ != name@);
                    }
                }
                return None;
            },
            Some(f) => {
                proof {
                    assert(all.subrange(k, n)[0] == all[k]);
                    assert(same_found_line(rem[0], all.subrange(k, n)[0]));
                    assert(same_found_line(f, all[k]));
                }
                if str_eq(f.info.name.as_str(), name) {
                    proof {
                        lemma_first_named(all, name@, k);
                    }
                    return Some(f);
                }
                proof {
                    assert forall|i: int| 0 <= i < it.remaining().len() implies #[trigger] same_found_line(
                        it.remaining()[i],
                        all.subrange(k + 1, n)[i],
                    ) by {
                        assert(all.subrange(k + 1, n)[i] == all.subrange(k, n)[i + 1]);
                    }
                    k = k + 1;
                }
            },
        }
    }
}


/// A line before position `k` has the name.
pub open spec fn named_before(lines: Seq<FoundLine>, k: int, name: Seq<char>) -> bool {
    exists|j: int| 0 <= j < k && #[trigger] lines[j].info.name@ == name
}

/// One of the names is the name.
pub open spec fn names_contain(names: Seq<&str>, name: Seq<char>) -> bool {
    exists|i: int| 0 <= i < names.len() && #[trigger] names[i]@ == name
}

/// The line at position `k` makes a search for unique names fail: its name
/// is one of the names, and an earlier line has that name too.
pub open spec fn nonunique_at(lines: Seq<FoundLine>, names: Seq<&str>, k: int) -> bool {
    &&& 0 <= k < lines.len()
    &&& names_contain(names, lines[k].info.name@)
    &&& named_before(lines, k, lines[k].info.name@)
}

/// Some line makes a search for unique names fail.
pub open spec fn any_nonunique(lines: Seq<FoundLine>, names: Seq<&str>) -> bool {
    exists|k: int| nonunique_at(lines, names, k)
}

/// The first line that makes a search for unique names fail.
pub open spec fn first_nonunique(lines: Seq<FoundLine>, names: Seq<&str>) -> int {
    choose|k: int|
        nonunique_at(lines, names, k) && forall|j: int| 0 <= j < k ==> !nonunique_at(lines, names, j)
}

/// The found lines hold, once each, the names that some line has, each with
/// the first line of that name.
pub open spec fn named_lines_found(
    found: Seq<(String, FoundLine)>,
    lines: Seq<FoundLine>,
    names: Seq<&str>,
) -> bool {
    &&& forall|i: int|
        0 <= i < found.len() ==> {
            &&& names_contain(names, #[trigger] found[i].0@)
            &&& has_named(lines, found[i].0@)
            &&& same_found_line(found[i].1, lines[first_named(lines, found[i].0@)])
        }
    &&& forall|n: int|
        0 <= n < names.len() && has_named(lines, #[trigger] names[n]@) ==> exists|i: int|
            0 <= i < found.len() && found[i].0@ == names[n]@
    &&& forall|i: int, j: int| 0 <= i < j < found.len() ==> found[i].0@ != found[j].0@
}

/// Two searches that find the lines with the names, such as a strict search
/// that succeeds and a search that is not strict, agree: each name found by
/// one is found by the other, with the same line.
pub proof fn lemma_named_lines_agree(
    f1: Seq<(String, FoundLine)>,
    f2: Seq<(String, FoundLine)>,
    lines: Seq<FoundLine>,
    names: Seq<&str>,
    i: int,
)
    requires
        named_lines_found(f1, lines, names),
        named_lines_found(f2, lines, names),
        0 <= i < f1.len(),
    ensures
        exists|j: int|
            0 <= j < f2.len() && f2[j].0@ == f1[i].0@ && same_found_line(f2[j].1, f1[i].1),
{
    let n = f1[i].0@;
    assert(names_contain(names, n));
    let m = choose|m: int| 0 <= m < names.len() && #[trigger] names[m]@ == n;
    assert(has_named(lines, names[m]@));
    let j = choose|j: int| 0 <= j < f2.len() && f2[j].0@ == names[m]@;
    assert(same_found_line(f2[j].1, lines[first_named(lines, n)]));
    assert(same_found_line(f2[j].1, f1[i].1));
}

/// The line at `k` is the first that makes a search for unique names fail.
proof fn lemma_first_nonunique(lines: Seq<FoundLine>, names: Seq<&str>, k: int)
    requires
        nonunique_at(lines, names, k),
        forall|j: int| 0 <= j < k ==> !nonunique_at(lines, names, j),
    ensures
        first_nonunique(lines, names) == k,
{
    let i = first_nonunique(lines, names);
    if i < k {
        assert(!nonunique_at(lines, names, i));
    } else if i > k {
        assert(!nonunique_at(lines, names, k));
    }
}

/// Return true if a found line has the key.
fn has_key(found: &Vec<(String, FoundLine)>, key: &str) -> (r: bool)
    ensures
        r == exists|i: int| 0 <= i < found@.len() && #[trigger] found@[i].0@ == key@,
{
    let mut i: usize = 0;
    while i < found.len()
        invariant
            i <= found@.len(),
            forall|j: int| 0 <= j < i ==> #[trigger] found@[j].0@ != key@,
        decreases found@.len() - i,
    {
        if str_eq(found[i].0.as_str(), key) {
            return true;
        }
        i += 1;
    }
    false
}

/// Find the lines with the names among the lines reported by the chips.
///
/// Each name is paired with the first line that has it. With `strict`, the
/// names must be unique among the lines: a second line with one of the
/// names fails the search.
pub fn find_named_lines(names: &[&str], strict: bool, chips: &[ChipLines]) -> (r: Result<
    Vec<(String, FoundLine)>,
    Error,
>)
    ensures
        !some_chip_read(chips@) ==> (r matches Err(e) && e is NoGpioChips),
        some_chip_read(chips@) && strict && any_nonunique(all_found(chips@), names@) ==> (r matches Err(
            e,
        ) && e matches Error::NonuniqueLineName(s) && s@ == all_found(chips@)[first_nonunique(
            all_found(chips@),
            names@,
        )].info.name@),
        some_chip_read(chips@) && !(strict && any_nonunique(all_found(chips@), names@)) ==> (r matches Ok(
            v,
        ) && named_lines_found(v@, all_found(chips@), names@)),
{
    let mut it = match LineIterator::new(chips) {
        Ok(it) => it,
        Err(e) => {
            return Err(e);
        },
    };
    let ghost all = all_found(chips@);
    let ghost n = all.len() as int;
    let ghost mut k: int = 0;
    let ghost mut pos: Seq<int> = Seq::empty();
    let mut found: Vec<(String, FoundLine)> = Vec::new();
    loop
        invariant
            n == all.len(),
            0 <= k <= n,
            some_chip_read(chips@),
            all == all_found(chips@),
            same_found_lines(it.remaining(), all.subrange(k, n)),
            pos.len() == found@.len(),
            forall|i: int|
                0 <= i < found@.len() ==> {
                    &&& 0 <= #[trigger] pos[i] < k
                    &&& first_named_at(all, found@[i].0@, pos[i])
                    &&& same_found_line(found@[i].1, all[pos[i]])
                    &&& names_contain(names@, found@[i].0@)
                },
            forall|m: int, p: int|
                0 <= m < names@.len() && 0 <= p < k && #[trigger] all[p].info.name@
                    == #[trigger] names@[m]@ ==> exists|i: int|
                    0 <= i < found@.len() && found@[i].0@ == names@[m]@,
            forall|i: int, j: int| 0 <= i < j < found@.len() ==> found@[i].0@ != found@[j].0@,
            strict ==> forall|j: int| 0 <= j < k ==> !nonunique_at(all, names@, j),
        decreases n - k,
    {
        let ghost rem = it.remaining();
        match it.next() {
            None => {
                proof {
                    assert(k == n);
                    assert forall|i: int| 0 <= i < found@.len() implies {
                        &&& names_contain(names@, #[trigger] found@[i].0@)
                        &&& has_named(all, found@[i].0@)
                        &&& same_found_line(found@[i].1, all[first_named(all, found@[i].0@)])
                    } by {
                        lemma_first_named(all, found@[i].0@, pos[i]);
                        assert(all[pos[i]].info.name@ == found@[i].0@);
                    }
                    assert forall|m: int|
                        0 <= m < names@.len() && has_named(all, #[trigger] names@[m]@) implies exists|i: int|
                        0 <= i < found@.len() && found@[i].0@ == names@[m]@ by {
                        let p = choose|p: int| 0 <= p < all.len() && #[trigger] all[p].info.name@ == names@[m]@;
                        assert(all[p].info.name@ == names@[m]@);
                    }
                    if strict && any_nonunique(all, names@) {
                        let j = choose|j: int| nonunique_at(all, names@, j);
                        assert(!nonunique_at(all, names@, j));
                    }
                }
                return Ok(found);
            },
            Some(f) => {
                proof {
                    assert(all.subrange(k, n)[0] == all[k]);
                    assert(same_found_line(rem[0], all.subrange(k, n)[0]));
                    assert(same_found_line(f, all[k]));
                }
                let ghost name = all[k].info.name@;
                let ghost found0 = found@;
                proof {
                    if exists|i: int| 0 <= i < found@.len() && #[trigger] found@[i].0@ == name {
                        let i = choose|i: int| 0 <= i < found@.len() && #[trigger] found@[i].0@ == name;
                        assert(all[pos[i]].info.name@ == name);
                    }
                }
                let earlier = has_key(&found, f.info.name.as_str());
                if strict && earlier {
                    proof {
                        let i = choose|i: int| 0 <= i < found@.len() && #[trigger] found@[i].0@ == name;
                        assert(all[pos[i]].info.name@ == name);
                        assert(named_before(all, k, name));
                        assert(nonunique_at(all, names@, k));
                        lemma_first_nonunique(all, names@, k);
                    }
                    return Err(Error::NonuniqueLineName(f.info.name.clone()));
                }
                proof {
                    if strict && nonunique_at(all, names@, k) {
                        let q = choose|q: int| 0 <= q < k && #[trigger] all[q].info.name@ == name;
                        let mm = choose|mm: int| 0 <= mm < names@.len() && #[trigger] names@[mm]@ == name;
                        assert(all[q].info.name@ == names@[mm]@);
                        let i = choose|i: int| 0 <= i < found0.len() && found0[i].0@ == names@[mm]@;
                        assert(found@[i].0@ == name);
                    }
                }
                let mut m: usize = 0;
                while m < names.len()
                    invariant
                        some_chip_read(chips@),
                        all == all_found(chips@),
                        n == all.len(),
                        0 <= k < n,
                        same_found_line(f, all[k]),
                        name == all[k].info.name@,
                        m <= names@.len(),
                        pos.len() == found@.len(),
                        found0.len() <= found@.len(),
                        found@.subrange(0, found0.len() as int) == found0,
                        forall|i: int|
                            0 <= i < found@.len() ==> {
                                &&& 0 <= #[trigger] pos[i] <= k
                                &&& first_named_at(all, found@[i].0@, pos[i])
                                &&& same_found_line(found@[i].1, all[pos[i]])
                                &&& names_contain(names@, found@[i].0@)
                            },
                        forall|i: int| found0.len() <= i < found@.len() ==> #[trigger] found@[i].0@ == name,
                        forall|m: int, p: int|
                            0 <= m < names@.len() && 0 <= p < k && #[trigger] all[p].info.name@
                                == #[trigger] names@[m]@ ==> exists|i: int|
                                0 <= i < found0.len() && found0[i].0@ == names@[m]@,
                        forall|j: int| 0 <= j < m && #[trigger] names@[j]@ == name ==> exists|i: int|
                            0 <= i < found@.len() && found@[i].0@ == name,
                        forall|i: int, j: int| 0 <= i < j < found@.len() ==> found@[i].0@ != found@[j].0@,
                    decreases names@.len() - m,
                {
                    let ghost before = found@;
                    if str_eq(names[m], f.info.name.as_str()) {
                        let present = has_key(&found, names[m]);
                        if !present {
                            proof {
                                if named_before(all, k, name) {
                                    let q = choose|q: int| 0 <= q < k && #[trigger] all[q].info.name@ == name;
                                    assert(all[q].info.name@ == names@[m as int]@);
                                    let i = choose|i: int| 0 <= i < found0.len() && found0[i].0@ == names@[m as int]@;
                                    assert(found@[i] == found0[i]);
                                }
                                assert(first_named_at(all, name, k));
                            }
                            let key = String::from_str(names[m]);
                            found.push((key, f.clone()));
                            proof {
                                pos = pos.push(k);
                            }
                        }
                    }
                    proof {
                        assert(before.len() <= found@.len());
                        assert forall|i: int| 0 <= i < before.len() implies found@[i] == before[i] by {
                            if found@.len() > before.len() {
                                assert(found@ == before.push(found@.last()));
                            }
                        }
                        assert(found@.subrange(0, found0.len() as int) =~= found0) by {
                            assert forall|i: int| 0 <= i < found0.len() implies found@[i] == found0[i] by {
                                assert(found@[i] == before[i]);
                                assert(before.subrange(0, found0.len() as int)[i] == before[i]);
                            }
                        }
                        assert forall|j: int| 0 <= j < m + 1 && #[trigger] names@[j]@ == name implies exists|i: int|
                            0 <= i < found@.len() && found@[i].0@ == name by {
                            if j < m {
                                let i = choose|i: int| 0 <= i < before.len() && before[i].0@ == name;
                                assert(found@[i] == before[i]);
                            } else {
                                if found@.len() > before.len() {
                                    assert(found@[found@.len() - 1].0@ == name);
                                } else {
                                    let i = choose|i: int| 0 <= i < before.len() && #[trigger] before[i].0@ == names@[m as int]@;
                                    assert(found@[i] == before[i]);
                                }
                            }
                        }
                    }
                    m += 1;
                }
                proof {
                    assert forall|i: int| 0 <= i < it.remaining().len() implies #[trigger] same_found_line(
                        it.remaining()[i],
                        all.subrange(k + 1, n)[i],
                    ) by {
                        assert(all.subrange(k + 1, n)[i] == all.subrange(k, n)[i + 1]);
                    }
                    k = k + 1;
                }
            },
        }
    }
}

} // verus!
