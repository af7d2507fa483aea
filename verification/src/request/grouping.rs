//! Grouping the lines of a request by a shared setting, as the v2 line
//! config attributes require: one bitmap of lines per distinct setting.
use crate::uapi::{bit, lemma_bit_nonzero, lemma_bit_set, lemma_bit_zero, LineAttributeValueV2, LineConfigAttributeV2, LineConfigV2};
use vstd::prelude::*;

verus! {

/// The number of the first `n` flags equal to `f`.
pub open spec fn count_eq(s: Seq<u64>, f: u64, n: int) -> nat
    decreases n,
{
    if n <= 0 {
        0
    } else {
        count_eq(s, f, n - 1) + (if s[n - 1] == f {
            1nat
        } else {
            0nat
        })
    }
}

/// The flags held by some of the first `n` lines.
pub open spec fn flags_set(s: Seq<u64>, n: int) -> Set<u64> {
    Set::new(|f: u64| exists|j: int| 0 <= j < n && s[j] == f)
}

/// The debounce periods held by some of the first `n` lines.
pub open spec fn debounce_set(s: Seq<Option<u32>>, n: int) -> Set<u32> {
    Set::new(|d: u32| exists|j: int| 0 <= j < n && s[j] == Some(d))
}

/// The flag groups of the first `n` lines with flags `fl`: distinct flags,
/// each with the mask of the lines that have them and their number.
pub open spec fn flag_groups(
    fl: Seq<u64>,
    n: int,
    gflags: Seq<u64>,
    gmask: Seq<u64>,
    gcount: Seq<usize>,
) -> bool {
    &&& gflags.len() == gmask.len()
    &&& gflags.len() == gcount.len()
    &&& gflags.no_duplicates()
    &&& forall|g: int, j: u64|
        0 <= g < gflags.len() && j < 64 ==> #[trigger] bit(gmask[g], j) == (j < n && fl[j as int]
            == gflags[g])
    &&& forall|j: int| 0 <= j < n ==> gflags.contains(#[trigger] fl[j])
    &&& forall|g: int| 0 <= g < gflags.len() ==> #[trigger] gcount[g] == count_eq(fl, gflags[g], n)
    &&& forall|g: int| 0 <= g < gflags.len() ==> gcount[g] >= 1
}

/// The number of lines with some flags is at least one if any line has them.
proof fn lemma_count_pos(s: Seq<u64>, f: u64, n: int, j: int)
    requires
        0 <= j < n <= s.len(),
        s[j] == f,
    ensures
        count_eq(s, f, n) >= 1,
    decreases n,
{
    if j < n - 1 {
        lemma_count_pos(s, f, n - 1, j);
    }
}

/// Counting flags is bounded by the number of lines counted.
proof fn lemma_count_le(s: Seq<u64>, f: u64, n: int)
    requires
        0 <= n,
    ensures
        count_eq(s, f, n) <= n,
    decreases n,
{
    if n > 0 {
        lemma_count_le(s, f, n - 1);
    }
}

/// Group the lines by their flags, in the order the flags first occur.
pub fn group_flags(fl: &Vec<u64>) -> (r: (Vec<u64>, Vec<u64>, Vec<usize>))
    requires
        fl@.len() <= 64,
    ensures
        flag_groups(fl@, fl@.len() as int, r.0@, r.1@, r.2@),
        r.0@.len() <= fl@.len(),
        r.0@.to_set() == flags_set(fl@, fl@.len() as int),
        r.0@.len() == flags_set(fl@, fl@.len() as int).len(),
        fl@.len() > 0 ==> r.0@.len() > 0,
{
    let n = fl.len();
    let mut gflags: Vec<u64> = Vec::new();
    let mut gmask: Vec<u64> = Vec::new();
    let mut gcount: Vec<usize> = Vec::new();
    proof {
        assert forall|j: u64| j < 64 implies !#[trigger] bit(0u64, j) by {
            lemma_bit_zero(j);
        }
    }
    let mut idx: usize = 0;
    while idx < n
        invariant
            n == fl@.len(),
            n <= 64,
            idx <= n,
            flag_groups(fl@, idx as int, gflags@, gmask@, gcount@),
            gflags@.len() <= idx,
            gflags@.to_set() == flags_set(fl@, idx as int),
        decreases n - idx,
    {
        let f = fl[idx];
        let mut g: usize = 0;
        while g < gflags.len()
            invariant
                gflags@.len() == gmask@.len(),
                g <= gflags@.len(),
                forall|k: int| 0 <= k < g ==> gflags@[k] != f,
            ensures
                g <= gflags@.len(),
                g < gflags@.len() ==> gflags@[g as int] == f,
                forall|k: int| 0 <= k < g ==> gflags@[k] != f,
            decreases gflags@.len() - g,
        {
            if gflags[g] == f {
                break;
            }
            g += 1;
        }
        let ghost old_flags = gflags@;
        let ghost old_mask = gmask@;
        let ghost old_count = gcount@;
        proof {
            lemma_count_le(fl@, f, idx as int);
        }
        if g < gflags.len() {
            let m = gmask[g] | (1u64 << (idx as u64));
            gmask.set(g, m);
            let c = gcount[g] + 1;
            gcount.set(g, c);
            proof {
                assert(gflags@[g as int] == f);
                assert forall|h: int, j: u64| 0 <= h < gflags@.len() && j < 64 implies #[trigger] bit(gmask@[h], j)
                    == (j < idx + 1 && fl@[j as int] == gflags@[h]) by {
                    if h == g {
                        lemma_bit_set(old_mask[h], idx as u64, j);
                    } else {
                        assert(bit(old_mask[h], j) == (j < idx && fl@[j as int] == old_flags[h]));
                        if j == idx {
                            assert(gflags@[h] != gflags@[g as int]);
                        }
                    }
                }
                assert forall|h: int| 0 <= h < gflags@.len() implies #[trigger] gcount@[h] == count_eq(fl@, gflags@[h], idx + 1) by {
                    assert(old_count[h] == count_eq(fl@, old_flags[h], idx as int));
                }
                assert forall|j: int| 0 <= j < idx + 1 implies gflags@.contains(#[trigger] fl@[j]) by {
                    if j == idx {
                        assert(gflags@[g as int] == fl@[j]);
                    }
                }
                assert forall|x: u64| #[trigger] gflags@.to_set().contains(x) <==> flags_set(fl@, idx + 1).contains(x) by {
                    if flags_set(fl@, idx as int).contains(x) {
                        let j = choose|j: int| 0 <= j < idx && fl@[j] == x;
                        assert(0 <= j < idx + 1 && fl@[j] == x);
                    }
                    if flags_set(fl@, idx + 1).contains(x) {
                        let j = choose|j: int| 0 <= j < idx + 1 && fl@[j] == x;
                        if j < idx {
                            assert(flags_set(fl@, idx as int).contains(x));
                        } else {
                            assert(gflags@.contains(x));
                        }
                    }
                }
                assert(gflags@.to_set() =~= flags_set(fl@, idx + 1));
            }
        } else {
            gflags.push(f);
            gmask.push(1u64 << (idx as u64));
            gcount.push(1);
            proof {
                let last = old_flags.len() as int;
                assert forall|h: int, j: u64| 0 <= h < gflags@.len() && j < 64 implies #[trigger] bit(gmask@[h], j)
                    == (j < idx + 1 && fl@[j as int] == gflags@[h]) by {
                    if h == last {
                        lemma_bit_set(0u64, idx as u64, j);
                        lemma_bit_zero(j);
                        assert((0u64 | (1u64 << (idx as u64))) == (1u64 << (idx as u64))) by (bit_vector);
                        assert(gmask@[h] == (1u64 << (idx as u64)));
                        assert(gflags@[h] == f);
                        if j < idx {
                            assert(old_flags.contains(fl@[j as int]));
                            let k = choose|k: int| 0 <= k < old_flags.len() && old_flags[k] == fl@[j as int];
                            assert(old_flags[k] != f);
                        }
                    } else {
                        assert(bit(old_mask[h], j) == (j < idx && fl@[j as int] == old_flags[h]));
                        if j == idx {
                            assert(old_flags[h] != f);
                        }
                    }
                }
                assert forall|h: int| 0 <= h < gflags@.len() implies #[trigger] gcount@[h] == count_eq(fl@, gflags@[h], idx + 1) by {
                    if h == last {
                        assert(count_eq(fl@, f, idx as int) == 0) by {
                            if count_eq(fl@, f, idx as int) != 0 {
                                lemma_count_zero(fl@, f, idx as int);
                                let j = choose|j: int| 0 <= j < idx && fl@[j] == f;
                                assert(old_flags.contains(fl@[j]));
                            }
                        }
                    } else {
                        assert(old_count[h] == count_eq(fl@, old_flags[h], idx as int));
                        assert(old_flags[h] != f);
                    }
                }
                assert forall|h: int| 0 <= h < gflags@.len() implies gcount@[h] >= 1 by {
                    if h < last {
                        assert(old_count[h] >= 1);
                    }
                }
                assert forall|j: int| 0 <= j < idx + 1 implies gflags@.contains(#[trigger] fl@[j]) by {
                    if j == idx {
                        assert(gflags@[last] == fl@[j]);
                    } else {
                        assert(old_flags.contains(fl@[j]));
                        let k = choose|k: int| 0 <= k < old_flags.len() && old_flags[k] == fl@[j];
                        assert(gflags@[k] == fl@[j]);
                    }
                }
                assert forall|a: int, b: int| 0 <= a < b < gflags@.len() implies gflags@[a] != gflags@[b] by {
                    if b == last {
                        assert(old_flags[a] != f);
                    }
                }
                assert forall|x: u64| #[trigger] gflags@.to_set().contains(x) <==> flags_set(fl@, idx + 1).contains(x) by {
                    if gflags@.contains(x) {
                        let k = choose|k: int| 0 <= k < gflags@.len() && gflags@[k] == x;
                        if k < last {
                            assert(old_flags.contains(x));
                            assert(old_flags.to_set().contains(x));
                            let j = choose|j: int| 0 <= j < idx && fl@[j] == x;
                            assert(0 <= j < idx + 1 && fl@[j] == x);
                        } else {
                            assert(0 <= idx < idx + 1 && fl@[idx as int] == x);
                        }
                    }
                    if flags_set(fl@, idx + 1).contains(x) {
                        let j = choose|j: int| 0 <= j < idx + 1 && fl@[j] == x;
                        if j < idx {
                            assert(flags_set(fl@, idx as int).contains(x));
                            assert(old_flags.to_set().contains(x));
                            let k = choose|k: int| 0 <= k < old_flags.len() && old_flags[k] == x;
                            assert(gflags@[k] == x);
                        } else {
                            assert(gflags@[last] == x);
                        }
                    }
                }
                assert(gflags@.to_set() =~= flags_set(fl@, idx + 1));
            }
        }
        idx += 1;
    }
    proof {
        gflags@.unique_seq_to_set();
        if n > 0 {
            assert(gflags@.contains(fl@[0]));
        }
    }
    (gflags, gmask, gcount)
}

/// A count of zero means no line has the flags.
proof fn lemma_count_zero(s: Seq<u64>, f: u64, n: int)
    requires
        0 <= n <= s.len(),
        count_eq(s, f, n) != 0,
    ensures
        exists|j: int| 0 <= j < n && s[j] == f,
    decreases n,
{
    if n > 0 {
        if s[n - 1] == f {
            assert(0 <= n - 1 < n && s[n - 1] == f);
        } else {
            lemma_count_zero(s, f, n - 1);
            let j = choose|j: int| 0 <= j < n - 1 && s[j] == f;
            assert(0 <= j < n && s[j] == f);
        }
    }
}

/// The debounce groups of the first `n` lines with debounce periods `db`:
/// distinct periods, each with the mask of the lines that have them.
pub open spec fn debounce_groups(db: Seq<Option<u32>>, n: int, dus: Seq<u32>, dmask: Seq<u64>) -> bool {
    &&& dus.len() == dmask.len()
    &&& dus.no_duplicates()
    &&& forall|g: int, j: u64|
        0 <= g < dus.len() && j < 64 ==> #[trigger] bit(dmask[g], j) == (j < n && db[j as int]
            == Some(dus[g]))
    &&& dus.to_set() == debounce_set(db, n)
}

/// Group the lines with a debounce period by their period, in the order
/// the periods first occur.
pub fn group_debounce(db: &Vec<Option<u32>>) -> (r: (Vec<u32>, Vec<u64>))
    requires
        db@.len() <= 64,
    ensures
        debounce_groups(db@, db@.len() as int, r.0@, r.1@),
        r.0@.len() <= db@.len(),
        r.0@.len() == debounce_set(db@, db@.len() as int).len(),
{
    let n = db.len();
    let mut dus: Vec<u32> = Vec::new();
    let mut dmask: Vec<u64> = Vec::new();
    proof {
        assert(dus@.to_set() =~= debounce_set(db@, 0));
    }
    let mut idx: usize = 0;
    while idx < n
        invariant
            n == db@.len(),
            n <= 64,
            idx <= n,
            dus@.len() <= idx,
            debounce_groups(db@, idx as int, dus@, dmask@),
        decreases n - idx,
    {
        let ghost old_dus = dus@;
        let ghost old_mask = dmask@;
        match db[idx] {
            None => {
                proof {
                    assert forall|h: int, j: u64| 0 <= h < dus@.len() && j < 64 implies #[trigger] bit(dmask@[h], j)
                        == (j < idx + 1 && db@[j as int] == Some(dus@[h])) by {
                        assert(bit(old_mask[h], j) == (j < idx && db@[j as int] == Some(old_dus[h])));
                    }
                    assert forall|x: u32| #[trigger] dus@.to_set().contains(x) <==> debounce_set(db@, idx + 1).contains(x) by {
                        if debounce_set(db@, idx + 1).contains(x) {
                            let j = choose|j: int| 0 <= j < idx + 1 && db@[j] == Some(x);
                            assert(j < idx);
                            assert(debounce_set(db@, idx as int).contains(x));
                        }
                        if debounce_set(db@, idx as int).contains(x) {
                            let j = choose|j: int| 0 <= j < idx && db@[j] == Some(x);
                            assert(0 <= j < idx + 1 && db@[j] == Some(x));
                        }
                    }
                    assert(dus@.to_set() =~= debounce_set(db@, idx + 1));
                }
            },
            Some(d) => {
                let mut g: usize = 0;
                while g < dus.len()
                    invariant
                        dus@.len() == dmask@.len(),
                        g <= dus@.len(),
                        forall|k: int| 0 <= k < g ==> dus@[k] != d,
                    ensures
                        g <= dus@.len(),
                        g < dus@.len() ==> dus@[g as int] == d,
                        forall|k: int| 0 <= k < g ==> dus@[k] != d,
                    decreases dus@.len() - g,
                {
                    if dus[g] == d {
                        break;
                    }
                    g += 1;
                }
                if g < dus.len() {
                    let m = dmask[g] | (1u64 << (idx as u64));
                    dmask.set(g, m);
                    proof {
                        assert forall|h: int, j: u64| 0 <= h < dus@.len() && j < 64 implies #[trigger] bit(dmask@[h], j)
                            == (j < idx + 1 && db@[j as int] == Some(dus@[h])) by {
                            if h == g {
                                lemma_bit_set(old_mask[h], idx as u64, j);
                            } else {
                                assert(bit(old_mask[h], j) == (j < idx && db@[j as int] == Some(old_dus[h])));
                                if j == idx {
                                    assert(dus@[h] != dus@[g as int]);
                                }
                            }
                        }
                        assert forall|x: u32| #[trigger] dus@.to_set().contains(x) <==> debounce_set(db@, idx + 1).contains(x) by {
                            if debounce_set(db@, idx + 1).contains(x) {
                                let j = choose|j: int| 0 <= j < idx + 1 && db@[j] == Some(x);
                                if j < idx {
                                    assert(debounce_set(db@, idx as int).contains(x));
                                } else {
                                    assert(dus@[g as int] == x);
                                }
                            }
                            if debounce_set(db@, idx as int).contains(x) {
                                let j = choose|j: int| 0 <= j < idx && db@[j] == Some(x);
                                assert(0 <= j < idx + 1 && db@[j] == Some(x));
                            }
                        }
                        assert(dus@.to_set() =~= debounce_set(db@, idx + 1));
                    }
                } else {
                    dus.push(d);
                    dmask.push(1u64 << (idx as u64));
                    proof {
                        let last = old_dus.len() as int;
                        assert forall|h: int, j: u64| 0 <= h < dus@.len() && j < 64 implies #[trigger] bit(dmask@[h], j)
                            == (j < idx + 1 && db@[j as int] == Some(dus@[h])) by {
                            if h == last {
                                lemma_bit_set(0u64, idx as u64, j);
                                lemma_bit_zero(j);
                                assert((0u64 | (1u64 << (idx as u64))) == (1u64 << (idx as u64))) by (bit_vector);
                                assert(dmask@[h] == (1u64 << (idx as u64)));
                                assert(dus@[h] == d);
                                if j < idx && db@[j as int] == Some(d) {
                                    assert(debounce_set(db@, idx as int).contains(d));
                                    assert(old_dus.to_set().contains(d));
                                    let k = choose|k: int| 0 <= k < old_dus.len() && old_dus[k] == d;
                                    assert(old_dus[k] != d);
                                }
                            } else {
                                assert(bit(old_mask[h], j) == (j < idx && db@[j as int] == Some(old_dus[h])));
                                if j == idx {
                                    assert(old_dus[h] != d);
                                }
                            }
                        }
                        assert forall|a: int, b: int| 0 <= a < b < dus@.len() implies dus@[a] != dus@[b] by {
                            if b == last {
                                assert(old_dus[a] != d);
                            }
                        }
                        assert forall|x: u32| #[trigger] dus@.to_set().contains(x) <==> debounce_set(db@, idx + 1).contains(x) by {
                            if dus@.contains(x) {
                                let k = choose|k: int| 0 <= k < dus@.len() && dus@[k] == x;
                                if k < last {
                                    assert(old_dus.contains(x));
                                    assert(old_dus.to_set().contains(x));
                                    let j = choose|j: int| 0 <= j < idx && db@[j] == Some(x);
                                    assert(0 <= j < idx + 1 && db@[j] == Some(x));
                                } else {
                                    assert(0 <= idx < idx + 1 && db@[idx as int] == Some(x));
                                }
                            }
                            if debounce_set(db@, idx + 1).contains(x) {
                                let j = choose|j: int| 0 <= j < idx + 1 && db@[j] == Some(x);
                                if j < idx {
                                    assert(debounce_set(db@, idx as int).contains(x));
                                    assert(old_dus.to_set().contains(x));
                                    let k = choose|k: int| 0 <= k < old_dus.len() && old_dus[k] == x;
                                    assert(dus@[k] == x);
                                } else {
                                    assert(dus@[last] == x);
                                }
                            }
                        }
                        assert(dus@.to_set() =~= debounce_set(db@, idx + 1));
                    }
                }
            },
        }
        idx += 1;
    }
    proof {
        dus@.unique_seq_to_set();
    }
    (dus, dmask)
}

/// The position of the first of the largest counts.
pub fn most_common(gcount: &Vec<usize>) -> (b: usize)
    requires
        gcount@.len() > 0,
    ensures
        b < gcount@.len(),
        forall|g: int| 0 <= g < gcount@.len() ==> gcount@[g] <= gcount@[b as int],
        forall|g: int| 0 <= g < b ==> gcount@[g] < gcount@[b as int],
{
    let mut b: usize = 0;
    let mut g: usize = 1;
    while g < gcount.len()
        invariant
            1 <= g <= gcount@.len(),
            b < g,
            forall|h: int| 0 <= h < g ==> gcount@[h] <= gcount@[b as int],
            forall|h: int| 0 <= h < b ==> gcount@[h] < gcount@[b as int],
        decreases gcount@.len() - g,
    {
        if gcount[g] > gcount[b] {
            b = g;
        }
        g += 1;
    }
    b
}

/// A flags attribute.
pub open spec fn flags_attr(f: u64, mask: u64) -> LineConfigAttributeV2 {
    LineConfigAttributeV2 { value: LineAttributeValueV2::Flags(f), mask }
}

/// An output values attribute.
pub open spec fn values_attr(bits: u64, mask: u64) -> LineConfigAttributeV2 {
    LineConfigAttributeV2 { value: LineAttributeValueV2::Values(bits), mask }
}

/// A debounce period attribute.
pub open spec fn debounce_attr(us: u32, mask: u64) -> LineConfigAttributeV2 {
    LineConfigAttributeV2 { value: LineAttributeValueV2::DebouncePeriod(us), mask }
}

/// The group index of the flag attribute at position `k`, skipping the
/// base group `b`.
pub open spec fn group_of_attr(k: int, b: int) -> int {
    if k < b {
        k
    } else {
        k + 1
    }
}

/// The attributes are laid out as: the flag groups other than the base
/// group, in order; the output values, if any line is active; then the
/// debounce groups, in order.
pub open spec fn attrs_layout(
    attrs: Seq<LineConfigAttributeV2>,
    gflags: Seq<u64>,
    gmask: Seq<u64>,
    b: int,
    vmask: u64,
    vbits: u64,
    dus: Seq<u32>,
    dmask: Seq<u64>,
) -> bool {
    let nf = gflags.len() - 1;
    let nv: int = if vbits != 0 {
        1
    } else {
        0
    };
    &&& attrs.len() == nf + nv + dus.len()
    &&& forall|k: int|
        0 <= k < nf ==> #[trigger] attrs[k] == flags_attr(gflags[group_of_attr(k, b)], gmask[group_of_attr(k, b)])
    &&& nv == 1 ==> attrs[nf] == values_attr(vbits, vmask)
    &&& forall|k: int|
        nf + nv <= k < attrs.len() ==> #[trigger] attrs[k] == debounce_attr(
            dus[k - nf - nv],
            dmask[k - nf - nv],
        )
}

/// Lay out the attributes of a v2 line config: the flag groups other than
/// the base group, then the output values if any line is active, then the
/// debounce groups.
pub fn assemble_attrs(
    gflags: &Vec<u64>,
    gmask: &Vec<u64>,
    b: usize,
    vmask: u64,
    vbits: u64,
    dus: &Vec<u32>,
    dmask: &Vec<u64>,
) -> (attrs: Vec<LineConfigAttributeV2>)
    requires
        gflags@.len() == gmask@.len(),
        b < gflags@.len(),
        dus@.len() == dmask@.len(),
    ensures
        attrs_layout(attrs@, gflags@, gmask@, b as int, vmask, vbits, dus@, dmask@),
{
    let mut attrs: Vec<LineConfigAttributeV2> = Vec::new();
    let mut g: usize = 0;
    while g < gflags.len()
        invariant
            gflags@.len() == gmask@.len(),
            b < gflags@.len(),
            g <= gflags@.len(),
            attrs@.len() == (if b < g {
                g - 1
            } else {
                g as int
            }),
            forall|k: int|
                0 <= k < attrs@.len() ==> #[trigger] attrs@[k] == flags_attr(gflags@[group_of_attr(k, b as int)], gmask@[group_of_attr(k, b as int)]),
        decreases gflags@.len() - g,
    {
        if g != b {
            attrs.push(
                LineConfigAttributeV2 { value: LineAttributeValueV2::Flags(gflags[g]), mask: gmask[g] },
            );
        }
        g += 1;
    }
    let nf = attrs.len();
    if vbits != 0 {
        attrs.push(LineConfigAttributeV2 { value: LineAttributeValueV2::Values(vbits), mask: vmask });
    }
    let base = attrs.len();
    let mut d: usize = 0;
    while d < dus.len()
        invariant
            dus@.len() == dmask@.len(),
            d <= dus@.len(),
            nf == gflags@.len() - 1,
            base == nf + (if vbits != 0 {
                1int
            } else {
                0int
            }),
            attrs@.len() == base + d,
            forall|k: int|
                0 <= k < nf ==> #[trigger] attrs@[k] == flags_attr(gflags@[group_of_attr(k, b as int)], gmask@[group_of_attr(k, b as int)]),
            vbits != 0 ==> attrs@[nf as int] == values_attr(vbits, vmask),
            forall|k: int|
                base <= k < attrs@.len() ==> #[trigger] attrs@[k] == debounce_attr(
                    dus@[k - base],
                    dmask@[k - base],
                ),
        decreases dus@.len() - d,
    {
        attrs.push(
            LineConfigAttributeV2 { value: LineAttributeValueV2::DebouncePeriod(dus[d]), mask: dmask[d] },
        );
        d += 1;
    }
    attrs
}

/// The kind of an attribute value: 1 for flags, 2 for output values, 3 for
/// a debounce period.
pub open spec fn attr_kind(v: LineAttributeValueV2) -> int {
    match v {
        LineAttributeValueV2::Flags(_) => 1,
        LineAttributeValueV2::Values(_) => 2,
        LineAttributeValueV2::DebouncePeriod(_) => 3,
    }
}

/// The value of the first attribute of a kind whose mask selects the line
/// at index `j`, which is the one the kernel applies to that line.
pub open spec fn first_of(attrs: Seq<LineConfigAttributeV2>, kind: int, j: u64) -> Option<
    LineAttributeValueV2,
>
    decreases attrs.len(),
{
    if attrs.len() == 0 {
        None
    } else if attr_kind(attrs[0].value) == kind && bit(attrs[0].mask, j) {
        Some(attrs[0].value)
    } else {
        first_of(attrs.drop_first(), kind, j)
    }
}

/// The flags a v2 line config applies to the line at index `j`: those of
/// the first flags attribute selecting it, else the config's flags.
pub open spec fn applied_flags(lc: LineConfigV2, j: u64) -> u64 {
    match first_of(lc.attrs@, 1, j) {
        Some(LineAttributeValueV2::Flags(f)) => f,
        _ => lc.flags,
    }
}

/// The debounce period, in microseconds, a v2 line config applies to the
/// line at index `j`: that of the first debounce attribute selecting it.
pub open spec fn applied_debounce(lc: LineConfigV2, j: u64) -> Option<u32> {
    match first_of(lc.attrs@, 3, j) {
        Some(LineAttributeValueV2::DebouncePeriod(us)) => Some(us),
        _ => None,
    }
}

/// The output value a v2 line config applies to the line at index `j`,
/// true for active: that of the first output values attribute selecting it.
pub open spec fn applied_value(lc: LineConfigV2, j: u64) -> Option<bool> {
    match first_of(lc.attrs@, 2, j) {
        Some(LineAttributeValueV2::Values(bits)) => Some(bit(bits, j)),
        _ => None,
    }
}

/// Some attribute of a kind selects the line at index `j`.
pub open spec fn some_selects(attrs: Seq<LineConfigAttributeV2>, kind: int, j: u64) -> bool {
    exists|k: int| 0 <= k < attrs.len() && attr_kind(attrs[k].value) == kind && #[trigger] bit(attrs[k].mask, j)
}

/// If every attribute of a kind selecting a line has the same value, the
/// first such attribute has that value, and there is one exactly when some
/// attribute selects the line.
pub proof fn lemma_first_of(attrs: Seq<LineConfigAttributeV2>, kind: int, j: u64, v: LineAttributeValueV2)
    requires
        forall|k: int|
            0 <= k < attrs.len() && attr_kind(attrs[k].value) == kind && #[trigger] bit(attrs[k].mask, j)
                ==> attrs[k].value == v,
    ensures
        some_selects(attrs, kind, j) ==> first_of(attrs, kind, j) == Some(v),
        !some_selects(attrs, kind, j) ==> first_of(attrs, kind, j) is None,
    decreases attrs.len(),
{
    if attrs.len() > 0 {
        let rest = attrs.drop_first();
        assert forall|k: int|
            0 <= k < rest.len() && attr_kind(rest[k].value) == kind && #[trigger] bit(rest[k].mask, j)
                implies rest[k].value == v by {
            assert(rest[k] == attrs[k + 1]);
        }
        lemma_first_of(rest, kind, j, v);
        if some_selects(attrs, kind, j) && !(attr_kind(attrs[0].value) == kind && bit(attrs[0].mask, j)) {
            let k = choose|k: int| 0 <= k < attrs.len() && attr_kind(attrs[k].value) == kind && #[trigger] bit(attrs[k].mask, j);
            assert(k > 0);
            assert(rest[k - 1] == attrs[k]);
            assert(some_selects(rest, kind, j));
        }
        if some_selects(rest, kind, j) {
            let k = choose|k: int| 0 <= k < rest.len() && attr_kind(rest[k].value) == kind && #[trigger] bit(rest[k].mask, j);
            assert(attrs[k + 1] == rest[k]);
            assert(some_selects(attrs, kind, j));
        }
    }
}

/// The attributes of the layout, with the flags of the base group as the
/// config's flags, apply to each line its own flags and debounce period,
/// and the output values to just the outputs, and select no line beyond the
/// `n` lines.
pub proof fn lemma_layout_applies(
    fl: Seq<u64>,
    db: Seq<Option<u32>>,
    n: int,
    gflags: Seq<u64>,
    gmask: Seq<u64>,
    gcount: Seq<usize>,
    b: int,
    vmask: u64,
    vbits: u64,
    dus: Seq<u32>,
    dmask: Seq<u64>,
    lc: LineConfigV2,
)
    requires
        0 <= n <= 64,
        fl.len() == n,
        db.len() == n,
        flag_groups(fl, n, gflags, gmask, gcount),
        0 <= b < gflags.len(),
        debounce_groups(db, n, dus, dmask),
        forall|j: u64| j < 64 && #[trigger] bit(vmask, j) ==> j < n,
        forall|j: u64| j < 64 && #[trigger] bit(vbits, j) ==> bit(vmask, j),
        lc.flags == gflags[b],
        attrs_layout(lc.attrs@, gflags, gmask, b, vmask, vbits, dus, dmask),
    ensures
        forall|k: int, j: u64|
            0 <= k < lc.attrs@.len() && j < 64 && #[trigger] bit(lc.attrs@[k].mask, j) ==> j < n,
        forall|j: u64| j < n ==> #[trigger] applied_flags(lc, j) == fl[j as int],
        forall|j: u64| j < n ==> #[trigger] applied_debounce(lc, j) == db[j as int],
        forall|j: u64|
            j < 64 ==> #[trigger] applied_value(lc, j) == (if vbits != 0 && bit(vmask, j) {
                Some(bit(vbits, j))
            } else {
                None
            }),
{
    let attrs = lc.attrs@;
    let nf = gflags.len() - 1;
    let nv: int = if vbits != 0 {
        1
    } else {
        0
    };
    assert forall|k: int, j: u64|
        0 <= k < attrs.len() && j < 64 && #[trigger] bit(attrs[k].mask, j) implies j < n by {
        if k < nf {
            let g = group_of_attr(k, b);
            assert(attrs[k] == flags_attr(gflags[g], gmask[g]));
            assert(bit(gmask[g], j) == (j < n && fl[j as int] == gflags[g]));
        } else if k < nf + nv {
            assert(attrs[nf] == values_attr(vbits, vmask));
        } else {
            let d = k - nf - nv;
            assert(attrs[k] == debounce_attr(dus[d], dmask[d]));
            assert(bit(dmask[d], j) == (j < n && db[j as int] == Some(dus[d])));
        }
    }
    assert forall|j: u64| j < n implies #[trigger] applied_flags(lc, j) == fl[j as int] by {
        let v = LineAttributeValueV2::Flags(fl[j as int]);
        assert forall|k: int|
            0 <= k < attrs.len() && attr_kind(attrs[k].value) == 1 && #[trigger] bit(attrs[k].mask, j)
                implies attrs[k].value == v by {
            if k < nf {
                let g = group_of_attr(k, b);
                assert(attrs[k] == flags_attr(gflags[g], gmask[g]));
                assert(bit(gmask[g], j) == (j < n && fl[j as int] == gflags[g]));
            } else if k < nf + nv {
                assert(attrs[nf] == values_attr(vbits, vmask));
            } else {
                let d = k - nf - nv;
                assert(attrs[k] == debounce_attr(dus[d], dmask[d]));
            }
        }
        lemma_first_of(attrs, 1, j, v);
        if !some_selects(attrs, 1, j) {
            assert(gflags.contains(fl[j as int]));
            let g = choose|g: int| 0 <= g < gflags.len() && gflags[g] == fl[j as int];
            if g != b {
                let k = if g < b {
                    g
                } else {
                    g - 1
                };
                assert(group_of_attr(k, b) == g);
                assert(attrs[k] == flags_attr(gflags[g], gmask[g]));
                assert(bit(gmask[g], j) == (j < n && fl[j as int] == gflags[g]));
                assert(attr_kind(attrs[k].value) == 1 && bit(attrs[k].mask, j));
                assert(false);
            }
        }
    }
    assert forall|j: u64| j < n implies #[trigger] applied_debounce(lc, j) == db[j as int] by {
        let v = match db[j as int] {
            Some(us) => LineAttributeValueV2::DebouncePeriod(us),
            None => LineAttributeValueV2::DebouncePeriod(0),
        };
        assert forall|k: int|
            0 <= k < attrs.len() && attr_kind(attrs[k].value) == 3 && #[trigger] bit(attrs[k].mask, j)
                implies attrs[k].value == v by {
            if k < nf {
                let g = group_of_attr(k, b);
                assert(attrs[k] == flags_attr(gflags[g], gmask[g]));
            } else if k < nf + nv {
                assert(attrs[nf] == values_attr(vbits, vmask));
            } else {
                let d = k - nf - nv;
                assert(attrs[k] == debounce_attr(dus[d], dmask[d]));
                assert(bit(dmask[d], j) == (j < n && db[j as int] == Some(dus[d])));
            }
        }
        lemma_first_of(attrs, 3, j, v);
        match db[j as int] {
            Some(us) => {
                assert(debounce_set(db, n).contains(us));
                assert(dus.to_set().contains(us));
                let d = choose|d: int| 0 <= d < dus.len() && dus[d] == us;
                let k = nf + nv + d;
                assert(attrs[k] == debounce_attr(dus[k - nf - nv], dmask[k - nf - nv]));
                assert(bit(dmask[d], j) == (j < n && db[j as int] == Some(dus[d])));
                assert(attr_kind(attrs[k].value) == 3 && bit(attrs[k].mask, j));
            },
            None => {
                if some_selects(attrs, 3, j) {
                    let k = choose|k: int| 0 <= k < attrs.len() && attr_kind(attrs[k].value) == 3 && #[trigger] bit(attrs[k].mask, j);
                    if k < nf {
                        let g = group_of_attr(k, b);
                        assert(attrs[k] == flags_attr(gflags[g], gmask[g]));
                    } else if k < nf + nv {
                        assert(attrs[nf] == values_attr(vbits, vmask));
                    } else {
                        let d = k - nf - nv;
                        assert(attrs[k] == debounce_attr(dus[d], dmask[d]));
                        assert(bit(dmask[d], j) == (j < n && db[j as int] == Some(dus[d])));
                    }
                }
            },
        }
    }
    assert forall|j: u64| j < 64 implies #[trigger] applied_value(lc, j) == (if vbits != 0 && bit(vmask, j) {
        Some(bit(vbits, j))
    } else {
        None
    }) by {
        let v = LineAttributeValueV2::Values(vbits);
        assert forall|k: int|
            0 <= k < attrs.len() && attr_kind(attrs[k].value) == 2 && #[trigger] bit(attrs[k].mask, j)
                implies attrs[k].value == v by {
            if k < nf {
                let g = group_of_attr(k, b);
                assert(attrs[k] == flags_attr(gflags[g], gmask[g]));
            } else if k < nf + nv {
                assert(attrs[nf] == values_attr(vbits, vmask));
            } else {
                let d = k - nf - nv;
                assert(attrs[k] == debounce_attr(dus[d], dmask[d]));
            }
        }
        lemma_first_of(attrs, 2, j, v);
        if vbits != 0 && bit(vmask, j) {
            assert(attrs[nf] == values_attr(vbits, vmask));
            assert(attr_kind(attrs[nf].value) == 2 && bit(attrs[nf].mask, j));
        } else if some_selects(attrs, 2, j) {
            let k = choose|k: int| 0 <= k < attrs.len() && attr_kind(attrs[k].value) == 2 && #[trigger] bit(attrs[k].mask, j);
            if k < nf {
                let g = group_of_attr(k, b);
                assert(attrs[k] == flags_attr(gflags[g], gmask[g]));
            } else if k < nf + nv {
                assert(attrs[nf] == values_attr(vbits, vmask));
            } else {
                let d = k - nf - nv;
                assert(attrs[k] == debounce_attr(dus[d], dmask[d]));
            }
        }
    }
}

} // verus!
