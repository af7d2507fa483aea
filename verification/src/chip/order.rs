//! The natural order of chip paths.
use vstd::prelude::*;
use vstd::utf8::encode_utf8;

verus! {

/// The outcome of comparing two paths.
#[derive(Clone, Copy, Debug, PartialEq, Eq, Structural)]
pub enum PathOrder {
    /// The first path sorts before the second.
    Less,
    /// The paths are the same.
    Equal,
    /// The first path sorts after the second.
    Greater,
}

/// The order of two bytes.
pub open spec fn byte_order(a: u8, b: u8) -> PathOrder {
    if a < b {
        PathOrder::Less
    } else if a == b {
        PathOrder::Equal
    } else {
        PathOrder::Greater
    }
}

/// The order of two lengths.
pub open spec fn len_order(a: nat, b: nat) -> PathOrder {
    if a < b {
        PathOrder::Less
    } else if a == b {
        PathOrder::Equal
    } else {
        PathOrder::Greater
    }
}

/// The byte is an ASCII decimal digit.
pub open spec fn is_digit_byte(c: u8) -> bool {
    48 <= c <= 57
}

/// The lexicographic order of two byte strings from position `i`.
pub open spec fn lex_order_from(a: Seq<u8>, b: Seq<u8>, i: int) -> PathOrder
    decreases a.len() - i,
{
    if i < 0 || i >= a.len() || i >= b.len() {
        len_order(a.len(), b.len())
    } else if a[i] != b[i] {
        byte_order(a[i], b[i])
    } else {
        lex_order_from(a, b, i + 1)
    }
}

/// The natural order of two byte strings of different lengths from
/// position `i`: the first differing byte decides, unless both are digits,
/// in which case, as beyond the shorter string, the shorter is smaller.
pub open spec fn natural_order_from(a: Seq<u8>, b: Seq<u8>, i: int) -> PathOrder
    decreases a.len() - i,
{
    if i < 0 || i >= a.len() || i >= b.len() {
        len_order(a.len(), b.len())
    } else if a[i] != b[i] {
        if !is_digit_byte(a[i]) || !is_digit_byte(b[i]) {
            byte_order(a[i], b[i])
        } else {
            len_order(a.len(), b.len())
        }
    } else {
        natural_order_from(a, b, i + 1)
    }
}

/// The order of two paths, as bytes: paths of equal length compare
/// lexicographically, others naturally, so that chip numbers at the end of
/// the paths sort numerically.
pub open spec fn path_order(a: Seq<u8>, b: Seq<u8>) -> PathOrder {
    if a.len() == b.len() {
        lex_order_from(a, b, 0)
    } else {
        natural_order_from(a, b, 0)
    }
}

/// The reverse of an order.
pub open spec fn reversed(o: PathOrder) -> PathOrder {
    match o {
        PathOrder::Less => PathOrder::Greater,
        PathOrder::Equal => PathOrder::Equal,
        PathOrder::Greater => PathOrder::Less,
    }
}

/// Compare two paths, as bytes, in their natural order.
pub fn natural_order(a: &[u8], b: &[u8]) -> (r: PathOrder)
    ensures
        r == path_order(a@, b@),
{
    let la = a.len();
    let lb = b.len();
    let mut i: usize = 0;
    while i < la && i < lb
        invariant
            la == a@.len(),
            lb == b@.len(),
            i <= la,
            i <= lb,
            path_order(a@, b@) == (if la == lb {
                lex_order_from(a@, b@, i as int)
            } else {
                natural_order_from(a@, b@, i as int)
            }),
        ensures
            path_order(a@, b@) == len_order(la as nat, lb as nat),
        decreases la - i,
    {
        let ai = a[i];
        let bi = b[i];
        if ai != bi {
            if la == lb || !(48 <= ai && ai <= 57) || !(48 <= bi && bi <= 57) {
                // the differing byte decides
                if ai < bi {
                    return PathOrder::Less;
                }
                return PathOrder::Greater;
            }
            // both are digits, so the shorter number is smaller
            break;
        }
        i += 1;
    }
    if la < lb {
        PathOrder::Less
    } else if la == lb {
        PathOrder::Equal
    } else {
        PathOrder::Greater
    }
}

/// Lexicographic order from a position is antisymmetric and equal only for
/// equal tails.
proof fn lemma_lex_order_from(a: Seq<u8>, b: Seq<u8>, i: int)
    requires
        0 <= i <= a.len(),
        a.len() == b.len(),
    ensures
        lex_order_from(b, a, i) == reversed(lex_order_from(a, b, i)),
        (lex_order_from(a, b, i) == PathOrder::Equal) == (a.subrange(i, a.len() as int)
            == b.subrange(i, b.len() as int)),
    decreases a.len() - i,
{
    let sa = a.subrange(i, a.len() as int);
    let sb = b.subrange(i, b.len() as int);
    if i < a.len() {
        lemma_lex_order_from(a, b, i + 1);
        let ta = a.subrange(i + 1, a.len() as int);
        let tb = b.subrange(i + 1, b.len() as int);
        assert(ta =~= sa.subrange(1, sa.len() as int));
        assert(tb =~= sb.subrange(1, sb.len() as int));
        if a[i] == b[i] {
            if ta == tb {
                assert forall|k: int| 0 <= k < sa.len() implies sa[k] == sb[k] by {
                    if k > 0 {
                        assert(sa[k] == ta[k - 1]);
                        assert(sb[k] == tb[k - 1]);
                    }
                }
                assert(sa =~= sb);
            }
        } else {
            assert(sa[0] != sb[0]);
        }
    } else {
        assert(sa =~= sb);
    }
}

/// Natural order from a position, between strings of different lengths, is
/// antisymmetric and never equal.
proof fn lemma_natural_order_from(a: Seq<u8>, b: Seq<u8>, i: int)
    requires
        0 <= i,
        a.len() != b.len(),
    ensures
        natural_order_from(b, a, i) == reversed(natural_order_from(a, b, i)),
        natural_order_from(a, b, i) != PathOrder::Equal,
    decreases a.len() - i,
{
    if i < a.len() && i < b.len() && a[i] == b[i] {
        lemma_natural_order_from(a, b, i + 1);
    }
}

/// The path order is antisymmetric: swapping the paths reverses the order.
/// Paths are equal in the order exactly when they are the same bytes.
pub proof fn lemma_path_order_antisymmetric(a: Seq<u8>, b: Seq<u8>)
    ensures
        path_order(b, a) == reversed(path_order(a, b)),
        (path_order(a, b) == PathOrder::Equal) == (a == b),
{
    if a.len() == b.len() {
        lemma_lex_order_from(a, b, 0);
        assert(a.subrange(0, a.len() as int) =~= a);
        assert(b.subrange(0, b.len() as int) =~= b);
    } else {
        lemma_natural_order_from(a, b, 0);
    }
}

/// The decimal digit character for `d`, where `d < 10`.
pub open spec fn digit_char(d: nat) -> char {
    ((48 + d) as u32) as char
}

/// The decimal numeral of a number, without leading zeros.
pub open spec fn decimal(n: nat) -> Seq<char>
    decreases n,
{
    if n < 10 {
        seq![digit_char(n)]
    } else {
        decimal(n / 10).push(digit_char(n % 10))
    }
}

/// The order of two numbers.
pub open spec fn number_order(n: nat, m: nat) -> PathOrder {
    if n < m {
        PathOrder::Less
    } else if n == m {
        PathOrder::Equal
    } else {
        PathOrder::Greater
    }
}

/// Encoding a concatenation concatenates the encodings.
proof fn lemma_encode_concat(a: Seq<char>, b: Seq<char>)
    ensures
        encode_utf8(a + b) == encode_utf8(a) + encode_utf8(b),
    decreases a.len(),
{
    if a.len() == 0 {
        assert(a + b =~= b);
        assert(encode_utf8(a) + encode_utf8(b) =~= encode_utf8(b));
    } else {
        assert((a + b).drop_first() =~= a.drop_first() + b);
        lemma_encode_concat(a.drop_first(), b);
        assert(encode_utf8(a + b) =~= encode_utf8(a) + encode_utf8(b));
    }
}

/// The encoded numeral of a number is made of digits, one byte per digit,
/// and is the numeral of its tens followed by the last digit.
proof fn lemma_encoded_decimal(n: nat)
    ensures
        encode_utf8(decimal(n)).len() == decimal(n).len(),
        decimal(n).len() >= 1,
        n >= 10 ==> decimal(n).len() >= 2,
        forall|i: int|
            0 <= i < encode_utf8(decimal(n)).len() ==> is_digit_byte(
                #[trigger] encode_utf8(decimal(n))[i],
            ),
        n < 10 ==> encode_utf8(decimal(n)) == seq![(48 + n) as u8],
        n >= 10 ==> encode_utf8(decimal(n)) == encode_utf8(decimal(n / 10)).push(
            (48 + n % 10) as u8,
        ),
    decreases n,
{
    let d = n % 10;
    let k: u32 = (48 + (if n < 10 { n } else { d })) as u32;
    let c = digit_char(if n < 10 { n } else { d });
    let one = seq![c];
    assert(encode_utf8(one) =~= seq![k as u8]) by {
        assert(c as u32 == k);
        assert(k & 0x7F == k) by (bit_vector)
            requires
                48 <= k < 58,
        ;
        assert(one.drop_first() =~= Seq::<char>::empty());
        assert(encode_utf8(one.drop_first()) =~= Seq::<u8>::empty());
    }
    if n >= 10 {
        lemma_encoded_decimal(n / 10);
        assert(decimal(n) =~= decimal(n / 10) + one);
        lemma_encode_concat(decimal(n / 10), one);
        assert(encode_utf8(decimal(n)) =~= encode_utf8(decimal(n / 10)).push((48 + d) as u8));
        let e = encode_utf8(decimal(n));
        let e10 = encode_utf8(decimal(n / 10));
        assert forall|i: int| 0 <= i < e.len() implies is_digit_byte(#[trigger] e[i]) by {
            if i < e10.len() {
                assert(e[i] == e10[i]);
            }
        }
    }
}

/// A larger number has at least as many digits.
proof fn lemma_decimal_len_monotone(n: nat, m: nat)
    requires
        n <= m,
    ensures
        decimal(n).len() <= decimal(m).len(),
    decreases m,
{
    lemma_encoded_decimal(n);
    lemma_encoded_decimal(m);
    if n >= 10 {
        assert(n / 10 <= m / 10) by (nonlinear_arith)
            requires
                n <= m,
        ;
        lemma_decimal_len_monotone(n / 10, m / 10);
    }
}

/// Appending one byte to each of two strings of equal length: the old order
/// stands unless it was equal, and then the new bytes decide.
proof fn lemma_lex_order_push(a: Seq<u8>, b: Seq<u8>, x: u8, y: u8, i: int)
    requires
        a.len() == b.len(),
        0 <= i <= a.len(),
    ensures
        lex_order_from(a.push(x), b.push(y), i) == (if lex_order_from(a, b, i)
            != PathOrder::Equal {
            lex_order_from(a, b, i)
        } else {
            byte_order(x, y)
        }),
    decreases a.len() - i,
{
    if i < a.len() {
        assert(a.push(x)[i] == a[i]);
        assert(b.push(y)[i] == b[i]);
        lemma_lex_order_push(a, b, x, y, i + 1);
    } else {
        assert(a.push(x)[i] == x);
        assert(b.push(y)[i] == y);
        assert(lex_order_from(a.push(x), b.push(y), i + 1) == PathOrder::Equal);
    }
}

/// Numerals of equal length compare lexicographically as their numbers.
proof fn lemma_equal_length_numerals(n: nat, m: nat)
    requires
        decimal(n).len() == decimal(m).len(),
    ensures
        lex_order_from(encode_utf8(decimal(n)), encode_utf8(decimal(m)), 0) == number_order(
            n,
            m,
        ),
    decreases n,
{
    lemma_encoded_decimal(n);
    lemma_encoded_decimal(m);
    let en = encode_utf8(decimal(n));
    let em = encode_utf8(decimal(m));
    if n < 10 {
        assert(m < 10);
        assert(en[0] == (48 + n) as u8);
        assert(em[0] == (48 + m) as u8);
        assert(lex_order_from(en, em, 1) == PathOrder::Equal);
    } else {
        assert(m >= 10);
        let (qn, qm, rn, rm) = (n / 10, m / 10, n % 10, m % 10);
        lemma_equal_length_numerals(qn, qm);
        lemma_encoded_decimal(qn);
        lemma_encoded_decimal(qm);
        lemma_lex_order_push(
            encode_utf8(decimal(qn)),
            encode_utf8(decimal(qm)),
            (48 + rn) as u8,
            (48 + rm) as u8,
            0,
        );
        assert(n == 10 * qn + rn && m == 10 * qm + rm && rn < 10 && rm < 10);
        assert(qn < qm ==> n < m) by (nonlinear_arith)
            requires
                n == 10 * qn + rn,
                m == 10 * qm + rm,
                rn < 10,
                rm < 10,
        ;
        assert(qn > qm ==> n > m) by (nonlinear_arith)
            requires
                n == 10 * qn + rn,
                m == 10 * qm + rm,
                rn < 10,
                rm < 10,
        ;
    }
}

/// A common prefix does not change the lexicographic order of two strings
/// of equal length.
proof fn lemma_lex_order_prefix(p: Seq<u8>, a: Seq<u8>, b: Seq<u8>, i: int)
    requires
        a.len() == b.len(),
        0 <= i <= p.len() + a.len(),
    ensures
        lex_order_from(p + a, p + b, i) == (if i <= p.len() {
            lex_order_from(a, b, 0)
        } else {
            lex_order_from(a, b, i - p.len())
        }),
    decreases p.len() + a.len() - i,
{
    if i < p.len() + a.len() {
        lemma_lex_order_prefix(p, a, b, i + 1);
        if i < p.len() {
            assert((p + a)[i] == p[i] && (p + b)[i] == p[i]);
        } else {
            assert((p + a)[i] == a[i - p.len()] && (p + b)[i] == b[i - p.len()]);
        }
    }
}

/// Natural order, where from position `i` on the two strings agree or
/// hold digits, is the order of their lengths.
proof fn lemma_natural_order_digits(a: Seq<u8>, b: Seq<u8>, i: int)
    requires
        0 <= i,
        forall|j: int|
            i <= j < a.len() && j < b.len() ==> a[j] == b[j] || (is_digit_byte(a[j])
                && is_digit_byte(b[j])),
    ensures
        natural_order_from(a, b, i) == len_order(a.len(), b.len()),
    decreases a.len() - i,
{
    if i < a.len() && i < b.len() && a[i] == b[i] {
        lemma_natural_order_digits(a, b, i + 1);
    }
}

/// Paths that differ only in a number at their end, as the paths of two
/// gpiochips do, are in the order of those numbers.
pub proof fn lemma_trailing_numbers_order(p: Seq<char>, n: nat, m: nat)
    ensures
        path_order(encode_utf8(p + decimal(n)), encode_utf8(p + decimal(m))) == number_order(
            n,
            m,
        ),
{
    lemma_encode_concat(p, decimal(n));
    lemma_encode_concat(p, decimal(m));
    lemma_encoded_decimal(n);
    lemma_encoded_decimal(m);
    let pb = encode_utf8(p);
    let en = encode_utf8(decimal(n));
    let em = encode_utf8(decimal(m));
    let a = pb + en;
    let b = pb + em;
    if en.len() == em.len() {
        lemma_lex_order_prefix(pb, en, em, 0);
        lemma_equal_length_numerals(n, m);
    } else {
        assert forall|j: int|
            0 <= j < a.len() && j < b.len() implies a[j] == b[j] || (is_digit_byte(a[j])
                && is_digit_byte(b[j])) by {
            if j >= pb.len() {
                assert(a[j] == en[j - pb.len()]);
                assert(b[j] == em[j - pb.len()]);
            }
        }
        lemma_natural_order_digits(a, b, 0);
        if n <= m {
            lemma_decimal_len_monotone(n, m);
        } else {
            lemma_decimal_len_monotone(m, n);
        }
    }
}

/// The bytes of a path.
#[verifier::opaque]
pub open spec fn path_bytes(p: String) -> Seq<u8> {
    encode_utf8(p@)
}

/// The paths are ordered: each path precedes the next.
pub open spec fn paths_ordered(s: Seq<String>) -> bool {
    forall|i: int| 0 <= i < s.len() - 1 ==> #[trigger] ordered_at(s, i)
}

/// The path at `i` precedes the next path.
pub open spec fn ordered_at(s: Seq<String>, i: int) -> bool {
    path_order(path_bytes(s[i]), path_bytes(s[i + 1])) == PathOrder::Less
}

/// Some path in the list has the characters `p`.
pub open spec fn holds_path(s: Seq<String>, p: Seq<char>) -> bool {
    exists|i: int| 0 <= i < s.len() && s[i]@ == p
}

/// No two paths in the list have the same characters.
pub open spec fn distinct_paths(s: Seq<String>) -> bool {
    forall|i: int, j: int| 0 <= i < j < s.len() ==> (#[trigger] s[i])@ != (#[trigger] s[j])@
}

/// Inserting a path between its neighbours in the order keeps the list
/// ordered and distinct, and adds just that path.
proof fn lemma_insert_ordered(before: Seq<String>, pos: int, path: String)
    requires
        paths_ordered(before),
        distinct_paths(before),
        0 <= pos <= before.len(),
        pos > 0 ==> path_order(path_bytes(before[pos - 1]), path_bytes(path)) == PathOrder::Less,
        pos < before.len() ==> path_order(path_bytes(path), path_bytes(before[pos]))
            == PathOrder::Less,
        !holds_path(before, path@),
    ensures
        paths_ordered(before.insert(pos, path)),
        distinct_paths(before.insert(pos, path)),
        forall|p: Seq<char>|
            #[trigger] holds_path(before.insert(pos, path), p) <==> (holds_path(before, p) || p
                == path@),
{
    let s = before.insert(pos, path);
    let i = pos;
    assert forall|k: int| 0 <= k < s.len() - 1 implies #[trigger] ordered_at(s, k) by {
        if k + 1 < i {
            assert(s[k] == before[k] && s[k + 1] == before[k + 1]);
            assert(ordered_at(before, k));
        } else if k + 1 == i {
            assert(s[k] == before[k] && s[k + 1] == path);
        } else if k == i {
            assert(s[k] == path && s[k + 1] == before[k]);
        } else {
            assert(s[k] == before[k - 1] && s[k + 1] == before[k]);
            assert(ordered_at(before, k - 1));
        }
    }
    assert forall|a: int, b: int| 0 <= a < b < s.len() implies (#[trigger] s[a])@ != (
    #[trigger] s[b])@ by {
        if a < i && b < i {
            assert(s[a] == before[a] && s[b] == before[b]);
        } else if a < i && b == i {
            assert(s[a] == before[a]);
        } else if a < i && b > i {
            assert(s[a] == before[a] && s[b] == before[b - 1]);
        } else if a == i {
            assert(s[b] == before[b - 1]);
        } else {
            assert(s[a] == before[a - 1] && s[b] == before[b - 1]);
        }
    }
    assert forall|p: Seq<char>|
        #[trigger] holds_path(s, p) <==> (holds_path(before, p) || p == path@) by {
        if holds_path(s, p) {
            let j = choose|j: int| 0 <= j < s.len() && s[j]@ == p;
            if j < i {
                assert(before[j]@ == p);
            } else if j > i {
                assert(before[j - 1]@ == p);
            }
        }
        if holds_path(before, p) {
            let j = choose|j: int| 0 <= j < before.len() && before[j]@ == p;
            if j < i {
                assert(s[j]@ == p);
            } else {
                assert(s[j + 1]@ == p);
            }
        }
        if p == path@ {
            assert(s[i]@ == p);
        }
    }
}

/// Paths that compare equal have the same characters.
proof fn lemma_equal_paths(a: String, b: String)
    requires
        path_order(path_bytes(a), path_bytes(b)) == PathOrder::Equal,
    ensures
        a@ == b@,
{
    reveal(path_bytes);
    lemma_path_order_antisymmetric(path_bytes(a), path_bytes(b));
    vstd::utf8::encode_utf8_decode_utf8(a@);
    vstd::utf8::encode_utf8_decode_utf8(b@);
}

/// Insert a path into an ordered list of distinct paths, unless it is
/// already there.
fn insert_path(list: &mut Vec<String>, path: String)
    requires
        paths_ordered(old(list)@),
        distinct_paths(old(list)@),
    ensures
        paths_ordered(final(list)@),
        distinct_paths(final(list)@),
        forall|p: Seq<char>|
            #[trigger] holds_path(final(list)@, p) <==> (holds_path(old(list)@, p) || p == path@),
{
    let ghost old_list = list@;
    let n = list.len();
    let mut pos: usize = n;
    let mut i: usize = 0;
    while i < n
        invariant
            n == list@.len(),
            list@ == old_list,
            paths_ordered(old_list),
            distinct_paths(old_list),
            i <= n,
            pos == n || pos < i,
            forall|k: int|
                0 <= k < i ==> (#[trigger] list@[k])@ != path@,
            forall|k: int|
                0 <= k < i && k < pos ==> path_order(path_bytes(path), path_bytes(
                    #[trigger] list@[k],
                )) == PathOrder::Greater,
            pos < n ==> path_order(path_bytes(path), path_bytes(list@[pos as int]))
                == PathOrder::Less,
        decreases n - i,
    {
        let o = natural_order(path.as_str().as_bytes(), list[i].as_str().as_bytes());
        proof {
            reveal(path_bytes);
        }
        match o {
            PathOrder::Greater => {},
            PathOrder::Equal => {
                proof {
                    lemma_equal_paths(path, list@[i as int]);
                    assert(holds_path(old_list, path@));
                    assert forall|p: Seq<char>|
                        #[trigger] holds_path(old_list, p) <==> (holds_path(old_list, p) || p
                            == path@) by {}
                }
                return ;
            },
            PathOrder::Less => {
                if pos == n {
                    pos = i;
                }
            },
        }
        proof {
            if o != PathOrder::Equal && list@[i as int]@ == path@ {
                lemma_path_order_antisymmetric(path_bytes(path), path_bytes(list@[i as int]));
            }
        }
        i += 1;
    }
    proof {
        if pos > 0 {
            lemma_path_order_antisymmetric(path_bytes(path), path_bytes(list@[pos - 1]));
        }
        lemma_insert_ordered(old_list, pos as int, path);
    }
    list.insert(pos, path);
}

/// Order a list of chip paths naturally and drop duplicates.
pub fn order_chip_paths(paths: Vec<String>) -> (r: Vec<String>)
    ensures
        paths_ordered(r@),
        distinct_paths(r@),
        forall|p: Seq<char>| #[trigger] holds_path(r@, p) <==> holds_path(paths@, p),
{
    let mut r: Vec<String> = Vec::new();
    let n = paths.len();
    let mut i: usize = 0;
    while i < n
        invariant
            n == paths@.len(),
            i <= n,
            paths_ordered(r@),
            distinct_paths(r@),
            forall|p: Seq<char>|
                #[trigger] holds_path(r@, p) <==> holds_path(paths@.subrange(0, i as int), p),
        decreases n - i,
    {
        let p = paths[i].clone();
        insert_path(&mut r, p);
        proof {
            lemma_holds_path_push(paths@, i as int);
        }
        i += 1;
    }
    proof {
        assert(paths@.subrange(0, n as int) =~= paths@);
    }
    r
}

/// Extending a prefix of a list by one path adds just that path.
proof fn lemma_holds_path_push(paths: Seq<String>, i: int)
    requires
        0 <= i < paths.len(),
    ensures
        forall|q: Seq<char>|
            #[trigger] holds_path(paths.subrange(0, i + 1), q) <==> (holds_path(
                paths.subrange(0, i),
                q,
            ) || q == paths[i]@),
{
    let prev = paths.subrange(0, i);
    let cur = paths.subrange(0, i + 1);
    assert forall|q: Seq<char>|
        #[trigger] holds_path(cur, q) <==> (holds_path(prev, q) || q == paths[i]@) by {
        if holds_path(cur, q) {
            let a = choose|a: int| 0 <= a < cur.len() && cur[a]@ == q;
            if a < i {
                assert(prev[a]@ == q);
            }
        }
        if holds_path(prev, q) {
            let a = choose|a: int| 0 <= a < prev.len() && prev[a]@ == q;
            assert(cur[a]@ == q);
        }
        if q == paths[i]@ {
            assert(cur[i]@ == q);
        }
    }
}

} // verus!
