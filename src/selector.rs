//! Selectors: non-empty chains of criteria, and their textual form.

use crate::tree::{element_text, NodeRecord, TreeSnapshot};
use vstd::prelude::*;
use vstd::string::*;

verus! {

/// How deep text is aggregated for a `text:` criterion parsed from a query.
pub const DEFAULT_TEXT_DEPTH: usize = 5;

/// One matching criterion of a selector chain.
pub enum Criterion {
    /// The role equals the given string.
    Role(String),
    /// The name equals the string (`true`) or contains it (`false`).
    Name(String, bool),
    /// The text aggregated down to the given depth contains the string.
    Text(String, usize),
    /// The n-th candidate, counted from 0 in traversal order.
    Index(usize),
    /// Every candidate.
    Any,
}

/// The mathematical form of a criterion.
pub enum CriterionView {
    Role(Seq<char>),
    Name(Seq<char>, bool),
    Text(Seq<char>, usize),
    Index(usize),
    Any,
}

impl View for Criterion {
    type V = CriterionView;

    open spec fn view(&self) -> CriterionView {
        match self {
            Criterion::Role(r) => CriterionView::Role(r@),
            Criterion::Name(n, e) => CriterionView::Name(n@, *e),
            Criterion::Text(s, k) => CriterionView::Text(s@, *k),
            Criterion::Index(i) => CriterionView::Index(*i),
            Criterion::Any => CriterionView::Any,
        }
    }
}

/// A chain of criteria: each one is evaluated among the descendants of the
/// matches of the one before it.
pub struct Selector {
    pub steps: Vec<Criterion>,
}

impl View for Selector {
    type V = Seq<CriterionView>;

    open spec fn view(&self) -> Seq<CriterionView> {
        self.steps@.map_values(|c: Criterion| c@)
    }
}

/// `needle` occurs in `hay` as a contiguous run.
pub open spec fn contains(hay: Seq<char>, needle: Seq<char>) -> bool {
    exists|i: int|
        0 <= i && i + needle.len() <= hay.len() && #[trigger] hay.subrange(i, i + needle.len())
            == needle
}

/// Node `i` satisfies criterion `c` on its own; `Index` holds of every node
/// here and is applied to the candidate list instead.
pub open spec fn node_matches(t: Seq<NodeRecord>, c: CriterionView, i: int) -> bool {
    match c {
        CriterionView::Role(r) => t[i].role@ == r,
        CriterionView::Name(n, exact) => if exact {
            t[i].name@ == n
        } else {
            contains(t[i].name@, n)
        },
        CriterionView::Text(s, k) => contains(element_text(t, i, k as nat), s),
        CriterionView::Index(_) => true,
        CriterionView::Any => true,
    }
}

/// Whether `needle` occurs in `hay`.
pub fn str_contains(hay: &str, needle: &str) -> (r: bool)
    ensures
        r == contains(hay@, needle@),
{
    let h = hay.unicode_len();
    let n = needle.unicode_len();
    if n > h {
        return false;
    }
    if n == 0 {
        assert(hay@.subrange(0int, 0int + needle@.len()) =~= needle@);
        return true;
    }
    let mut i: usize = 0;
    while i <= h - n
        invariant
            h == hay@.len(),
            n == needle@.len(),
            1 <= n <= h,
            i <= h - n + 1,
            forall|j: int| 0 <= j < i ==> #[trigger] hay@.subrange(j, j + n) != needle@,
        decreases h - n + 1 - i,
    {
        let mut k: usize = 0;
        let mut same = true;
        while k < n
            invariant
                h == hay@.len(),
                n == needle@.len(),
                i + n <= h,
                k <= n,
                same ==> forall|q: int| 0 <= q < k ==> hay@[i + q] == needle@[q],
                !same ==> hay@.subrange(i as int, i + n) != needle@,
            decreases n - k,
        {
            if same && hay.get_char(i + k) != needle.get_char(k) {
                assert(hay@.subrange(i as int, i + n)[k as int] != needle@[k as int]);
                same = false;
            }
            k += 1;
        }
        if same {
            assert(hay@.subrange(i as int, i + needle@.len()) =~= needle@);
            return true;
        }
        i += 1;
    }
    proof {
        assert forall|j: int|
            0 <= j && j + needle@.len() <= hay@.len() implies #[trigger] hay@.subrange(
            j,
            j + needle@.len(),
        ) != needle@ by {
            assert(j < i);
        }
    }
    false
}

/// Whether node `i` of `tree` satisfies `c` on its own.
pub fn criterion_matches(tree: &TreeSnapshot, c: &Criterion, i: usize) -> (r: bool)
    requires
        tree.wf(),
        i < tree.nodes@.len(),
    ensures
        r == node_matches(tree.nodes@, c@, i as int),
{
    match c {
        Criterion::Role(role) => tree.nodes[i].role == *role,
        Criterion::Name(name, exact) => {
            if *exact {
                tree.nodes[i].name == *name
            } else {
                str_contains(tree.nodes[i].name.as_str(), name.as_str())
            }
        },
        Criterion::Text(s, k) => {
            let text = tree.text_of(i, *k);
            str_contains(text.as_str(), s.as_str())
        },
        Criterion::Index(_) => true,
        Criterion::Any => true,
    }
}

/// Splitting on `>>`: the segments closed within the first `n` characters,
/// and where the open segment starts.
pub open spec fn scan(s: Seq<char>, n: int) -> (Seq<(int, int)>, int)
    decreases n,
{
    if n <= 0 {
        (seq![], 0)
    } else {
        let prev = scan(s, n - 1);
        if n - 1 > prev.1 && s[n - 1] == '>' && s[n - 2] == '>' {
            (prev.0.push((prev.1, n - 2)), n)
        } else {
            prev
        }
    }
}

/// The `[start, end)` character ranges between `>>` separators.
pub open spec fn segments(s: Seq<char>) -> Seq<(int, int)> {
    let r = scan(s, s.len() as int);
    r.0.push((r.1, s.len() as int))
}

pub open spec fn trim_lo(s: Seq<char>, a: int, b: int) -> int
    decreases b - a,
{
    if a < b && s[a] == ' ' {
        trim_lo(s, a + 1, b)
    } else {
        a
    }
}

pub open spec fn trim_hi(s: Seq<char>, a: int, b: int) -> int
    decreases b - a,
{
    if a < b && s[b - 1] == ' ' {
        trim_hi(s, a, b - 1)
    } else {
        b
    }
}

pub open spec fn has_prefix(s: Seq<char>, a: int, b: int, p: Seq<char>) -> bool {
    b - a >= p.len() && s.subrange(a, a + p.len()) == p
}

pub open spec fn is_digit(c: char) -> bool {
    48 <= (c as u32) && (c as u32) <= 57
}

pub open spec fn all_digits(s: Seq<char>, a: int, b: int) -> bool {
    forall|j: int| a <= j < b ==> is_digit(#[trigger] s[j])
}

/// The decimal value of the digits in `[a, b)`.
pub open spec fn digits_value(s: Seq<char>, a: int, b: int) -> int
    decreases b - a,
{
    if b <= a {
        0
    } else {
        digits_value(s, a, b - 1) * 10 + ((s[b - 1] as u32) as int - 48)
    }
}

pub open spec fn role_prefix() -> Seq<char> {
    seq!['r', 'o', 'l', 'e', ':']
}

pub open spec fn name_prefix() -> Seq<char> {
    seq!['n', 'a', 'm', 'e', ':']
}

pub open spec fn text_prefix() -> Seq<char> {
    seq!['t', 'e', 'x', 't', ':']
}

pub open spec fn index_prefix() -> Seq<char> {
    seq!['i', 'n', 'd', 'e', 'x', ':']
}

/// `index:` followed by a decimal number that fits in `usize`.
pub open spec fn is_index_query(s: Seq<char>, a: int, b: int) -> bool {
    has_prefix(s, a, b, index_prefix()) && b > a + 6 && all_digits(s, a + 6, b) && digits_value(
        s,
        a + 6,
        b,
    ) <= usize::MAX
}

/// The criterion written in the non-empty range `[a, b)`. Unknown forms match
/// names that contain the whole text.
pub open spec fn criterion_of(s: Seq<char>, a: int, b: int) -> CriterionView {
    if b - a == 1 && s[a] == '*' {
        CriterionView::Any
    } else if has_prefix(s, a, b, role_prefix()) {
        CriterionView::Role(s.subrange(a + 5, b))
    } else if has_prefix(s, a, b, name_prefix()) {
        CriterionView::Name(s.subrange(a + 5, b), true)
    } else if has_prefix(s, a, b, text_prefix()) {
        CriterionView::Text(s.subrange(a + 5, b), DEFAULT_TEXT_DEPTH)
    } else if is_index_query(s, a, b) {
        CriterionView::Index(digits_value(s, a + 6, b) as usize)
    } else {
        CriterionView::Name(s.subrange(a, b), false)
    }
}

/// The criteria of the given segments, trimmed of spaces, empty ones left out.
pub open spec fn parse_segments(s: Seq<char>, segs: Seq<(int, int)>) -> Seq<CriterionView>
    decreases segs.len(),
{
    if segs.len() == 0 {
        seq![]
    } else {
        let rest = parse_segments(s, segs.drop_last());
        let lo = trim_lo(s, segs.last().0, segs.last().1);
        let hi = trim_hi(s, lo, segs.last().1);
        if lo < hi {
            rest.push(criterion_of(s, lo, hi))
        } else {
            rest
        }
    }
}

/// The selector a query denotes; a query with no criterion matches anything.
pub open spec fn parse_query(s: Seq<char>) -> Seq<CriterionView> {
    let p = parse_segments(s, segments(s));
    if p.len() == 0 {
        seq![CriterionView::Any]
    } else {
        p
    }
}

proof fn lemma_digits_monotone(s: Seq<char>, a: int, j: int, b: int)
    requires
        a <= j <= b,
        all_digits(s, a, b),
    ensures
        0 <= digits_value(s, a, j) <= digits_value(s, a, b),
    decreases b - a,
{
    if a < b {
        let k = if j < b {
            j
        } else {
            b - 1
        };
        lemma_digits_monotone(s, a, k, b - 1);
        assert(is_digit(s[b - 1]));
        let v = digits_value(s, a, b - 1);
        assert(v * 10 >= v) by (nonlinear_arith)
            requires
                v >= 0,
        ;
    }
}

/// The `[start, end)` ranges of `q` between `>>` separators.
fn split_segments(q: &str) -> (segs: Vec<(usize, usize)>)
    ensures
        segs@.len() == segments(q@).len(),
        forall|j: int|
            0 <= j < segs@.len() ==> segs@[j].0 as int == segments(q@)[j].0 && segs@[j].1 as int
                == segments(q@)[j].1,
{
    let n = q.unicode_len();
    let mut segs: Vec<(usize, usize)> = Vec::new();
    let mut start: usize = 0;
    let mut i: usize = 0;
    while i < n
        invariant
            n == q@.len(),
            i <= n,
            start <= i,
            start as int == scan(q@, i as int).1,
            segs@.len() == scan(q@, i as int).0.len(),
            forall|j: int|
                0 <= j < segs@.len() ==> segs@[j].0 as int == scan(q@, i as int).0[j].0
                    && segs@[j].1 as int == scan(q@, i as int).0[j].1,
        decreases n - i,
    {
        if i > start && q.get_char(i) == '>' && q.get_char(i - 1) == '>' {
            segs.push((start, i - 1));
            start = i + 1;
        }
        i += 1;
    }
    segs.push((start, n));
    segs
}

/// The range `[a, b)` with spaces removed at both ends.
fn trim_range(q: &str, a: usize, b: usize) -> (r: (usize, usize))
    requires
        a <= b <= q@.len(),
    ensures
        r.0 as int == trim_lo(q@, a as int, b as int),
        r.1 as int == trim_hi(q@, r.0 as int, b as int),
        a <= r.0 <= r.1 <= b,
{
    let mut lo = a;
    while lo < b && q.get_char(lo) == ' '
        invariant
            a <= lo <= b <= q@.len(),
            trim_lo(q@, a as int, b as int) == trim_lo(q@, lo as int, b as int),
        decreases b - lo,
    {
        lo += 1;
    }
    let mut hi = b;
    while hi > lo && q.get_char(hi - 1) == ' '
        invariant
            lo <= hi <= b <= q@.len(),
            trim_hi(q@, lo as int, b as int) == trim_hi(q@, lo as int, hi as int),
        decreases hi,
    {
        hi -= 1;
    }
    (lo, hi)
}

/// Whether `[a, b)` of `q` starts with `p`.
fn prefix_at(q: &str, a: usize, b: usize, p: &str) -> (r: bool)
    requires
        a <= b <= q@.len(),
    ensures
        r == has_prefix(q@, a as int, b as int, p@),
{
    let m = p.unicode_len();
    if b - a < m {
        return false;
    }
    let mut k: usize = 0;
    while k < m
        invariant
            m == p@.len(),
            a + m <= b <= q@.len(),
            k <= m,
            forall|j: int| 0 <= j < k ==> q@[a + j] == p@[j],
        decreases m - k,
    {
        if q.get_char(a + k) != p.get_char(k) {
            assert(q@.subrange(a as int, a + p@.len())[k as int] != p@[k as int]);
            return false;
        }
        k += 1;
    }
    assert(q@.subrange(a as int, a + p@.len()) =~= p@);
    true
}

/// The number written in `[a, b)`, when it is all digits and fits in `usize`.
pub(crate) fn digits_at(q: &str, a: usize, b: usize) -> (r: Option<usize>)
    requires
        a <= b <= q@.len(),
    ensures
        r is Some <==> (all_digits(q@, a as int, b as int) && digits_value(q@, a as int, b as int)
            <= usize::MAX),
        r is Some ==> r.unwrap() as int == digits_value(q@, a as int, b as int),
{
    let mut val: usize = 0;
    let mut j = a;
    while j < b
        invariant
            a <= j <= b <= q@.len(),
            all_digits(q@, a as int, j as int),
            val as int == digits_value(q@, a as int, j as int),
        decreases b - j,
    {
        let c = q.get_char(j) as u32;
        if c < 48 || c > 57 {
            assert(!is_digit(q@[j as int]));
            return None;
        }
        let d = (c - 48) as usize;
        match val.checked_mul(10) {
            None => {
                proof {
                    if all_digits(q@, a as int, b as int) {
                        lemma_digits_monotone(q@, a as int, (j + 1) as int, b as int);
                    }
                }
                return None;
            },
            Some(v10) => match v10.checked_add(d) {
                None => {
                    proof {
                        if all_digits(q@, a as int, b as int) {
                            lemma_digits_monotone(q@, a as int, (j + 1) as int, b as int);
                        }
                    }
                    return None;
                },
                Some(v) => {
                    val = v;
                },
            },
        }
        j += 1;
    }
    Some(val)
}

/// The criterion written in the non-empty range `[a, b)` of `q`.
fn criterion_from(q: &str, a: usize, b: usize) -> (r: Criterion)
    requires
        a < b <= q@.len(),
    ensures
        r@ == criterion_of(q@, a as int, b as int),
{
    proof {
        reveal_strlit("role:");
        reveal_strlit("name:");
        reveal_strlit("text:");
        reveal_strlit("index:");
    }
    assert("role:"@ == role_prefix());
    assert("name:"@ == name_prefix());
    assert("text:"@ == text_prefix());
    assert("index:"@ == index_prefix());
    if b - a == 1 && q.get_char(a) == '*' {
        Criterion::Any
    } else if prefix_at(q, a, b, "role:") {
        Criterion::Role(String::from_str(q.substring_char(a + 5, b)))
    } else if prefix_at(q, a, b, "name:") {
        Criterion::Name(String::from_str(q.substring_char(a + 5, b)), true)
    } else if prefix_at(q, a, b, "text:") {
        Criterion::Text(String::from_str(q.substring_char(a + 5, b)), DEFAULT_TEXT_DEPTH)
    } else {
        let digits = if prefix_at(q, a, b, "index:") && b > a + 6 {
            digits_at(q, a + 6, b)
        } else {
            None
        };
        match digits {
            Some(v) => Criterion::Index(v),
            None => Criterion::Name(String::from_str(q.substring_char(a, b)), false),
        }
    }
}

impl Selector {
    pub open spec fn wf(&self) -> bool {
        self.steps@.len() > 0
    }

    /// Parses a query such as `"role:button >> text:OK"`. Parsing never fails:
    /// unknown forms become name matches and an empty query becomes `*`.
    pub fn parse(q: &str) -> (r: Selector)
        ensures
            r@ == parse_query(q@),
            r.wf(),
    {
        let segs = split_segments(q);
        let ghost all = segments(q@);
        let mut steps: Vec<Criterion> = Vec::new();
        let mut j: usize = 0;
        while j < segs.len()
            invariant
                segs@.len() == all.len(),
                all == segments(q@),
                forall|m: int|
                    0 <= m < segs@.len() ==> segs@[m].0 as int == all[m].0 && segs@[m].1 as int
                        == all[m].1,
                j <= segs@.len(),
                steps@.map_values(|c: Criterion| c@) == parse_segments(q@, all.take(j as int)),
            decreases segs@.len() - j,
        {
            proof {
                assert(all.take(j + 1).drop_last() =~= all.take(j as int));
                lemma_segment_in_range(q@, j as int);
            }
            let (a, b) = segs[j];
            let (lo, hi) = trim_range(q, a, b);
            if lo < hi {
                let c = criterion_from(q, lo, hi);
                steps.push(c);
                assert(steps@.map_values(|c: Criterion| c@) =~= parse_segments(
                    q@,
                    all.take(j + 1),
                ));
            } else {
                assert(steps@.map_values(|c: Criterion| c@) =~= parse_segments(
                    q@,
                    all.take(j + 1),
                ));
            }
            j += 1;
        }
        assert(all.take(segs@.len() as int) =~= all);
        if steps.len() == 0 {
            steps.push(Criterion::Any);
            assert(steps@.map_values(|c: Criterion| c@) =~= seq![CriterionView::Any]);
        }
        Selector { steps }
    }
}

proof fn lemma_scan_in_range(s: Seq<char>, n: int)
    requires
        0 <= n <= s.len(),
    ensures
        0 <= scan(s, n).1 <= n,
        forall|j: int|
            0 <= j < scan(s, n).0.len() ==> 0 <= (#[trigger] scan(s, n).0[j]).0 <= scan(s, n).0[j].1
                <= n,
    decreases n,
{
    if n > 0 {
        lemma_scan_in_range(s, n - 1);
    }
}

proof fn lemma_segment_in_range(s: Seq<char>, j: int)
    requires
        0 <= j < segments(s).len(),
    ensures
        0 <= segments(s)[j].0 <= segments(s)[j].1 <= s.len(),
{
    lemma_scan_in_range(s, s.len() as int);
}

} // verus!
