//! Locators: lazy, chainable queries evaluated against a tree snapshot.

use crate::element::UIElement;
use crate::errors::AutomationError;
use crate::retry::{step_spec, RetryPolicy, RetryStep};
use crate::selector::{criterion_matches, node_matches, Criterion, CriterionView, Selector};
use crate::tree::{is_ancestor, reachable, tree_wf, NodeRecord, TreeSnapshot};
use vstd::prelude::*;

verus! {

/// Node `i` is a candidate: reachable, and below one of the anchors when
/// there are anchors.
pub open spec fn in_pool(t: Seq<NodeRecord>, anchors: Option<Seq<usize>>, i: int) -> bool {
    reachable(t, i) && match anchors {
        None => true,
        Some(a) => below_any(t, a, i),
    }
}

/// Node `i` lies below one of the anchors.
pub open spec fn below_any(t: Seq<NodeRecord>, a: Seq<usize>, i: int) -> bool {
    exists|j: int| 0 <= j < a.len() && #[trigger] is_ancestor(t, a[j] as int, i)
}

/// The candidates among the first `n` nodes, in traversal order.
pub open spec fn pool(t: Seq<NodeRecord>, anchors: Option<Seq<usize>>, n: int) -> Seq<usize>
    decreases n,
{
    if n <= 0 {
        seq![]
    } else {
        let p = pool(t, anchors, n - 1);
        if in_pool(t, anchors, n - 1) {
            p.push((n - 1) as usize)
        } else {
            p
        }
    }
}

/// The first `n` candidates that satisfy `c` on their own.
pub open spec fn keep_matching(
    t: Seq<NodeRecord>,
    c: CriterionView,
    cand: Seq<usize>,
    n: int,
) -> Seq<usize>
    decreases n,
{
    if n <= 0 {
        seq![]
    } else {
        let f = keep_matching(t, c, cand, n - 1);
        if node_matches(t, c, cand[n - 1] as int) {
            f.push(cand[n - 1])
        } else {
            f
        }
    }
}

/// One criterion applied to the candidates.
pub open spec fn apply_step(t: Seq<NodeRecord>, c: CriterionView, cand: Seq<usize>) -> Seq<
    usize,
> {
    match c {
        CriterionView::Index(k) => if (k as int) < cand.len() {
            seq![cand[k as int]]
        } else {
            seq![]
        },
        _ => keep_matching(t, c, cand, cand.len() as int),
    }
}

/// What the anchors of the first step are for a scope.
pub open spec fn scope_anchors(scope: Option<usize>) -> Option<Seq<usize>> {
    match scope {
        None => None,
        Some(r) => Some(seq![r]),
    }
}

/// The matches of a chain: the first step chooses among the reachable nodes
/// (below the scope root, if any); each later step chooses among the
/// reachable descendants of the matches of the steps before it.
pub open spec fn eval(t: Seq<NodeRecord>, steps: Seq<CriterionView>, scope: Option<usize>) -> Seq<
    usize,
>
    decreases steps.len(),
{
    if steps.len() == 0 {
        seq![]
    } else {
        let anchors = if steps.len() == 1 {
            scope_anchors(scope)
        } else {
            Some(eval(t, steps.drop_last(), scope))
        };
        apply_step(t, steps.last(), pool(t, anchors, t.len() as int))
    }
}

/// Whether node `i` lies below one of `anchors`.
fn below_some(tree: &TreeSnapshot, anchors: &Vec<usize>, i: usize) -> (r: bool)
    requires
        tree.wf(),
        i < tree.nodes@.len(),
    ensures
        r == below_any(tree.nodes@, anchors@, i as int),
{
    let mut j: usize = 0;
    while j < anchors.len()
        invariant
            tree.wf(),
            i < tree.nodes@.len(),
            j <= anchors@.len(),
            forall|m: int| 0 <= m < j ==> !is_ancestor(tree.nodes@, anchors@[m] as int, i as int),
        decreases anchors@.len() - j,
    {
        if tree.ancestor_check(anchors[j], i) {
            return true;
        }
        j += 1;
    }
    false
}

pub open spec fn anchors_view(a: &Option<Vec<usize>>) -> Option<Seq<usize>> {
    match a {
        None => None,
        Some(v) => Some(v@),
    }
}

/// The candidates for the given anchors, in traversal order.
fn pool_of(tree: &TreeSnapshot, anchors: &Option<Vec<usize>>) -> (r: Vec<usize>)
    requires
        tree.wf(),
    ensures
        r@ == pool(tree.nodes@, anchors_view(anchors), tree.nodes@.len() as int),
{
    let reach = tree.reachability();
    let n = tree.nodes.len();
    let mut r: Vec<usize> = Vec::new();
    let mut i: usize = 0;
    while i < n
        invariant
            tree.wf(),
            n == tree.nodes@.len(),
            i <= n,
            reach@.len() == n,
            forall|m: int| 0 <= m < n ==> reach@[m] == reachable(tree.nodes@, m),
            r@ == pool(tree.nodes@, anchors_view(anchors), i as int),
        decreases n - i,
    {
        let keep = if !reach[i] {
            false
        } else {
            match anchors {
                None => true,
                Some(a) => {
                    let b = below_some(tree, a, i);
                    assert(anchors_view(anchors) == Some(a@));
                    b
                },
            }
        };
        assert(keep == in_pool(tree.nodes@, anchors_view(anchors), i as int));
        if keep {
            r.push(i);
        }
        i += 1;
    }
    r
}

proof fn lemma_pool_bounded(t: Seq<NodeRecord>, anchors: Option<Seq<usize>>, n: int)
    requires
        0 <= n <= t.len(),
    ensures
        forall|j: int| 0 <= j < pool(t, anchors, n).len() ==> (#[trigger] pool(t, anchors, n)[j]) < n,
    decreases n,
{
    if n > 0 {
        lemma_pool_bounded(t, anchors, n - 1);
        let p = pool(t, anchors, n - 1);
        assert forall|j: int| 0 <= j < pool(t, anchors, n).len() implies (#[trigger] pool(
            t,
            anchors,
            n,
        )[j]) < n by {
            if j < p.len() {
                assert(p[j] < n - 1);
            }
        }
    }
}

/// One criterion applied to in-range candidates.
fn apply_criterion(tree: &TreeSnapshot, c: &Criterion, cand: &Vec<usize>) -> (r: Vec<usize>)
    requires
        tree.wf(),
        forall|j: int| 0 <= j < cand@.len() ==> (#[trigger] cand@[j]) < tree.nodes@.len(),
    ensures
        r@ == apply_step(tree.nodes@, c@, cand@),
{
    match c {
        Criterion::Index(k) => {
            let mut r: Vec<usize> = Vec::new();
            if *k < cand.len() {
                r.push(cand[*k]);
            }
            assert(r@ =~= apply_step(tree.nodes@, c@, cand@));
            r
        },
        _ => {
            let mut r: Vec<usize> = Vec::new();
            let mut j: usize = 0;
            while j < cand.len()
                invariant
                    tree.wf(),
                    forall|m: int| 0 <= m < cand@.len() ==> (#[trigger] cand@[m]) < tree.nodes@.len(),
                    j <= cand@.len(),
                    r@ == keep_matching(tree.nodes@, c@, cand@, j as int),
                decreases cand@.len() - j,
            {
                if criterion_matches(tree, c, cand[j]) {
                    r.push(cand[j]);
                }
                j += 1;
            }
            r
        },
    }
}

/// A query bound to one tree snapshot, a selector chain and an optional
/// scope root. Chaining builds a new locator; a locator is never changed.
pub struct Locator<'a> {
    pub tree: &'a TreeSnapshot,
    pub selector: Selector,
    pub scope: Option<usize>,
}

/// A copy of a criterion.
pub fn copy_criterion(c: &Criterion) -> (r: Criterion)
    ensures
        r@ == c@,
{
    match c {
        Criterion::Role(s) => Criterion::Role(s.clone()),
        Criterion::Name(s, e) => Criterion::Name(s.clone(), *e),
        Criterion::Text(s, k) => Criterion::Text(s.clone(), *k),
        Criterion::Index(i) => Criterion::Index(*i),
        Criterion::Any => Criterion::Any,
    }
}

impl<'a> Locator<'a> {
    pub open spec fn wf(&self) -> bool {
        &&& self.tree.wf()
        &&& self.selector.wf()
        &&& match self.scope {
            Some(r) => r < self.tree.nodes@.len(),
            None => true,
        }
    }

    /// The nodes this locator matches, in traversal order.
    pub open spec fn matches(&self) -> Seq<usize> {
        eval(self.tree.nodes@, self.selector@, self.scope)
    }

    /// A locator over the whole tree.
    pub fn new(tree: &'a TreeSnapshot, selector: Selector) -> (r: Locator<'a>)
        requires
            tree.wf(),
            selector.wf(),
        ensures
            r.wf(),
            r.tree == tree,
            r.selector@ == selector@,
            r.scope is None,
    {
        Locator { tree, selector, scope: None }
    }

    /// A locator over the descendants of node `root`.
    pub fn within(tree: &'a TreeSnapshot, root: usize, selector: Selector) -> (r: Locator<'a>)
        requires
            tree.wf(),
            selector.wf(),
            root < tree.nodes@.len(),
        ensures
            r.wf(),
            r.tree == tree,
            r.selector@ == selector@,
            r.scope == Some(root),
    {
        Locator { tree, selector, scope: Some(root) }
    }

    /// A new locator that applies `sub` among the descendants of this one's
    /// matches. Nothing is resolved here.
    pub fn locator(&self, sub: Selector) -> (r: Locator<'a>)
        requires
            self.wf(),
            sub.wf(),
        ensures
            r.wf(),
            r.tree == self.tree,
            r.scope == self.scope,
            r.selector@ == self.selector@ + sub@,
    {
        let mut steps: Vec<Criterion> = Vec::new();
        let mut j: usize = 0;
        while j < self.selector.steps.len()
            invariant
                j <= self.selector.steps@.len(),
                steps@.len() == j,
                forall|m: int| 0 <= m < j ==> (#[trigger] steps@[m])@ == self.selector.steps@[m]@,
            decreases self.selector.steps@.len() - j,
        {
            steps.push(copy_criterion(&self.selector.steps[j]));
            j += 1;
        }
        let mut k: usize = 0;
        while k < sub.steps.len()
            invariant
                j == self.selector.steps@.len(),
                k <= sub.steps@.len(),
                steps@.len() == j + k,
                forall|m: int| 0 <= m < j ==> (#[trigger] steps@[m])@ == self.selector.steps@[m]@,
                forall|m: int| 0 <= m < k ==> (#[trigger] steps@[j + m])@ == sub.steps@[m]@,
            decreases sub.steps@.len() - k,
        {
            steps.push(copy_criterion(&sub.steps[k]));
            k += 1;
        }
        assert forall|m: int| 0 <= m < steps@.len() implies steps@.map_values(|c: Criterion| c@)[m]
            == (self.selector@ + sub@)[m] by {
            if m >= j {
                assert(steps@[j + (m - j)]@ == sub.steps@[m - j]@);
            }
        }
        assert(steps@.map_values(|c: Criterion| c@) =~= self.selector@ + sub@);
        Locator { tree: self.tree, selector: Selector { steps }, scope: self.scope }
    }

    /// The indices of the matched nodes, in traversal order.
    pub fn resolve(&self) -> (r: Vec<usize>)
        requires
            self.wf(),
        ensures
            r@ == self.matches(),
    {
        let t = self.tree;
        let ghost sv = self.selector@;
        let mut anchors: Option<Vec<usize>> = match self.scope {
            None => None,
            Some(root) => Some(vec![root]),
        };
        assert(anchors_view(&anchors) =~= scope_anchors(self.scope));
        let mut cur: Vec<usize> = Vec::new();
        let mut k: usize = 0;
        while k < self.selector.steps.len()
            invariant
                t.wf(),
                sv == self.selector@,
                sv.len() == self.selector.steps@.len(),
                k <= self.selector.steps@.len(),
                k == 0 ==> anchors_view(&anchors) == scope_anchors(self.scope),
                k > 0 ==> cur@ == eval(t.nodes@, sv.take(k as int), self.scope),
                k > 0 ==> anchors_view(&anchors) == Some(cur@),
            decreases self.selector.steps@.len() - k,
        {
            let cand = pool_of(t, &anchors);
            proof {
                lemma_pool_bounded(t.nodes@, anchors_view(&anchors), t.nodes@.len() as int);
                assert(sv.take(k + 1).drop_last() =~= sv.take(k as int));
                assert(sv.take(k + 1).last() == sv[k as int]);
            }
            cur = apply_criterion(t, &self.selector.steps[k], &cand);
            assert(sv[k as int] == self.selector.steps@[k as int]@);
            anchors = Some(copy_ids(&cur));
            k += 1;
        }
        assert(sv.take(k as int) =~= sv);
        cur
    }

    /// Every match, in traversal order; no match gives an empty vector.
    pub fn all(&self) -> (r: Vec<UIElement>)
        requires
            self.wf(),
        ensures
            r@.len() == self.matches().len(),
            forall|i: int|
                0 <= i < r@.len() ==> (#[trigger] r@[i]).snapshot_of(
                    self.tree.nodes@,
                    self.matches()[i] as int,
                ),
    {
        let ids = self.resolve();
        proof {
            lemma_eval_bounded(self.tree.nodes@, self.selector@, self.scope);
        }
        let mut r: Vec<UIElement> = Vec::new();
        let mut j: usize = 0;
        while j < ids.len()
            invariant
                self.wf(),
                ids@ == self.matches(),
                forall|m: int| 0 <= m < ids@.len() ==> (#[trigger] ids@[m]) < self.tree.nodes@.len(),
                j <= ids@.len(),
                r@.len() == j,
                forall|i: int|
                    0 <= i < j ==> (#[trigger] r@[i]).snapshot_of(self.tree.nodes@, ids@[i] as int),
            decreases ids@.len() - j,
        {
            r.push(UIElement::resolve(self.tree, ids[j]));
            j += 1;
        }
        r
    }

    /// The first match, or `NotFound` when there is none.
    pub fn first(&self) -> (r: Result<UIElement, AutomationError>)
        requires
            self.wf(),
        ensures
            r is Ok <==> self.matches().len() > 0,
            r is Ok ==> r.unwrap().snapshot_of(self.tree.nodes@, self.matches()[0] as int),
            r is Err ==> r == Err::<UIElement, AutomationError>(AutomationError::NotFound),
    {
        self.nth(0)
    }

    /// One attempt of resolving to the first match within a retry loop run
    /// by the caller: the match, or what the policy says to do next.
    pub fn first_attempt(&self, policy: &RetryPolicy, elapsed_ms: u64, cancelled: bool) -> (r: Result<
        UIElement,
        RetryStep,
    >)
        requires
            self.wf(),
        ensures
            r is Ok <==> self.matches().len() > 0,
            r is Ok ==> r.unwrap().snapshot_of(self.tree.nodes@, self.matches()[0] as int),
            r is Err ==> r->Err_0 == step_spec(*policy, false, elapsed_ms, cancelled),
    {
        match self.first() {
            Ok(e) => Ok(e),
            Err(_) => Err(policy.next_step(false, elapsed_ms, cancelled)),
        }
    }

    /// The `i`-th match counted from 0, or `NotFound` when there are no more
    /// than `i` matches.
    pub fn nth(&self, i: usize) -> (r: Result<UIElement, AutomationError>)
        requires
            self.wf(),
        ensures
            r is Ok <==> i < self.matches().len(),
            r is Ok ==> r.unwrap().snapshot_of(self.tree.nodes@, self.matches()[i as int] as int),
            r is Err ==> r == Err::<UIElement, AutomationError>(AutomationError::NotFound),
    {
        let ids = self.resolve();
        proof {
            lemma_eval_bounded(self.tree.nodes@, self.selector@, self.scope);
        }
        if i < ids.len() {
            Ok(UIElement::resolve(self.tree, ids[i]))
        } else {
            Err(AutomationError::NotFound)
        }
    }
}

/// A copy of a list of node indices.
fn copy_ids(v: &Vec<usize>) -> (r: Vec<usize>)
    ensures
        r@ == v@,
{
    let mut r: Vec<usize> = Vec::new();
    let mut j: usize = 0;
    while j < v.len()
        invariant
            j <= v@.len(),
            r@ =~= v@.take(j as int),
        decreases v@.len() - j,
    {
        r.push(v[j]);
        j += 1;
    }
    assert(v@.take(j as int) =~= v@);
    r
}

proof fn lemma_keep_subset(t: Seq<NodeRecord>, c: CriterionView, cand: Seq<usize>, n: int)
    requires
        0 <= n <= cand.len(),
    ensures
        forall|j: int|
            0 <= j < keep_matching(t, c, cand, n).len() ==> exists|m: int|
                0 <= m < n && cand[m] == #[trigger] keep_matching(t, c, cand, n)[j],
    decreases n,
{
    if n > 0 {
        lemma_keep_subset(t, c, cand, n - 1);
        let f = keep_matching(t, c, cand, n - 1);
        assert forall|j: int|
            0 <= j < keep_matching(t, c, cand, n).len() implies exists|m: int|
            0 <= m < n && cand[m] == #[trigger] keep_matching(t, c, cand, n)[j] by {
            if j < f.len() {
                let m = choose|m: int| 0 <= m < n - 1 && cand[m] == #[trigger] f[j];
                assert(cand[m] == keep_matching(t, c, cand, n)[j]);
            } else {
                assert(cand[n - 1] == keep_matching(t, c, cand, n)[j]);
            }
        }
    }
}

/// Every result of a step is one of its candidates.
pub proof fn lemma_step_subset(t: Seq<NodeRecord>, c: CriterionView, cand: Seq<usize>)
    ensures
        forall|j: int|
            0 <= j < apply_step(t, c, cand).len() ==> exists|m: int|
                0 <= m < cand.len() && cand[m] == #[trigger] apply_step(t, c, cand)[j],
{
    match c {
        CriterionView::Index(k) => {
            if (k as int) < cand.len() {
                assert forall|j: int|
                    0 <= j < apply_step(t, c, cand).len() implies exists|m: int|
                    0 <= m < cand.len() && cand[m] == #[trigger] apply_step(t, c, cand)[j] by {
                    assert(cand[k as int] == apply_step(t, c, cand)[j]);
                }
            }
        },
        _ => {
            lemma_keep_subset(t, c, cand, cand.len() as int);
        },
    }
}

proof fn lemma_eval_bounded(t: Seq<NodeRecord>, steps: Seq<CriterionView>, scope: Option<usize>)
    requires
        t.len() >= 1,
    ensures
        forall|j: int|
            0 <= j < eval(t, steps, scope).len() ==> (#[trigger] eval(t, steps, scope)[j]) < t.len(),
{
    if steps.len() > 0 {
        let anchors = if steps.len() == 1 {
            scope_anchors(scope)
        } else {
            Some(eval(t, steps.drop_last(), scope))
        };
        let cand = pool(t, anchors, t.len() as int);
        lemma_pool_bounded(t, anchors, t.len() as int);
        lemma_step_subset(t, steps.last(), cand);
        assert forall|j: int|
            0 <= j < eval(t, steps, scope).len() implies (#[trigger] eval(t, steps, scope)[j])
            < t.len() by {
            let m = choose|m: int|
                0 <= m < cand.len() && cand[m] == #[trigger] apply_step(t, steps.last(), cand)[j];
            assert(cand[m] < t.len());
        }
    }
}

proof fn lemma_pool_members(t: Seq<NodeRecord>, anchors: Option<Seq<usize>>, n: int)
    requires
        n <= usize::MAX + 1,
    ensures
        forall|j: int|
            0 <= j < pool(t, anchors, n).len() ==> in_pool(
                t,
                anchors,
                #[trigger] pool(t, anchors, n)[j] as int,
            ),
    decreases n,
{
    if n > 0 {
        lemma_pool_members(t, anchors, n - 1);
        let p = pool(t, anchors, n - 1);
        assert forall|j: int| 0 <= j < pool(t, anchors, n).len() implies in_pool(
            t,
            anchors,
            #[trigger] pool(t, anchors, n)[j] as int,
        ) by {
            if j < p.len() {
                assert(pool(t, anchors, n)[j] == p[j]);
            }
        }
    }
}

proof fn lemma_pool_exact(t: Seq<NodeRecord>, anchors: Option<Seq<usize>>, n: int)
    requires
        0 <= n <= t.len(),
        n <= usize::MAX,
    ensures
        forall|a: int, b: int|
            0 <= a < b < pool(t, anchors, n).len() ==> #[trigger] pool(t, anchors, n)[a]
                < #[trigger] pool(t, anchors, n)[b],
        forall|j: int| 0 <= j < pool(t, anchors, n).len() ==> #[trigger] pool(t, anchors, n)[j] < n,
        forall|i: int|
            0 <= i < n ==> (in_pool(t, anchors, i) <==> #[trigger] pool(t, anchors, n).contains(
                i as usize,
            )),
    decreases n,
{
    if n > 0 {
        lemma_pool_exact(t, anchors, n - 1);
        let p = pool(t, anchors, n - 1);
        let q = pool(t, anchors, n);
        assert forall|j: int| 0 <= j < q.len() implies #[trigger] q[j] < n by {
            if j < p.len() {
                assert(q[j] == p[j]);
            }
        }
        assert forall|a: int, b: int| 0 <= a < b < q.len() implies #[trigger] q[a] < #[trigger] q[b] by {
            assert(q[a] == p[a]);
            if b < p.len() {
                assert(q[b] == p[b]);
            }
        }
        assert forall|i: int| 0 <= i < n implies (in_pool(t, anchors, i) <==> #[trigger] q.contains(
            i as usize,
        )) by {
            if i < n - 1 {
                if p.contains(i as usize) {
                    let k = choose|k: int| 0 <= k < p.len() && p[k] == i as usize;
                    assert(q[k] == p[k]);
                }
                if q.contains(i as usize) {
                    let k = choose|k: int| 0 <= k < q.len() && q[k] == i as usize;
                    if k < p.len() {
                        assert(q[k] == p[k]);
                    }
                }
            } else {
                if in_pool(t, anchors, i) {
                    assert(q[q.len() - 1] == i as usize);
                }
                if q.contains(i as usize) {
                    let k = choose|k: int| 0 <= k < q.len() && q[k] == i as usize;
                    if k < p.len() {
                        assert(q[k] == p[k]);
                    }
                }
            }
        }
    }
}

proof fn lemma_keep_any(t: Seq<NodeRecord>, cand: Seq<usize>, n: int)
    requires
        0 <= n <= cand.len(),
    ensures
        keep_matching(t, CriterionView::Any, cand, n) == cand.take(n),
    decreases n,
{
    if n > 0 {
        lemma_keep_any(t, cand, n - 1);
        assert(cand.take(n - 1).push(cand[n - 1]) =~= cand.take(n));
    }
}

/// Selecting `*` over the whole tree lists every reachable node, each once,
/// in traversal order, and nothing else.
pub proof fn lemma_any_lists_every_reachable_node(t: Seq<NodeRecord>)
    requires
        tree_wf(t),
        t.len() <= usize::MAX,
    ensures
        forall|i: int|
            0 <= i < t.len() ==> (reachable(t, i) <==> #[trigger] eval(
                t,
                seq![CriterionView::Any],
                None,
            ).contains(i as usize)),
        forall|j: int|
            0 <= j < eval(t, seq![CriterionView::Any], None).len() ==> #[trigger] eval(
                t,
                seq![CriterionView::Any],
                None,
            )[j] < t.len(),
        forall|a: int, b: int|
            0 <= a < b < eval(t, seq![CriterionView::Any], None).len() ==> #[trigger] eval(
                t,
                seq![CriterionView::Any],
                None,
            )[a] != #[trigger] eval(t, seq![CriterionView::Any], None)[b],
{
    let steps = seq![CriterionView::Any];
    let cand = pool(t, None, t.len() as int);
    assert(steps.last() == CriterionView::Any);
    lemma_keep_any(t, cand, cand.len() as int);
    assert(cand.take(cand.len() as int) =~= cand);
    assert(eval(t, steps, None) == cand);
    lemma_pool_exact(t, None, t.len() as int);
}

/// `a` above `b` above `c` puts `a` above `c`.
pub proof fn lemma_ancestor_transitive(t: Seq<NodeRecord>, a: int, b: int, c: int)
    requires
        is_ancestor(t, a, b),
        is_ancestor(t, b, c),
    ensures
        is_ancestor(t, a, c),
    decreases c,
{
    let p = t[c].parent.unwrap() as int;
    if p != b {
        lemma_ancestor_transitive(t, a, b, p);
    }
}

/// Chaining `b` onto a locator for `a` only ever matches nodes strictly
/// below some match of `a`.
pub proof fn lemma_chain_stays_below(
    t: Seq<NodeRecord>,
    a: Seq<CriterionView>,
    b: Seq<CriterionView>,
    scope: Option<usize>,
)
    requires
        a.len() > 0,
        b.len() > 0,
        t.len() <= usize::MAX,
    ensures
        forall|j: int|
            0 <= j < eval(t, a + b, scope).len() ==> below_any(
                t,
                eval(t, a, scope),
                #[trigger] eval(t, a + b, scope)[j] as int,
            ),
    decreases b.len(),
{
    let ab = a + b;
    let prev = b.drop_last();
    assert(ab.drop_last() =~= a + prev);
    let anchors = eval(t, a + prev, scope);
    let cand = pool(t, Some(anchors), t.len() as int);
    assert(eval(t, ab, scope) == apply_step(t, ab.last(), cand));
    lemma_step_subset(t, ab.last(), cand);
    lemma_pool_members(t, Some(anchors), t.len() as int);
    if prev.len() == 0 {
        assert(a + prev =~= a);
    } else {
        lemma_chain_stays_below(t, a, prev, scope);
    }
    assert forall|j: int| 0 <= j < eval(t, ab, scope).len() implies below_any(
        t,
        eval(t, a, scope),
        #[trigger] eval(t, ab, scope)[j] as int,
    ) by {
        let r = eval(t, ab, scope)[j];
        let m = choose|m: int| 0 <= m < cand.len() && cand[m] == apply_step(t, ab.last(), cand)[j];
        assert(in_pool(t, Some(anchors), cand[m] as int));
        let k = choose|k: int| 0 <= k < anchors.len() && #[trigger] is_ancestor(t, anchors[k] as int, r as int);
        if prev.len() > 0 {
            assert(below_any(t, eval(t, a, scope), anchors[k] as int));
            let k2 = choose|k2: int|
                0 <= k2 < eval(t, a, scope).len() && #[trigger] is_ancestor(
                    t,
                    eval(t, a, scope)[k2] as int,
                    anchors[k] as int,
                );
            lemma_ancestor_transitive(t, eval(t, a, scope)[k2] as int, anchors[k] as int, r as int);
        }
    }
}

proof fn lemma_keep_exact(t: Seq<NodeRecord>, c: CriterionView, cand: Seq<usize>, n: int)
    requires
        0 <= n <= cand.len(),
    ensures
        forall|x: usize|
            #[trigger] keep_matching(t, c, cand, n).contains(x) <==> exists|m: int|
                0 <= m < n && cand[m] == x && node_matches(t, c, x as int),
        (forall|a: int, b: int| 0 <= a < b < cand.len() ==> #[trigger] cand[a] < #[trigger] cand[b])
            ==> forall|a: int, b: int|
            0 <= a < b < keep_matching(t, c, cand, n).len() ==> #[trigger] keep_matching(
                t,
                c,
                cand,
                n,
            )[a] < #[trigger] keep_matching(t, c, cand, n)[b],
    decreases n,
{
    if n > 0 {
        lemma_keep_exact(t, c, cand, n - 1);
        lemma_keep_subset(t, c, cand, n - 1);
        let f = keep_matching(t, c, cand, n - 1);
        let k = keep_matching(t, c, cand, n);
        assert forall|x: usize| #[trigger] k.contains(x) <==> exists|m: int|
            0 <= m < n && cand[m] == x && node_matches(t, c, x as int) by {
            if k.contains(x) {
                let j = choose|j: int| 0 <= j < k.len() && k[j] == x;
                if j < f.len() {
                    assert(f[j] == x);
                    assert(f.contains(x));
                } else {
                    assert(cand[n - 1] == x);
                }
            }
            if exists|m: int| 0 <= m < n && cand[m] == x && node_matches(t, c, x as int) {
                let m = choose|m: int| 0 <= m < n && cand[m] == x && node_matches(t, c, x as int);
                if m < n - 1 {
                    assert(f.contains(x));
                    let j = choose|j: int| 0 <= j < f.len() && f[j] == x;
                    assert(k[j] == x);
                } else {
                    assert(k[k.len() - 1] == x);
                }
            }
        }
        if forall|a: int, b: int| 0 <= a < b < cand.len() ==> #[trigger] cand[a] < #[trigger] cand[b] {
            assert forall|a: int, b: int| 0 <= a < b < k.len() implies #[trigger] k[a] < #[trigger] k[b] by {
                assert(k[a] == f[a]);
                if b < f.len() {
                    assert(k[b] == f[b]);
                } else {
                    let m = choose|m: int| 0 <= m < n - 1 && cand[m] == #[trigger] f[a];
                    assert(cand[m] < cand[n - 1]);
                }
            }
        }
    }
}

/// Applied to the candidates for some anchors, a criterion other than an
/// index keeps exactly the candidates that satisfy it, each once, in
/// traversal order.
pub proof fn lemma_step_exact(t: Seq<NodeRecord>, c: CriterionView, anchors: Option<Seq<usize>>)
    requires
        !(c is Index),
        t.len() <= usize::MAX,
    ensures
        forall|i: int|
            0 <= i < t.len() ==> (#[trigger] apply_step(t, c, pool(t, anchors, t.len() as int)).contains(
                i as usize,
            ) <==> (in_pool(t, anchors, i) && node_matches(t, c, i))),
        forall|j: int|
            0 <= j < apply_step(t, c, pool(t, anchors, t.len() as int)).len() ==> #[trigger] apply_step(
                t,
                c,
                pool(t, anchors, t.len() as int),
            )[j] < t.len(),
        forall|a: int, b: int|
            0 <= a < b < apply_step(t, c, pool(t, anchors, t.len() as int)).len() ==> #[trigger] apply_step(
                t,
                c,
                pool(t, anchors, t.len() as int),
            )[a] < #[trigger] apply_step(t, c, pool(t, anchors, t.len() as int))[b],
{
    let cand = pool(t, anchors, t.len() as int);
    let r = apply_step(t, c, cand);
    lemma_pool_exact(t, anchors, t.len() as int);
    lemma_keep_exact(t, c, cand, cand.len() as int);
    lemma_step_subset(t, c, cand);
    assert(r == keep_matching(t, c, cand, cand.len() as int));
    assert forall|i: int| 0 <= i < t.len() implies (#[trigger] r.contains(i as usize) <==> (in_pool(
        t,
        anchors,
        i,
    ) && node_matches(t, c, i))) by {
        if r.contains(i as usize) {
            let m = choose|m: int|
                0 <= m < cand.len() && cand[m] == i as usize && node_matches(t, c, (i as usize) as int);
            assert(cand.contains(i as usize));
        }
        if in_pool(t, anchors, i) && node_matches(t, c, i) {
            assert(cand.contains(i as usize));
            let m = choose|m: int| 0 <= m < cand.len() && cand[m] == i as usize;
            assert(node_matches(t, c, (i as usize) as int));
        }
    }
    assert forall|j: int| 0 <= j < r.len() implies #[trigger] r[j] < t.len() by {
        let m = choose|m: int| 0 <= m < cand.len() && cand[m] == #[trigger] apply_step(t, c, cand)[j];
        assert(cand[m] < t.len());
    }
}

/// A query of one criterion other than an index, over the whole tree,
/// returns exactly the reachable nodes that satisfy it, each once, in
/// traversal order; nodes that do not satisfy it, wherever they stand, are
/// left out.
pub proof fn lemma_single_query_exact(t: Seq<NodeRecord>, c: CriterionView)
    requires
        !(c is Index),
        t.len() <= usize::MAX,
    ensures
        forall|i: int|
            0 <= i < t.len() ==> (#[trigger] eval(t, seq![c], None).contains(i as usize) <==> (
            reachable(t, i) && node_matches(t, c, i))),
        forall|j: int|
            0 <= j < eval(t, seq![c], None).len() ==> #[trigger] eval(t, seq![c], None)[j] < t.len(),
        forall|a: int, b: int|
            0 <= a < b < eval(t, seq![c], None).len() ==> #[trigger] eval(t, seq![c], None)[a]
                < #[trigger] eval(t, seq![c], None)[b],
{
    assert(seq![c].last() == c);
    assert(eval(t, seq![c], None) == apply_step(t, c, pool(t, None, t.len() as int)));
    lemma_step_exact(t, c, None);
}

/// Chaining a criterion `c` other than an index onto a chain `a` matches
/// exactly the reachable nodes that satisfy `c` and lie strictly below some
/// match of `a`, each once, in traversal order.
pub proof fn lemma_chain_step_exact(
    t: Seq<NodeRecord>,
    a: Seq<CriterionView>,
    c: CriterionView,
    scope: Option<usize>,
)
    requires
        a.len() > 0,
        !(c is Index),
        t.len() <= usize::MAX,
    ensures
        forall|i: int|
            0 <= i < t.len() ==> (#[trigger] eval(t, a.push(c), scope).contains(i as usize) <==> (
            reachable(t, i) && node_matches(t, c, i) && below_any(t, eval(t, a, scope), i))),
        forall|j: int|
            0 <= j < eval(t, a.push(c), scope).len() ==> #[trigger] eval(t, a.push(c), scope)[j]
                < t.len(),
        forall|x: int, y: int|
            0 <= x < y < eval(t, a.push(c), scope).len() ==> #[trigger] eval(t, a.push(c), scope)[x]
                < #[trigger] eval(t, a.push(c), scope)[y],
{
    assert(a.push(c).drop_last() =~= a);
    assert(a.push(c).last() == c);
    let anchors = Some(eval(t, a, scope));
    assert(eval(t, a.push(c), scope) == apply_step(t, c, pool(t, anchors, t.len() as int)));
    lemma_step_exact(t, c, anchors);
}

} // verus!
