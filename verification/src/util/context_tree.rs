//! The tree of named scopes behind the cost accounting.
//!
//! Scopes are kept in the order in which they were opened, each with its
//! nesting depth: a tree in preorder. Beside them stands the chain of the
//! scopes that are still open, outermost first.
use vstd::prelude::*;

verus! {

/// `log::Level`, the verbosity level of a log record. A scope carries the
/// level it was opened with through to its report; nothing looks inside.
#[verifier::external_type_specification]
#[verifier::external_body]
pub struct ExLevel(log::Level);

/// One scope: its label, the level it reports at, how deeply it is nested,
/// and the cell counts at which it was opened and, once closed, closed.
#[derive(Debug, PartialEq, Eq)]
pub struct Scope {
    pub label: String,
    pub level: log::Level,
    pub depth: usize,
    pub start: usize,
    pub end: Option<usize>,
}

/// The cost of one scope in a report.
#[derive(Debug, PartialEq, Eq)]
pub struct ScopeCount {
    pub label: String,
    pub level: log::Level,
    pub depth: usize,
    pub delta: usize,
}

/// The cells allocated inside a scope: from its opening to its closing, or
/// to `now` while it is open. A count that runs backwards costs nothing.
pub open spec fn delta(scope: Scope, now: nat) -> nat {
    let end = match scope.end {
        Some(end) => end as nat,
        None => now,
    };
    if end >= scope.start {
        (end - scope.start) as nat
    } else {
        0
    }
}

/// What a report says of `scope`.
pub open spec fn counted(scope: Scope, now: nat, count: ScopeCount) -> bool {
    &&& count.label == scope.label
    &&& count.level == scope.level
    &&& count.depth == scope.depth
    &&& count.delta == delta(scope, now)
}

/// The positions, in order, of the scopes among the first `n` whose cost is
/// at least `min_delta`.
pub open spec fn kept(scopes: Seq<Scope>, now: nat, min_delta: nat, n: int) -> Seq<int>
    decreases n,
{
    if n <= 0 {
        Seq::empty()
    } else if delta(scopes[n - 1], now) >= min_delta {
        kept(scopes, now, min_delta, n - 1).push(n - 1)
    } else {
        kept(scopes, now, min_delta, n - 1)
    }
}

/// `report` is the report of `scopes` at the cell count `now`: one entry for
/// each scope that cost at least `min_delta`, in the order of opening.
pub open spec fn is_count_report(
    scopes: Seq<Scope>,
    now: nat,
    min_delta: nat,
    report: Seq<ScopeCount>,
) -> bool {
    let positions = kept(scopes, now, min_delta, scopes.len() as int);
    &&& report.len() == positions.len()
    &&& forall|k: int| 0 <= k < report.len() ==> counted(scopes[positions[k]], now, #[trigger] report[k])
}

/// The positions that `kept` lists are exactly those of the scopes that
/// cost enough, in increasing order.
pub proof fn lemma_kept(scopes: Seq<Scope>, now: nat, min_delta: nat, n: int)
    requires
        0 <= n <= scopes.len(),
    ensures
        forall|k: int|
            0 <= k < kept(scopes, now, min_delta, n).len() ==> 0 <= #[trigger] kept(
                scopes,
                now,
                min_delta,
                n,
            )[k] < n && delta(scopes[kept(scopes, now, min_delta, n)[k]], now) >= min_delta,
        forall|k: int, l: int|
            0 <= k < l < kept(scopes, now, min_delta, n).len() ==> kept(scopes, now, min_delta, n)[k]
                < kept(scopes, now, min_delta, n)[l],
        forall|i: int|
            0 <= i < n && delta(#[trigger] scopes[i], now) >= min_delta ==> kept(
                scopes,
                now,
                min_delta,
                n,
            ).contains(i),
    decreases n,
{
    if n > 0 {
        lemma_kept(scopes, now, min_delta, n - 1);
        let before = kept(scopes, now, min_delta, n - 1);
        let after = kept(scopes, now, min_delta, n);
        assert forall|i: int| 0 <= i < n && delta(#[trigger] scopes[i], now) >= min_delta implies after.contains(
            i,
        ) by {
            if i < n - 1 {
                let k = choose|k: int| 0 <= k < before.len() && before[k] == i;
                assert(after[k] == i);
            } else {
                assert(after[after.len() - 1] == i);
            }
        }
    }
}

/// With no threshold every scope is kept.
pub proof fn lemma_kept_all(scopes: Seq<Scope>, now: nat, n: int)
    requires
        0 <= n <= scopes.len(),
    ensures
        kept(scopes, now, 0, n).len() == n,
        forall|k: int| 0 <= k < n ==> kept(scopes, now, 0, n)[k] == k,
    decreases n,
{
    if n > 0 {
        lemma_kept_all(scopes, now, n - 1);
    }
}

/// One line of a stack-count report: the labels from the outermost scope
/// down to one scope, and the cells which that scope allocated itself.
#[derive(Debug, PartialEq, Eq)]
pub struct StackCount {
    pub path: Vec<String>,
    pub count: usize,
}

/// The chain of scopes from a root down to scope `i`, by position: the
/// scopes that were open once scope `i` had been opened.
pub open spec fn lineage(scopes: Seq<Scope>, i: int) -> Seq<int>
    decreases i + 1,
{
    if i < 0 {
        Seq::empty()
    } else {
        lineage(scopes, i - 1).take(scopes[i].depth as int).push(i)
    }
}

/// The position of the scope directly around scope `i`, or `-1` for a root.
pub open spec fn parent(scopes: Seq<Scope>, i: int) -> int {
    if scopes[i].depth == 0 {
        -1
    } else {
        lineage(scopes, i)[scopes[i].depth - 1]
    }
}

/// The cost of the scopes among the first `n` that lie directly inside
/// scope `i`.
pub open spec fn nested(scopes: Seq<Scope>, now: nat, i: int, n: int) -> nat
    decreases n,
{
    if n <= 0 {
        0
    } else if parent(scopes, n - 1) == i {
        nested(scopes, now, i, n - 1) + delta(scopes[n - 1], now)
    } else {
        nested(scopes, now, i, n - 1)
    }
}

/// The cells that scope `i` allocated itself: its cost less that of the
/// scopes directly inside it.
pub open spec fn own(scopes: Seq<Scope>, now: nat, i: int) -> nat {
    let inner = nested(scopes, now, i, scopes.len() as int);
    if delta(scopes[i], now) >= inner {
        (delta(scopes[i], now) - inner) as nat
    } else {
        0
    }
}

/// What a stack-count report says of scope `i`.
pub open spec fn stacked(scopes: Seq<Scope>, now: nat, i: int, line: StackCount) -> bool {
    &&& line.path@.len() == lineage(scopes, i).len()
    &&& forall|d: int|
        0 <= d < line.path@.len() ==> (#[trigger] line.path@[d]) == scopes[lineage(scopes, i)[d]].label
    &&& line.count == own(scopes, now, i)
}

/// `report` is the stack-count report of `scopes` at the cell count `now`:
/// one line for each scope that cost at least `min_delta`, in the order of
/// opening.
pub open spec fn is_stack_report(
    scopes: Seq<Scope>,
    now: nat,
    min_delta: nat,
    report: Seq<StackCount>,
) -> bool {
    let positions = kept(scopes, now, min_delta, scopes.len() as int);
    &&& report.len() == positions.len()
    &&& forall|k: int| 0 <= k < report.len() ==> stacked(scopes, now, positions[k], #[trigger] report[k])
}

/// In a tree in preorder the chain down to scope `i` has one scope for each
/// depth up to its own, each earlier than the next, and ends with `i`.
pub proof fn lemma_lineage(scopes: Seq<Scope>, i: int)
    requires
        nested_in_order(scopes),
        0 <= i < scopes.len(),
    ensures
        lineage(scopes, i).len() == scopes[i].depth + 1,
        lineage(scopes, i).last() == i,
        forall|d: int|
            0 <= d < lineage(scopes, i).len() ==> 0 <= #[trigger] lineage(scopes, i)[d] <= i
                && scopes[lineage(scopes, i)[d]].depth == d,
        forall|d: int, e: int|
            0 <= d < e < lineage(scopes, i).len() ==> lineage(scopes, i)[d] < lineage(scopes, i)[e],
    decreases i,
{
    if i > 0 {
        lemma_lineage(scopes, i - 1);
    }
}

/// A scope lies inside an earlier one, and one level below it.
pub proof fn lemma_parent(scopes: Seq<Scope>, i: int)
    requires
        nested_in_order(scopes),
        0 <= i < scopes.len(),
    ensures
        -1 <= parent(scopes, i) < i,
        parent(scopes, i) >= 0 ==> scopes[parent(scopes, i)].depth + 1 == scopes[i].depth,
        parent(scopes, i) == -1 <==> scopes[i].depth == 0,
{
    lemma_lineage(scopes, i);
}

/// The depths are those of a tree in preorder: the first scope is a root, and
/// each later one is at most one level below the scope before it.
pub open spec fn nested_in_order(scopes: Seq<Scope>) -> bool {
    &&& scopes.len() > 0 ==> scopes[0].depth == 0
    &&& forall|i: int| 1 <= i < scopes.len() ==> (#[trigger] scopes[i]).depth <= scopes[i - 1].depth + 1
}

/// A tree of scopes, built by opening and closing them in nested order.
pub struct ContextTree {
    scopes: Vec<Scope>,
    open: Vec<usize>,
}

impl ContextTree {
    /// Every scope opened so far, in the order of opening.
    pub closed spec fn scopes(&self) -> Seq<Scope> {
        self.scopes@
    }

    /// The positions in [`scopes`](Self::scopes) of the scopes that are
    /// open, outermost first.
    pub closed spec fn open(&self) -> Seq<usize> {
        self.open@
    }

    /// The open scopes form a chain from depth zero down, and exactly they
    /// have no closing count.
    pub open spec fn wf(&self) -> bool {
        &&& forall|j: int|
            0 <= j < self.open().len() ==> (#[trigger] self.open()[j]) < self.scopes().len()
                && self.scopes()[self.open()[j] as int].depth == j
                && self.scopes()[self.open()[j] as int].end is None
        &&& forall|j: int, l: int|
            0 <= j < l < self.open().len() ==> self.open()[j] < self.open()[l]
        &&& forall|i: int|
            0 <= i < self.scopes().len() && (#[trigger] self.scopes()[i]).end is None
                ==> self.scopes()[i].depth < self.open().len() && self.open()[self.scopes()[i].depth as int] == i
        &&& nested_in_order(self.scopes())
        &&& self.scopes().len() > 0 ==> self.open().len() <= self.scopes().last().depth + 1
    }

    /// This tree is `before` with one more scope, opened at `cells` inside
    /// the scope that was innermost.
    pub open spec fn opened_from(
        self,
        before: ContextTree,
        label: Seq<char>,
        level: log::Level,
        cells: nat,
    ) -> bool {
        &&& self.scopes().len() == before.scopes().len() + 1
        &&& self.scopes().drop_last() == before.scopes()
        &&& self.scopes().last().label@ == label
        &&& self.scopes().last().level == level
        &&& self.scopes().last().depth == before.open().len()
        &&& self.scopes().last().start == cells
        &&& self.scopes().last().end is None
        &&& self.open() == before.open().push(before.scopes().len() as usize)
    }

    /// This tree is `before` with its innermost open scope closed at
    /// `cells`, or `before` itself where no scope was open.
    pub open spec fn closed_from(self, before: ContextTree, cells: nat) -> bool {
        if before.open().len() == 0 {
            self.scopes() == before.scopes() && self.open() == before.open()
        } else {
            let top = before.open().last() as int;
            &&& self.open() == before.open().drop_last()
            &&& self.scopes().len() == before.scopes().len()
            &&& forall|i: int|
                0 <= i < before.scopes().len() && i != top ==> self.scopes()[i] == before.scopes()[i]
            &&& self.scopes()[top].label == before.scopes()[top].label
            &&& self.scopes()[top].level == before.scopes()[top].level
            &&& self.scopes()[top].depth == before.scopes()[top].depth
            &&& self.scopes()[top].start == before.scopes()[top].start
            &&& self.scopes()[top].end matches Some(end) && end == cells
        }
    }

    /// A tree without scopes.
    pub fn new() -> (tree: Self)
        ensures
            tree.wf(),
            tree.scopes().len() == 0,
            tree.open().len() == 0,
    {
        ContextTree { scopes: Vec::new(), open: Vec::new() }
    }

    /// Opens a scope inside the innermost open one, at the cell count `cells`.
    pub fn push(&mut self, label: &str, level: log::Level, cells: usize)
        requires
            old(self).wf(),
        ensures
            final(self).wf(),
            final(self).opened_from(*old(self), label@, level, cells as nat),
    {
        let depth = self.open.len();
        let position = self.scopes.len();
        self.scopes.push(Scope { label: label.to_owned(), level, depth, start: cells, end: None });
        self.open.push(position);
        proof {
            assert(self.scopes@.drop_last() == old(self).scopes@);
            // A first scope is opened with no scope open: it is a root.
            if position == 0 && depth > 0 {
                assert(old(self).open()[0] < old(self).scopes().len());
            }
        }
    }

    /// Closes the innermost open scope at the cell count `cells`. With no
    /// scope open nothing changes.
    pub fn pop(&mut self, cells: usize)
        requires
            old(self).wf(),
        ensures
            final(self).wf(),
            final(self).closed_from(*old(self), cells as nat),
    {
        match self.open.pop() {
            Some(top) => {
                self.scopes[top].end = Some(cells);
            },
            None => {},
        }
    }

    /// The cost of every scope that cost at least `min_delta` cells, in the
    /// order of opening; a scope that is still open is counted up to `now`.
    pub fn counts(&self, now: usize, min_delta: usize) -> (report: Vec<ScopeCount>)
        ensures
            is_count_report(self.scopes(), now as nat, min_delta as nat, report@),
    {
        let mut report: Vec<ScopeCount> = Vec::new();
        let mut i: usize = 0;
        while i < self.scopes.len()
            invariant
                i <= self.scopes@.len(),
                report@.len() == kept(self.scopes@, now as nat, min_delta as nat, i as int).len(),
                forall|k: int|
                    0 <= k < report@.len() ==> counted(
                        self.scopes@[kept(self.scopes@, now as nat, min_delta as nat, i as int)[k]],
                        now as nat,
                        #[trigger] report@[k],
                    ),
            decreases self.scopes@.len() - i,
        {
            let scope = &self.scopes[i];
            let cost = cost(scope, now);
            if cost >= min_delta {
                report.push(
                    ScopeCount {
                        label: scope.label.clone(),
                        level: scope.level,
                        depth: scope.depth,
                        delta: cost,
                    },
                );
            }
            i = i + 1;
        }
        report
    }

    /// For every scope that cost at least `min_delta` cells, in the order of
    /// opening: the labels from its outermost scope down to itself, and the
    /// cells that it allocated itself, outside the scopes directly inside it.
    pub fn stacks(&self, now: usize, min_delta: usize) -> (report: Vec<StackCount>)
        requires
            self.wf(),
        ensures
            is_stack_report(self.scopes(), now as nat, min_delta as nat, report@),
    {
        let inner = self.inner_costs(now);
        let n = self.scopes.len();
        let mut report: Vec<StackCount> = Vec::new();
        let mut trail: Vec<usize> = Vec::new();
        let mut i: usize = 0;
        while i < n
            invariant
                n == self.scopes@.len(),
                i <= n,
                nested_in_order(self.scopes@),
                inner@.len() == n,
                forall|j: int|
                    0 <= j < n ==> (#[trigger] inner@[j]) as nat == capped(
                        nested(self.scopes@, now as nat, j, n as int),
                    ),
                follows(trail@, lineage(self.scopes@, i - 1)),
                report@.len() == kept(self.scopes@, now as nat, min_delta as nat, i as int).len(),
                forall|k: int|
                    0 <= k < report@.len() ==> stacked(
                        self.scopes@,
                        now as nat,
                        kept(self.scopes@, now as nat, min_delta as nat, i as int)[k],
                        #[trigger] report@[k],
                    ),
            decreases n - i,
        {
            let scope = &self.scopes[i];
            self.descend(&mut trail, i);
            let cost = cost(scope, now);
            if cost >= min_delta {
                proof {
                    lemma_lineage(self.scopes@, i as int);
                }
                let path = self.labels(&trail);
                let within = inner[i];
                let count = if cost >= within {
                    cost - within
                } else {
                    0
                };
                report.push(StackCount { path, count });
            }
            i = i + 1;
        }
        report
    }

    /// For each scope, the cost of the scopes directly inside it, capped at
    /// the largest machine integer.
    fn inner_costs(&self, now: usize) -> (inner: Vec<usize>)
        requires
            self.wf(),
        ensures
            inner@.len() == self.scopes@.len(),
            forall|j: int|
                0 <= j < inner@.len() ==> (#[trigger] inner@[j]) as nat == capped(
                    nested(self.scopes@, now as nat, j, self.scopes@.len() as int),
                ),
    {
        let n = self.scopes.len();
        let mut inner: Vec<usize> = Vec::new();
        let mut i: usize = 0;
        while i < n
            invariant
                i <= n,
                inner@.len() == i,
                forall|j: int| 0 <= j < i ==> (#[trigger] inner@[j]) == 0,
            decreases n - i,
        {
            inner.push(0);
            i = i + 1;
        }
        let mut trail: Vec<usize> = Vec::new();
        let mut i: usize = 0;
        while i < n
            invariant
                n == self.scopes@.len(),
                i <= n,
                nested_in_order(self.scopes@),
                inner@.len() == n,
                forall|j: int|
                    0 <= j < n ==> (#[trigger] inner@[j]) as nat == capped(
                        nested(self.scopes@, now as nat, j, i as int),
                    ),
                follows(trail@, lineage(self.scopes@, i - 1)),
            decreases n - i,
        {
            let scope = &self.scopes[i];
            self.descend(&mut trail, i);
            if scope.depth > 0 {
                proof {
                    lemma_lineage(self.scopes@, i as int);
                    lemma_parent(self.scopes@, i as int);
                }
                let around = trail[scope.depth - 1];
                let sum = add_capped(inner[around], cost(scope, now));
                inner.set(around, sum);
            }
            assert forall|j: int| 0 <= j < n implies (#[trigger] inner@[j]) as nat == capped(
                nested(self.scopes@, now as nat, j, i + 1),
            ) by {
                lemma_parent(self.scopes@, i as int);
            }
            i = i + 1;
        }
        inner
    }

    /// Moves `trail` from the chain of scope `i - 1` to that of scope `i`.
    fn descend(&self, trail: &mut Vec<usize>, i: usize)
        requires
            nested_in_order(self.scopes@),
            i < self.scopes@.len(),
            follows(old(trail)@, lineage(self.scopes@, i - 1)),
        ensures
            follows(final(trail)@, lineage(self.scopes@, i as int)),
    {
        proof {
            lemma_lineage(self.scopes@, i as int);
            if i > 0 {
                lemma_lineage(self.scopes@, i - 1);
            }
        }
        trail.truncate(self.scopes[i].depth);
        trail.push(i);
    }

    /// The labels of the scopes at the positions in `trail`.
    fn labels(&self, trail: &Vec<usize>) -> (path: Vec<String>)
        requires
            forall|d: int| 0 <= d < trail@.len() ==> (#[trigger] trail@[d]) < self.scopes@.len(),
        ensures
            path@.len() == trail@.len(),
            forall|d: int|
                0 <= d < path@.len() ==> (#[trigger] path@[d]) == self.scopes@[trail@[d] as int].label,
    {
        let mut path: Vec<String> = Vec::new();
        let mut d: usize = 0;
        while d < trail.len()
            invariant
                d <= trail@.len(),
                path@.len() == d,
                forall|e: int| 0 <= e < trail@.len() ==> (#[trigger] trail@[e]) < self.scopes@.len(),
                forall|e: int| 0 <= e < d ==> (#[trigger] path@[e]) == self.scopes@[trail@[e] as int].label,
            decreases trail@.len() - d,
        {
            path.push(self.scopes[trail[d]].label.clone());
            d = d + 1;
        }
        path
    }
}

/// The cost of `scope`, counted up to `now` while it is open.
fn cost(scope: &Scope, now: usize) -> (d: usize)
    ensures
        d == delta(*scope, now as nat),
{
    let end = match scope.end {
        Some(end) => end,
        None => now,
    };
    if end >= scope.start {
        end - scope.start
    } else {
        0
    }
}

/// The sum of two counts, capped.
fn add_capped(a: usize, b: usize) -> (sum: usize)
    ensures
        sum == capped(a as nat + b as nat),
{
    if a > usize::MAX - b {
        usize::MAX
    } else {
        a + b
    }
}

/// `trail` holds the positions of `chain`.
pub open spec fn follows(trail: Seq<usize>, chain: Seq<int>) -> bool {
    trail.len() == chain.len() && forall|d: int| 0 <= d < trail.len() ==> trail[d] as int == chain[d]
}

/// A count as a machine integer holds it: the count itself, or the largest
/// machine integer where the count is larger.
pub open spec fn capped(n: nat) -> nat {
    if n <= usize::MAX {
        n
    } else {
        usize::MAX as nat
    }
}

} // verus!
