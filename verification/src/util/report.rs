//! The text of the cost reports: an indented list of scopes with their
//! costs, and stack counts in the form that flame-graph tools read.
use super::context_tree::{
    counted, delta, is_count_report, is_stack_report, kept, lineage, own, stacked, Scope, ScopeCount,
    StackCount,
};
use vstd::prelude::*;
use vstd::string::StringExecFns;

verus! {

/// The decimal digit `d`.
pub open spec fn digit_char(d: nat) -> char {
    if d == 0 {
        '0'
    } else if d == 1 {
        '1'
    } else if d == 2 {
        '2'
    } else if d == 3 {
        '3'
    } else if d == 4 {
        '4'
    } else if d == 5 {
        '5'
    } else if d == 6 {
        '6'
    } else if d == 7 {
        '7'
    } else if d == 8 {
        '8'
    } else {
        '9'
    }
}

/// `n` in decimal, without leading zeros.
pub open spec fn decimal_text(n: nat) -> Seq<char>
    decreases n,
{
    if n < 10 {
        seq![digit_char(n)]
    } else {
        decimal_text(n / 10).push(digit_char(n % 10))
    }
}

/// Two spaces for each level of nesting.
pub open spec fn indent_text(depth: nat) -> Seq<char>
    decreases depth,
{
    if depth == 0 {
        Seq::empty()
    } else {
        indent_text((depth - 1) as nat).push(' ').push(' ')
    }
}

/// One line of the indented report, without its line end: the label,
/// indented by the scope's depth, a colon and the cost.
pub open spec fn count_line(count: ScopeCount) -> Seq<char> {
    indent_text(count.depth as nat) + count.label@ + seq![':', ' '] + decimal_text(count.delta as nat)
}

/// The indented report: one line for each entry, each ended by a line feed.
pub open spec fn counts_text(report: Seq<ScopeCount>) -> Seq<char>
    decreases report.len(),
{
    if report.len() == 0 {
        Seq::empty()
    } else {
        counts_text(report.drop_last()) + count_line(report.last()).push('\n')
    }
}

/// The labels of a path joined by semicolons.
pub open spec fn path_text(path: Seq<String>) -> Seq<char>
    decreases path.len(),
{
    if path.len() == 0 {
        Seq::empty()
    } else if path.len() == 1 {
        path[0]@
    } else {
        path_text(path.drop_last()).push(';') + path.last()@
    }
}

/// One line of the stack counts, without its line end: the path, a space
/// and the count.
pub open spec fn stack_line(line: StackCount) -> Seq<char> {
    path_text(line.path@).push(' ') + decimal_text(line.count as nat)
}

/// The stack counts: one line for each entry, each ended by a line feed.
pub open spec fn stacks_text(report: Seq<StackCount>) -> Seq<char>
    decreases report.len(),
{
    if report.len() == 0 {
        Seq::empty()
    } else {
        stacks_text(report.drop_last()) + stack_line(report.last()).push('\n')
    }
}

/// The line of `scope` in the indented report at the cell count `now`.
pub open spec fn scope_line(scope: Scope, now: nat) -> Seq<char> {
    indent_text(scope.depth as nat) + scope.label@ + seq![':', ' '] + decimal_text(delta(scope, now))
}

/// The indented report of the first `n` of `scopes` at the cell count
/// `now`: the line of each scope that cost at least `min_delta`, in the order
/// of opening, each ended by a line feed.
pub open spec fn report_text(scopes: Seq<Scope>, now: nat, min_delta: nat, n: int) -> Seq<char>
    decreases n,
{
    if n <= 0 {
        Seq::empty()
    } else if delta(scopes[n - 1], now) >= min_delta {
        report_text(scopes, now, min_delta, n - 1) + scope_line(scopes[n - 1], now).push('\n')
    } else {
        report_text(scopes, now, min_delta, n - 1)
    }
}

/// The labels of the scopes at the positions of `chain`, joined by
/// semicolons.
pub open spec fn chain_text(scopes: Seq<Scope>, chain: Seq<int>) -> Seq<char>
    decreases chain.len(),
{
    if chain.len() == 0 {
        Seq::empty()
    } else if chain.len() == 1 {
        scopes[chain[0]].label@
    } else {
        chain_text(scopes, chain.drop_last()).push(';') + scopes[chain.last()].label@
    }
}

/// The line of scope `i` in the stack counts at the cell count `now`: the
/// labels from its outermost scope down to itself, a space, and the cells
/// that it allocated itself.
pub open spec fn scope_stack_line(scopes: Seq<Scope>, now: nat, i: int) -> Seq<char> {
    chain_text(scopes, lineage(scopes, i)).push(' ') + decimal_text(own(scopes, now, i))
}

/// The stack counts of the first `n` of `scopes` at the cell count `now`:
/// the line of each scope that cost at least `min_delta`, in the order of
/// opening, each ended by a line feed.
pub open spec fn flamegraph_text(scopes: Seq<Scope>, now: nat, min_delta: nat, n: int) -> Seq<char>
    decreases n,
{
    if n <= 0 {
        Seq::empty()
    } else if delta(scopes[n - 1], now) >= min_delta {
        flamegraph_text(scopes, now, min_delta, n - 1) + scope_stack_line(scopes, now, n - 1).push(
            '\n',
        )
    } else {
        flamegraph_text(scopes, now, min_delta, n - 1)
    }
}

/// The text of a report of the first `n` scopes is the indented report of
/// those scopes.
proof fn lemma_counts_text(
    scopes: Seq<Scope>,
    now: nat,
    min_delta: nat,
    n: int,
    report: Seq<ScopeCount>,
)
    requires
        0 <= n <= scopes.len(),
        report.len() == kept(scopes, now, min_delta, n).len(),
        forall|k: int|
            0 <= k < report.len() ==> counted(
                scopes[kept(scopes, now, min_delta, n)[k]],
                now,
                #[trigger] report[k],
            ),
    ensures
        counts_text(report) == report_text(scopes, now, min_delta, n),
    decreases n,
{
    if n > 0 {
        if delta(scopes[n - 1], now) >= min_delta {
            lemma_counts_text(scopes, now, min_delta, n - 1, report.drop_last());
        } else {
            lemma_counts_text(scopes, now, min_delta, n - 1, report);
        }
    }
}

/// A path that holds the labels of a chain reads as the chain does.
proof fn lemma_path_text(scopes: Seq<Scope>, chain: Seq<int>, path: Seq<String>)
    requires
        path.len() == chain.len(),
        forall|d: int| 0 <= d < path.len() ==> (#[trigger] path[d]) == scopes[chain[d]].label,
    ensures
        path_text(path) == chain_text(scopes, chain),
    decreases path.len(),
{
    if path.len() > 1 {
        lemma_path_text(scopes, chain.drop_last(), path.drop_last());
    }
}

/// The text of the stack counts of the first `n` scopes is their
/// flame-graph text.
proof fn lemma_stacks_text(
    scopes: Seq<Scope>,
    now: nat,
    min_delta: nat,
    n: int,
    report: Seq<StackCount>,
)
    requires
        0 <= n <= scopes.len(),
        report.len() == kept(scopes, now, min_delta, n).len(),
        forall|k: int|
            0 <= k < report.len() ==> stacked(
                scopes,
                now,
                kept(scopes, now, min_delta, n)[k],
                #[trigger] report[k],
            ),
    ensures
        stacks_text(report) == flamegraph_text(scopes, now, min_delta, n),
    decreases n,
{
    if n > 0 {
        if delta(scopes[n - 1], now) >= min_delta {
            lemma_stacks_text(scopes, now, min_delta, n - 1, report.drop_last());
            lemma_path_text(scopes, lineage(scopes, n - 1), report.last().path@);
        } else {
            lemma_stacks_text(scopes, now, min_delta, n - 1, report);
        }
    }
}

fn digit(d: usize) -> (s: &'static str)
    requires
        d < 10,
    ensures
        s@ == seq![digit_char(d as nat)],
{
    proof {
        reveal_strlit("0");
        reveal_strlit("1");
        reveal_strlit("2");
        reveal_strlit("3");
        reveal_strlit("4");
        reveal_strlit("5");
        reveal_strlit("6");
        reveal_strlit("7");
        reveal_strlit("8");
        reveal_strlit("9");
    }
    let s = if d == 0 {
        "0"
    } else if d == 1 {
        "1"
    } else if d == 2 {
        "2"
    } else if d == 3 {
        "3"
    } else if d == 4 {
        "4"
    } else if d == 5 {
        "5"
    } else if d == 6 {
        "6"
    } else if d == 7 {
        "7"
    } else if d == 8 {
        "8"
    } else {
        "9"
    };
    s
}

/// Appends `n` in decimal to `text`.
fn append_decimal(text: &mut String, n: usize)
    ensures
        final(text)@ == old(text)@ + decimal_text(n as nat),
    decreases n,
{
    if n >= 10 {
        append_decimal(text, n / 10);
    }
    text.append(digit(n % 10));
}

/// Appends the indentation of `depth` levels to `text`.
fn append_indent(text: &mut String, depth: usize)
    ensures
        final(text)@ == old(text)@ + indent_text(depth as nat),
{
    let mut d: usize = 0;
    while d < depth
        invariant
            d <= depth,
            text@ == old(text)@ + indent_text(d as nat),
        decreases depth - d,
    {
        proof {
            reveal_strlit("  ");
        }
        text.append("  ");
        d = d + 1;
        assert(text@ =~= old(text)@ + indent_text(d as nat));
    }
}

/// Appends the labels of `path`, joined by semicolons, to `text`.
fn append_path(text: &mut String, path: &Vec<String>)
    ensures
        final(text)@ == old(text)@ + path_text(path@),
{
    let mut d: usize = 0;
    while d < path.len()
        invariant
            d <= path@.len(),
            text@ == old(text)@ + path_text(path@.take(d as int)),
        decreases path@.len() - d,
    {
        proof {
            reveal_strlit(";");
        }
        if d > 0 {
            text.append(";");
        }
        text.append(path[d].as_str());
        d = d + 1;
        assert(text@ =~= old(text)@ + path_text(path@.take(d as int))) by {
            assert(path@.take(d as int).drop_last() =~= path@.take(d - 1));
        }
    }
    assert(path@.take(path@.len() as int) =~= path@);
}

impl ScopeCount {
    /// The entry as one line of the indented report.
    pub fn line(&self) -> (text: String)
        ensures
            text@ == count_line(*self),
    {
        let mut text = String::new();
        append_indent(&mut text, self.depth);
        text.append(self.label.as_str());
        proof {
            reveal_strlit(": ");
        }
        text.append(": ");
        append_decimal(&mut text, self.delta);
        assert(text@ =~= count_line(*self));
        text
    }
}

impl StackCount {
    /// The entry as one line of the stack counts.
    pub fn line(&self) -> (text: String)
        ensures
            text@ == stack_line(*self),
    {
        let mut text = String::new();
        append_path(&mut text, &self.path);
        proof {
            reveal_strlit(" ");
        }
        text.append(" ");
        append_decimal(&mut text, self.count);
        assert(text@ =~= stack_line(*self));
        text
    }
}

/// The indented report as text.
pub fn render_counts(report: &Vec<ScopeCount>) -> (text: String)
    ensures
        text@ == counts_text(report@),
        forall|scopes: Seq<Scope>, now: nat, min_delta: nat|
            is_count_report(scopes, now, min_delta, report@) ==> text@ == #[trigger] report_text(
                scopes,
                now,
                min_delta,
                scopes.len() as int,
            ),
{
    let mut text = String::new();
    let mut i: usize = 0;
    while i < report.len()
        invariant
            i <= report@.len(),
            text@ == counts_text(report@.take(i as int)),
        decreases report@.len() - i,
    {
        proof {
            reveal_strlit("\n");
        }
        let line = report[i].line();
        text.append(line.as_str());
        text.append("\n");
        i = i + 1;
        assert(text@ =~= counts_text(report@.take(i as int))) by {
            assert(report@.take(i as int).drop_last() =~= report@.take(i - 1));
        }
    }
    assert(report@.take(report@.len() as int) =~= report@);
    assert forall|scopes: Seq<Scope>, now: nat, min_delta: nat|
        is_count_report(scopes, now, min_delta, report@) implies text@ == #[trigger] report_text(
        scopes,
        now,
        min_delta,
        scopes.len() as int,
    ) by {
        lemma_counts_text(scopes, now, min_delta, scopes.len() as int, report@);
    }
    text
}

/// The stack counts as text.
pub fn render_stacks(report: &Vec<StackCount>) -> (text: String)
    ensures
        text@ == stacks_text(report@),
        forall|scopes: Seq<Scope>, now: nat, min_delta: nat|
            is_stack_report(scopes, now, min_delta, report@) ==> text@ == #[trigger] flamegraph_text(
                scopes,
                now,
                min_delta,
                scopes.len() as int,
            ),
{
    let mut text = String::new();
    let mut i: usize = 0;
    while i < report.len()
        invariant
            i <= report@.len(),
            text@ == stacks_text(report@.take(i as int)),
        decreases report@.len() - i,
    {
        proof {
            reveal_strlit("\n");
        }
        let line = report[i].line();
        text.append(line.as_str());
        text.append("\n");
        i = i + 1;
        assert(text@ =~= stacks_text(report@.take(i as int))) by {
            assert(report@.take(i as int).drop_last() =~= report@.take(i - 1));
        }
    }
    assert(report@.take(report@.len() as int) =~= report@);
    assert forall|scopes: Seq<Scope>, now: nat, min_delta: nat|
        is_stack_report(scopes, now, min_delta, report@) implies text@ == #[trigger] flamegraph_text(
        scopes,
        now,
        min_delta,
        scopes.len() as int,
    ) by {
        lemma_stacks_text(scopes, now, min_delta, scopes.len() as int, report@);
    }
    text
}

} // verus!
