use field_emulation::fields::fp::FpChip;
use field_emulation::fields::FieldChip;
use field_emulation::host::Context;
use field_emulation::util::context_tree::{ContextTree, ScopeCount, StackCount};
use field_emulation::util::report::{render_counts, render_stacks};
use field_emulation::util::ContextWrapper;
use log::Level;

const P: u64 = 0xFFFF_FFFF_0000_0001;

fn allocate(ctx: &mut Context, cells: u64) {
    let chip = FpChip::new(P);
    for i in 0..cells {
        chip.load_witness(ctx, i);
    }
}

fn count(label: &str, level: Level, depth: usize, delta: usize) -> ScopeCount {
    ScopeCount { label: label.to_string(), level, depth, delta }
}

fn stack(path: &[&str], count: usize) -> StackCount {
    StackCount { path: path.iter().map(|l| l.to_string()).collect(), count }
}

#[test]
fn nested_scopes_report_total_and_inner_cost() {
    let mut ctx = Context::new(8).unwrap();
    let mut wrapper = ContextWrapper::new(&mut ctx);
    wrapper.push_context(Level::Info, "A");
    allocate(wrapper.ctx, 5);
    wrapper.push_context(Level::Debug, "B");
    allocate(wrapper.ctx, 3);
    wrapper.pop_context();
    wrapper.pop_context();

    let report = wrapper.print_cell_counts(0);
    assert_eq!(report, vec![count("A", Level::Info, 0, 8), count("B", Level::Debug, 1, 3)]);
    assert_eq!(wrapper.write_cell_counts(0), "A: 8\n  B: 3\n");
    assert_eq!(wrapper.write_cell_counts_flamegraph(0), "A 5\nA;B 3\n");
}

#[test]
fn reports_leave_out_scopes_below_the_threshold() {
    let mut ctx = Context::new(8).unwrap();
    let mut wrapper = ContextWrapper::new(&mut ctx);
    wrapper.push_context(Level::Info, "A");
    allocate(wrapper.ctx, 5);
    wrapper.push_context(Level::Info, "B");
    allocate(wrapper.ctx, 3);
    wrapper.pop_context();
    wrapper.pop_context();

    assert_eq!(wrapper.print_cell_counts(3).len(), 2);
    assert_eq!(wrapper.print_cell_counts(4), vec![count("A", Level::Info, 0, 8)]);
    assert_eq!(wrapper.print_cell_counts(8), vec![count("A", Level::Info, 0, 8)]);
    assert_eq!(wrapper.print_cell_counts(9), vec![]);
    assert_eq!(wrapper.write_cell_counts(4), "A: 8\n");
    assert_eq!(wrapper.write_cell_counts(9), "");
    // The scope's own cells do not depend on which scopes are listed.
    assert_eq!(wrapper.write_cell_counts_flamegraph(4), "A 5\n");
    assert_eq!(wrapper.write_cell_counts_flamegraph(9), "");
}

#[test]
fn an_open_scope_is_counted_up_to_now() {
    let mut ctx = Context::new(8).unwrap();
    allocate(&mut ctx, 2);
    let mut wrapper = ContextWrapper::new(&mut ctx);
    assert_eq!(wrapper.print_cell_counts(0), vec![]);
    wrapper.push_context(Level::Warn, "outer");
    allocate(wrapper.ctx, 4);
    assert_eq!(wrapper.print_cell_counts(0), vec![count("outer", Level::Warn, 0, 4)]);
    wrapper.push_context(Level::Trace, "inner");
    assert_eq!(
        wrapper.print_cell_counts(0),
        vec![count("outer", Level::Warn, 0, 4), count("inner", Level::Trace, 1, 0)]
    );
    allocate(wrapper.ctx, 7);
    assert_eq!(wrapper.write_cell_counts(0), "outer: 11\n  inner: 7\n");
    assert_eq!(wrapper.write_cell_counts_flamegraph(0), "outer 4\nouter;inner 7\n");
    wrapper.pop_context();
    allocate(wrapper.ctx, 1);
    assert_eq!(wrapper.write_cell_counts(0), "outer: 12\n  inner: 7\n");
    assert_eq!(wrapper.write_cell_counts_flamegraph(0), "outer 5\nouter;inner 7\n");
}

#[test]
fn pop_without_an_open_scope_changes_nothing() {
    let mut ctx = Context::new(8).unwrap();
    let mut wrapper = ContextWrapper::new(&mut ctx);
    wrapper.pop_context();
    assert_eq!(wrapper.print_cell_counts(0), vec![]);
    wrapper.push_context(Level::Info, "only");
    allocate(wrapper.ctx, 1);
    wrapper.pop_context();
    allocate(wrapper.ctx, 1);
    wrapper.pop_context();
    assert_eq!(wrapper.print_cell_counts(0), vec![count("only", Level::Info, 0, 1)]);
}

#[test]
fn the_wrapped_context_serves_the_chip() {
    let chip = FpChip::new(P);
    let mut ctx = Context::new(8).unwrap();
    let mut wrapper = ContextWrapper::new(&mut ctx);
    wrapper.push_context(Level::Info, "mul");
    let a = chip.load_constant(wrapper.ctx, 6);
    let b = chip.load_constant(wrapper.ctx, 7);
    let c = chip.mul(wrapper.ctx, &a, &b);
    wrapper.pop_context();
    assert_eq!(c.value, 42);
    let report = wrapper.print_cell_counts(0);
    assert_eq!(report.len(), 1);
    assert_eq!(report[0].delta, wrapper.ctx.num_cells());
    assert_eq!(ctx.is_satisfied(10), Some(true));
}

#[test]
fn siblings_and_deeper_nesting() {
    let mut tree = ContextTree::new();
    tree.push("root", Level::Info, 0);
    tree.push("left", Level::Info, 10);
    tree.push("leaf", Level::Info, 15);
    tree.pop(25);
    tree.pop(40);
    tree.push("right", Level::Info, 50);
    tree.pop(1050);
    tree.pop(2000);
    tree.push("second root", Level::Error, 2000);
    tree.pop(2004);

    assert_eq!(
        tree.counts(9999, 0),
        vec![
            count("root", Level::Info, 0, 2000),
            count("left", Level::Info, 1, 30),
            count("leaf", Level::Info, 2, 10),
            count("right", Level::Info, 1, 1000),
            count("second root", Level::Error, 0, 4),
        ]
    );
    assert_eq!(
        tree.stacks(9999, 0),
        vec![
            stack(&["root"], 970),
            stack(&["root", "left"], 20),
            stack(&["root", "left", "leaf"], 10),
            stack(&["root", "right"], 1000),
            stack(&["second root"], 4),
        ]
    );
    assert_eq!(
        render_counts(&tree.counts(9999, 0)),
        "root: 2000\n  left: 30\n    leaf: 10\n  right: 1000\nsecond root: 4\n"
    );
    assert_eq!(
        render_stacks(&tree.stacks(9999, 0)),
        "root 970\nroot;left 20\nroot;left;leaf 10\nroot;right 1000\nsecond root 4\n"
    );
    // Only the costly scopes, each still with its whole path.
    assert_eq!(
        render_stacks(&tree.stacks(9999, 30)),
        "root 970\nroot;left 20\nroot;right 1000\n"
    );
    assert_eq!(render_counts(&tree.counts(9999, 31)), "root: 2000\n  right: 1000\n");
}

#[test]
fn a_count_that_runs_backwards_costs_nothing() {
    let mut tree = ContextTree::new();
    tree.push("shrunk", Level::Info, 10);
    tree.pop(4);
    tree.push("open", Level::Info, 10);
    assert_eq!(
        tree.counts(3, 0),
        vec![count("shrunk", Level::Info, 0, 0), count("open", Level::Info, 0, 0)]
    );
    assert_eq!(tree.counts(3, 1), vec![]);
    // Scopes inside may claim more than the scope around them has.
    let mut tree = ContextTree::new();
    tree.push("outer", Level::Info, 0);
    tree.push("inner", Level::Info, 0);
    tree.pop(9);
    tree.pop(5);
    assert_eq!(tree.stacks(0, 0), vec![stack(&["outer"], 0), stack(&["outer", "inner"], 9)]);
}

#[test]
fn costs_inside_a_scope_are_capped_not_wrapped() {
    let mut tree = ContextTree::new();
    tree.push("outer", Level::Info, 0);
    tree.push("first", Level::Info, 0);
    tree.pop(usize::MAX);
    tree.push("second", Level::Info, 0);
    tree.pop(usize::MAX);
    tree.pop(usize::MAX);
    assert_eq!(
        tree.stacks(0, 0),
        vec![
            stack(&["outer"], 0),
            stack(&["outer", "first"], usize::MAX),
            stack(&["outer", "second"], usize::MAX),
        ]
    );
}

#[test]
fn lines_render_numbers_in_decimal() {
    for (delta, text) in [
        (0usize, "x: 0"),
        (7, "x: 7"),
        (10, "x: 10"),
        (109, "x: 109"),
        (1_000_000, "x: 1000000"),
        (18_446_744_073_709_551_615, "x: 18446744073709551615"),
    ] {
        assert_eq!(count("x", Level::Info, 0, delta).line(), text);
    }
    assert_eq!(count("deep", Level::Info, 3, 12).line(), "      deep: 12");
    assert_eq!(count("", Level::Info, 1, 5).line(), "  : 5");
    assert_eq!(stack(&["a", "b c", "d"], 90).line(), "a;b c;d 90");
    assert_eq!(stack(&["solo"], 0).line(), "solo 0");
    assert_eq!(stack(&[], 3).line(), " 3");
}
