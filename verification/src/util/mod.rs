//! Cost accounting: how many native cells each named scope of a
//! construction pass allocated.
use crate::host::{advice, Context};
use context_tree::{is_count_report, ContextTree, ScopeCount};
use report::{flamegraph_text, render_counts, render_stacks, report_text};
use vstd::prelude::*;

pub mod context_tree;
pub mod report;

verus! {

/// A context together with the tree of the scopes opened on it. The
/// gadgets work on [`ctx`](ContextWrapper::ctx) as on any context; opening
/// and closing a scope records the number of cells allocated so far.
pub struct ContextWrapper<'ctx> {
    pub ctx: &'ctx mut Context,
    pub tree: ContextTree,
}

impl<'ctx> ContextWrapper<'ctx> {
    /// The context as it stands.
    pub open spec fn context(&self) -> Context {
        *self.ctx
    }

    /// The tree of scopes is well formed.
    pub open spec fn wf(&self) -> bool {
        self.tree.wf()
    }

    /// Wraps `ctx`, with no scope open.
    pub fn new(ctx: &'ctx mut Context) -> (wrapper: Self)
        ensures
            wrapper.wf(),
            wrapper.tree.scopes().len() == 0,
            wrapper.tree.open().len() == 0,
            wrapper.context() == *old(ctx),
            *final(wrapper.ctx) == *final(ctx),
    {
        Self { ctx, tree: ContextTree::new() }
    }

    fn num_cells(&self) -> (n: usize)
        ensures
            n == advice(self.context()).len(),
    {
        self.ctx.num_cells()
    }

    /// Opens a scope named `ctx` under the innermost open scope, at the
    /// current cell count.
    pub fn push_context(&mut self, level: log::Level, ctx: &str)
        requires
            old(self).wf(),
        ensures
            final(self).wf(),
            final(self).tree.opened_from(
                old(self).tree,
                ctx@,
                level,
                advice(old(self).context()).len(),
            ),
            final(self).context() == old(self).context(),
            *final(final(self).ctx) == *final(old(self).ctx),
    {
        let cells = self.num_cells();
        self.tree.push(ctx, level, cells);
    }

    /// Closes the innermost open scope at the current cell count.
    pub fn pop_context(&mut self)
        requires
            old(self).wf(),
        ensures
            final(self).wf(),
            final(self).tree.closed_from(old(self).tree, advice(old(self).context()).len()),
            final(self).context() == old(self).context(),
            *final(final(self).ctx) == *final(old(self).ctx),
    {
        let cells = self.num_cells();
        self.tree.pop(cells);
    }

    /// What is to be printed: the cost of each scope that cost at least
    /// `min_delta` cells, in the order of opening, a scope that is still
    /// open being counted up to the current cell count.
    pub fn print_cell_counts(&self, min_delta: usize) -> (report: Vec<ScopeCount>)
        ensures
            is_count_report(
                self.tree.scopes(),
                advice(self.context()).len(),
                min_delta as nat,
                report@,
            ),
    {
        self.tree.counts(self.num_cells(), min_delta)
    }

    /// What is to be written to the report file: the costs that
    /// [`print_cell_counts`](Self::print_cell_counts) lists, one scope to a
    /// line, indented by its depth.
    pub fn write_cell_counts(&self, min_delta: usize) -> (text: String)
        ensures
            text@ == report_text(
                self.tree.scopes(),
                advice(self.context()).len(),
                min_delta as nat,
                self.tree.scopes().len() as int,
            ),
    {
        let report = self.tree.counts(self.num_cells(), min_delta);
        render_counts(&report)
    }

    /// What is to be written to the flame-graph file: for each scope that
    /// cost at least `min_delta` cells, a line with the labels from its
    /// outermost scope down to itself, joined by semicolons, and the cells
    /// that it allocated itself, outside the scopes directly inside it.
    pub fn write_cell_counts_flamegraph(&self, min_delta: usize) -> (text: String)
        requires
            self.wf(),
        ensures
            text@ == flamegraph_text(
                self.tree.scopes(),
                advice(self.context()).len(),
                min_delta as nat,
                self.tree.scopes().len() as int,
            ),
    {
        let report = self.tree.stacks(self.num_cells(), min_delta);
        render_stacks(&report)
    }
}

} // verus!
