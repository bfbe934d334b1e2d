//! The host capability surface: one halo2-base circuit under construction.
//!
//! Everything the field gadgets need from the proof system is gathered here:
//! allocating native cells, the multiply-add gate, the native equality
//! assertion, the lookup-backed "less than" gadget, and the mock prover that
//! says whether the constraints placed so far are met. The gadgets see the
//! circuit only through three abstract values: the integers held by its
//! advice cells, whether its constraints are satisfied, and the width of its
//! lookup table.
use halo2_base::gates::circuit::builder::BaseCircuitBuilder;
use halo2_base::gates::{GateInstructions, RangeChip, RangeInstructions};
use halo2_base::halo2_proofs::dev::MockProver;
use halo2_base::halo2_proofs::halo2curves::bn256::Fr;
use halo2_base::utils::fe_to_biguint;
use vstd::arithmetic::power2::{lemma2_to64, lemma_pow2_strictly_increases, lemma_pow2_unfold, pow2};
use vstd::prelude::*;

verus! {

/// Rows at the end of every column that the proof system keeps for itself.
pub const UNUSABLE_ROWS: usize = 9;

/// The largest table width, in bits, that the lookup argument accepts.
pub const MAX_LOOKUP_BITS: usize = 28;

/// The largest circuit height, as a power of two, that [`Context::is_satisfied`] checks.
pub const MAX_K: usize = 20;

/// The order of the native field, the scalar field of BN254.
pub open spec fn native_order() -> nat {
    0x30644e72e131a029b85045b68181585d2833e84879b9709143e1f593f0000001nat
}

/// The construction context of one circuit: a halo2-base circuit builder, used
/// through its main advice column in the first phase, together with the range
/// chip that shares its lookup tables.
///
/// A context is made by [`Context::new`] only, so it always records
/// constraints (it is never in witness-generation-only mode) and its range
/// chip always matches its lookup table.
#[verifier::external_body]
pub struct Context {
    builder: BaseCircuitBuilder<Fr>,
    range: RangeChip<Fr>,
}

/// A native cell: the position of an advice cell in a [`Context`].
#[derive(Clone, Copy, Debug, PartialEq, Eq)]
pub struct Cell {
    pub offset: usize,
}

/// The integers, each below [`native_order`], that the advice cells of the
/// context's main column hold, in the order in which they were allocated.
pub uninterp spec fn advice(ctx: Context) -> Seq<nat>;

/// Whether the values assigned so far meet every constraint placed so far:
/// the verdict of halo2's mock prover on the circuit.
pub uninterp spec fn satisfied(ctx: Context) -> bool;

/// The number of bits of the lookup table that the context was made with.
pub uninterp spec fn table_bits(ctx: Context) -> nat;

/// `cell` is one of the context's cells and holds `value`.
pub open spec fn holds(ctx: Context, cell: Cell, value: nat) -> bool {
    cell.offset < advice(ctx).len() && advice(ctx)[cell.offset as int] == value
}

/// `after` is `before` with zero or more cells appended: nothing that was
/// placed has been removed or changed.
pub open spec fn extends(before: Context, after: Context) -> bool {
    &&& advice(before).len() <= advice(after).len()
    &&& forall|i: int| 0 <= i < advice(before).len() ==> advice(after)[i] == advice(before)[i]
    &&& table_bits(after) == table_bits(before)
}

/// A cell keeps its value while the context grows.
pub proof fn lemma_holds_extends(before: Context, after: Context, cell: Cell, value: nat)
    requires
        holds(before, cell, value),
        extends(before, after),
    ensures
        holds(after, cell, value),
{
}

/// Growth composes.
pub proof fn lemma_extends_transitive(a: Context, b: Context, c: Context)
    requires
        extends(a, b),
        extends(b, c),
    ensures
        extends(a, c),
{
}

/// `2^k` as a machine integer.
fn two_to_the(k: usize) -> (r: usize)
    requires
        k <= MAX_K,
    ensures
        r == pow2(k as nat),
        r <= 0x10_0000,
        k >= 5 ==> r >= 32,
{
    let mut r: usize = 1;
    let mut i: usize = 0;
    proof {
        lemma2_to64();
        if k < MAX_K {
            lemma_pow2_strictly_increases(k as nat, MAX_K as nat);
        }
        if 5 < k {
            lemma_pow2_strictly_increases(5, k as nat);
        }
    }
    while i < k
        invariant
            i <= k,
            r == pow2(i as nat),
            pow2(k as nat) <= 0x10_0000,
        decreases k - i,
    {
        proof {
            lemma_pow2_unfold((i + 1) as nat);
            if i + 1 < k {
                lemma_pow2_strictly_increases((i + 1) as nat, k as nat);
            }
        }
        r = r * 2;
        i = i + 1;
    }
    r
}

impl Context {
    /// `BaseCircuitBuilder::default`, `use_lookup_bits`, `main(0)` and
    /// `range_chip`: a builder that records constraints, with its lookup
    /// table width set, its main context spawned and a range chip on its
    /// lookup managers. Claimed: the new circuit has no cell, is satisfied,
    /// and has the table width asked for. `RangeChip::new` shifts and divides
    /// by the width, and the table's configuration refuses more than 28 bits.
    #[verifier::external_body]
    fn build(lookup_bits: usize) -> (ctx: Context)
        requires
            0 < lookup_bits <= MAX_LOOKUP_BITS,
        ensures
            advice(ctx) == Seq::<nat>::empty(),
            satisfied(ctx),
            table_bits(ctx) == lookup_bits,
    {
        let mut builder = BaseCircuitBuilder::<Fr>::default().use_lookup_bits(lookup_bits);
        builder.main(0);
        let range = builder.range_chip();
        Context { builder, range }
    }

    /// The length of the public `advice` column of the main context.
    #[verifier::external_body]
    fn len(&self) -> (n: usize)
        ensures
            n == advice(*self).len(),
    {
        self.builder.core().phase_manager[0].threads[0].advice.len()
    }

    /// `RangeInstructions::lookup_bits` of the range chip.
    #[verifier::external_body]
    fn bits(&self) -> (b: usize)
        ensures
            b == table_bits(*self),
    {
        self.range.lookup_bits()
    }

    /// `Context::get` and `AssignedValue::value` at an existing cell, read
    /// as an integer by `fe_to_biguint`: the value of the cell where a
    /// `u64` holds it. `Context::get` refuses an offset outside the column.
    #[verifier::external_body]
    fn value_at(&self, offset: usize) -> (value: Option<u64>)
        requires
            offset < advice(*self).len(),
        ensures
            value matches Some(v) ==> advice(*self)[offset as int] == v,
            value is None ==> advice(*self)[offset as int] > u64::MAX,
    {
        let cell = self.builder.core().phase_manager[0].threads[0].get(offset as isize);
        u64::try_from(fe_to_biguint(cell.value())).ok()
    }

    /// `Context::load_witness` with the field element of `x`: one cell is
    /// appended, it holds `x`, and no constraint is placed on it.
    #[verifier::external_body]
    pub(crate) fn place_witness(&mut self, x: u64) -> (cell: Cell)
        ensures
            advice(*final(self)) == advice(*old(self)).push(x as nat),
            cell.offset == advice(*old(self)).len(),
            satisfied(*final(self)) == satisfied(*old(self)),
            table_bits(*final(self)) == table_bits(*old(self)),
    {
        let placed = self.builder.main(0).load_witness(Fr::from(x));
        Cell { offset: placed.cell.unwrap().offset }
    }

    /// `Context::load_constant` with the field element of `x`: one cell is
    /// appended and tied to the constant `x`, which it holds.
    #[verifier::external_body]
    pub(crate) fn place_constant(&mut self, x: u64) -> (cell: Cell)
        ensures
            advice(*final(self)) == advice(*old(self)).push(x as nat),
            cell.offset == advice(*old(self)).len(),
            satisfied(*final(self)) == satisfied(*old(self)),
            table_bits(*final(self)) == table_bits(*old(self)),
    {
        let placed = self.builder.main(0).load_constant(Fr::from(x));
        Cell { offset: placed.cell.unwrap().offset }
    }

    /// `GateInstructions::mul_add` on three existing cells: four cells
    /// `| c | a | b | a * b + c |` are appended under one multiply-add
    /// constraint, the first three tied to the given cells, whose values
    /// they repeat, and the last the result, computed in the native field.
    /// These constraints are met by the values so assigned. `Context::get`
    /// refuses an offset outside the column.
    #[verifier::external_body]
    pub(crate) fn gate_mul_add(&mut self, a: Cell, b: Cell, c: Cell) -> (out: Cell)
        requires
            a.offset < advice(*old(self)).len(),
            b.offset < advice(*old(self)).len(),
            c.offset < advice(*old(self)).len(),
        ensures
            advice(*final(self)) == advice(*old(self)).push(
                advice(*old(self))[c.offset as int],
            ).push(advice(*old(self))[a.offset as int]).push(
                advice(*old(self))[b.offset as int],
            ).push(
                (advice(*old(self))[a.offset as int] * advice(*old(self))[b.offset as int]
                    + advice(*old(self))[c.offset as int]) % native_order(),
            ),
            out.offset == advice(*old(self)).len() + 3,
            satisfied(*final(self)) == satisfied(*old(self)),
            table_bits(*final(self)) == table_bits(*old(self)),
    {
        let ctx = self.builder.main(0);
        let (a, b, c) = (ctx.get(a.offset as isize), ctx.get(b.offset as isize), ctx.get(c.offset as isize));
        let placed = self.range.gate().mul_add(ctx, a, b, c);
        Cell { offset: placed.cell.unwrap().offset }
    }

    /// `Context::constrain_equal` on two existing cells: an equality
    /// constraint between them is recorded and no cell is added. From then on
    /// the circuit is satisfied exactly if it was and the two cells hold the
    /// same value.
    #[verifier::external_body]
    pub(crate) fn constrain_equal(&mut self, a: Cell, b: Cell)
        requires
            a.offset < advice(*old(self)).len(),
            b.offset < advice(*old(self)).len(),
        ensures
            advice(*final(self)) == advice(*old(self)),
            satisfied(*final(self)) == (satisfied(*old(self)) && advice(*old(self))[a.offset as int]
                == advice(*old(self))[b.offset as int]),
            table_bits(*final(self)) == table_bits(*old(self)),
    {
        let ctx = self.builder.main(0);
        let (a, b) = (ctx.get(a.offset as isize), ctx.get(b.offset as isize));
        ctx.constrain_equal(&a, &b);
    }

    /// `RangeInstructions::check_less_than` on two existing cells: it
    /// constrains the first to be less than the second, for values of at
    /// most `num_bits` bits, by appending seven cells and the range check of
    /// the first of them. Claimed: the column only grows, and where both
    /// values have at most `num_bits` bits the circuit is then satisfied
    /// exactly if it was and the first value is the smaller. Nothing is
    /// claimed of the verdict for wider values. The gadget refuses a width
    /// that leaves the native field no spare bit.
    #[verifier::external_body]
    pub(crate) fn check_less_than(&mut self, a: Cell, b: Cell, num_bits: usize)
        requires
            a.offset < advice(*old(self)).len(),
            b.offset < advice(*old(self)).len(),
            0 < num_bits < 253,
        ensures
            extends(*old(self), *final(self)),
            advice(*final(self)).len() >= advice(*old(self)).len() + 7,
            advice(*old(self))[a.offset as int] < pow2(num_bits as nat) && advice(
                *old(self),
            )[b.offset as int] < pow2(num_bits as nat) ==> satisfied(*final(self)) == (satisfied(
                *old(self),
            ) && advice(*old(self))[a.offset as int] < advice(*old(self))[b.offset as int]),
    {
        let ctx = self.builder.main(0);
        let (a, b) = (ctx.get(a.offset as isize), ctx.get(b.offset as isize));
        self.range.check_less_than(ctx, a, b, num_bits);
    }

    /// `RangeInstructions::check_less_than_safe` on an existing cell: it
    /// range-checks the cell to the bits of `bound`, rounded up to whole
    /// lookups, and then constrains it to be less than the constant
    /// `bound`. Claimed: the column only grows, and the circuit is then
    /// satisfied exactly if it was and the value is below `bound`, however
    /// wide the value is. For a `u64` bound the rounded width, at most 91
    /// bits, leaves the native field its spare bit.
    #[verifier::external_body]
    pub(crate) fn check_less_than_safe(&mut self, a: Cell, bound: u64)
        requires
            a.offset < advice(*old(self)).len(),
            bound > 0,
        ensures
            extends(*old(self), *final(self)),
            advice(*final(self)).len() >= advice(*old(self)).len() + 7,
            satisfied(*final(self)) == (satisfied(*old(self)) && advice(*old(self))[a.offset as int]
                < bound),
    {
        let ctx = self.builder.main(0);
        let a = ctx.get(a.offset as isize);
        self.range.check_less_than_safe(ctx, a, bound);
    }

    /// `MockProver::run` and `MockProver::verify` on a deep copy of the
    /// builder, laid out by `calculate_params` on `2^k` rows of which
    /// `unusable_rows` are set aside: the verdict on the circuit as it
    /// stands. The bounds keep the lookup table and all the cells within
    /// the usable rows of one column each, where the layout cannot run out
    /// of rows; the constraint system itself sets nine rows aside.
    #[verifier::external_body]
    fn mock_verdict(&self, k: usize, unusable_rows: usize) -> (ok: bool)
        requires
            table_bits(*self) < k <= MAX_K,
            5 <= k,
            UNUSABLE_ROWS <= unusable_rows,
            advice(*self).len() + unusable_rows + 7 <= pow2(k as nat),
        ensures
            ok == satisfied(*self),
    {
        let mut builder = self.builder.deep_clone();
        builder.set_k(k);
        builder.calculate_params(Some(unusable_rows));
        match MockProver::run(k as u32, &builder, vec![]) {
            Ok(prover) => prover.verify().is_ok(),
            Err(_) => false,
        }
    }

    /// A new, empty circuit whose range checks use a lookup table of
    /// `lookup_bits` bits; `None` where the host has no table of that width.
    pub fn new(lookup_bits: usize) -> (made: Option<Context>)
        ensures
            made is Some <==> 0 < lookup_bits <= MAX_LOOKUP_BITS,
            made matches Some(ctx) ==> {
                &&& advice(ctx).len() == 0
                &&& satisfied(ctx)
                &&& table_bits(ctx) == lookup_bits
            },
    {
        if 0 < lookup_bits && lookup_bits <= MAX_LOOKUP_BITS {
            Some(Context::build(lookup_bits))
        } else {
            None
        }
    }

    /// The number of native cells allocated so far.
    pub fn num_cells(&self) -> (n: usize)
        ensures
            n == advice(*self).len(),
    {
        self.len()
    }

    /// The width in bits of the lookup table.
    pub fn lookup_bits(&self) -> (b: usize)
        ensures
            b == table_bits(*self),
    {
        self.bits()
    }

    /// The value that `cell` holds; `None` where it is not one of the
    /// context's cells or holds more than a `u64` can.
    pub fn cell_value(&self, cell: Cell) -> (value: Option<u64>)
        ensures
            value matches Some(v) ==> holds(*self, cell, v as nat),
            value is None <==> !(cell.offset < advice(*self).len() && advice(
                *self,
            )[cell.offset as int] <= u64::MAX),
    {
        if cell.offset < self.len() {
            self.value_at(cell.offset)
        } else {
            None
        }
    }

    /// Whether a circuit of `2^k` rows can be checked: it is tall enough for
    /// the lookup table and for all the cells in one column.
    pub open spec fn checkable(self, k: usize) -> bool {
        &&& 5 <= k <= MAX_K
        &&& table_bits(self) < k
        &&& advice(self).len() + UNUSABLE_ROWS + 7 <= pow2(k as nat)
    }

    /// Runs the mock prover on the circuit, laid out on `2^k` rows, and says
    /// whether every constraint is met; `None` where the circuit cannot be
    /// checked at that height.
    pub fn is_satisfied(&self, k: usize) -> (verdict: Option<bool>)
        ensures
            verdict is Some <==> self.checkable(k),
            verdict matches Some(ok) ==> ok == satisfied(*self),
    {
        if k < 5 || k > MAX_K || self.bits() >= k {
            return None;
        }
        let rows = two_to_the(k);
        let cells = self.len();
        if cells > rows - (UNUSABLE_ROWS + 7) {
            return None;
        }
        Some(self.mock_verdict(k, UNUSABLE_ROWS))
    }
}

} // verus!
