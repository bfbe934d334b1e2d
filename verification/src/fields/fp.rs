//! The base-field chip: emulated arithmetic modulo a 64-bit modulus by the
//! hint-then-constrain protocol.
use super::{
    lemma_add_is_mul_add, lemma_mul_is_mul_add, lemma_reversed_sub_is_mul_add, FieldChip,
};
use crate::host::{advice, extends, holds, native_order, satisfied, Cell, Context};
use vstd::arithmetic::div_mod::{lemma_fundamental_div_mod, lemma_mod_bound, lemma_small_mod};
use vstd::arithmetic::power2::{lemma2_to64, lemma2_to64_rest};
use vstd::prelude::*;

verus! {

/// The bit width that covers every modulus the chip can have.
pub const MODULUS_BITS: usize = 64;

/// An element of the emulated field: a native cell and, beside it, the
/// plaintext integer that the cell is meant to hold.
#[derive(Clone, Copy, Debug)]
pub struct Fp {
    pub native: Cell,
    pub value: u64,
}

impl Fp {
    pub fn new(native: Cell, value: u64) -> (e: Self)
        ensures
            e.native == native,
            e.value == value,
    {
        Self { native, value }
    }

    /// The element invariant in `ctx`: the native cell is one of the
    /// context's cells and holds the shadow integer.
    pub open spec fn sits_in(self, ctx: Context) -> bool {
        holds(ctx, self.native, self.value as nat)
    }

    /// Whether the element invariant holds in `ctx`.
    pub fn is_in(&self, ctx: &Context) -> (valid: bool)
        ensures
            valid == self.sits_in(*ctx),
    {
        match ctx.cell_value(self.native) {
            Some(held) => held == self.value,
            None => false,
        }
    }
}

/// The quotient and remainder of `a * b + c` by `p`: the hint that the
/// prover supplies to a multiply-add.
pub open spec fn hint(a: nat, b: nat, c: nat, p: nat) -> (nat, nat) {
    ((a * b + c) / p, (a * b + c) % p)
}

/// For operands below the modulus, the quotient of the hint is below the
/// modulus too, and both sides of the bridging equation, taken as
/// integers, are far below the native order: equality in the native field
/// is equality of integers.
pub proof fn lemma_hint_bounds(a: nat, b: nat, c: nat, p: nat)
    requires
        a < p,
        b < p,
        c < p,
        p <= u64::MAX,
    ensures
        hint(a, b, c, p).0 < p,
        hint(a, b, c, p).1 < p,
        a * b + c == p * hint(a, b, c, p).0 + hint(a, b, c, p).1,
        a * b + c < native_order(),
        (a * b + c) % native_order() == a * b + c,
        (p * hint(a, b, c, p).0 + hint(a, b, c, p).1) % native_order() == a * b + c,
{
    let sum = a * b + c;
    assert(sum <= (p - 1) * p) by (nonlinear_arith)
        requires
            a < p,
            b < p,
            c < p,
            sum == a * b + c,
    ;
    assert(sum / p < p) by (nonlinear_arith)
        requires
            sum <= (p - 1) * p,
            p > 0,
    ;
    lemma_mod_bound(sum as int, p as int);
    lemma_fundamental_div_mod(sum as int, p as int);
    assert(sum < 0x1_0000_0000_0000_0000_0000_0000_0000_0000) by (nonlinear_arith)
        requires
            sum <= (p - 1) * p,
            0 < p <= 0xffff_ffff_ffff_ffff,
    ;
    lemma_small_mod(sum, native_order());
}

/// The chip for the emulated field of integers modulo `modulus`. It holds no
/// state of any element: the host's capabilities come with the context that
/// each operation is given.
pub struct FpChip {
    modulus: u64,
}

impl FpChip {
    #[verifier::type_invariant]
    spec fn well_formed(self) -> bool {
        self.modulus >= 2
    }

    /// The chip for the field of the prime `modulus`.
    pub fn new(modulus: u64) -> (chip: Self)
        requires
            modulus >= 2,
        ensures
            chip.order() == modulus,
    {
        Self { modulus }
    }

    /// The modulus `P`.
    pub fn modulus(&self) -> (p: u64)
        ensures
            p == self.order(),
            p >= 2,
    {
        proof {
            use_type_invariant(self);
        }
        self.modulus
    }
}

impl FieldChip<Fp> for FpChip {
    closed spec fn order(&self) -> nat {
        self.modulus as nat
    }

    open spec fn shadow(e: &Fp) -> nat {
        e.value as nat
    }

    open spec fn native(e: &Fp) -> Cell {
        e.native
    }

    fn load_constant(&self, ctx: &mut Context, a: u64) -> (r: Fp)
        ensures
            advice(*final(ctx)) == advice(*old(ctx)).push(a as nat),
            r.native.offset == advice(*old(ctx)).len(),
    {
        Fp::new(ctx.place_constant(a), a)
    }

    fn load_constants<const N: usize>(&self, ctx: &mut Context, a: &[u64; N]) -> (r: [Fp; N])
        ensures
            advice(*final(ctx)).len() == advice(*old(ctx)).len() + N,
    {
        let mut loaded: Vec<Fp> = Vec::new();
        let mut i: usize = 0;
        while i < N
            invariant
                i <= N,
                loaded@.len() == i,
                forall|j: int| 0 <= j < N ==> a@[j] < self.order(),
                forall|j: int|
                    0 <= j < i ==> (#[trigger] loaded@[j]).value == a@[j] && holds(
                        *ctx,
                        loaded@[j].native,
                        a@[j] as nat,
                    ),
                extends(*old(ctx), *ctx),
                satisfied(*ctx) == satisfied(*old(ctx)),
                advice(*ctx).len() == advice(*old(ctx)).len() + i,
            decreases N - i,
        {
            let e = self.load_constant(ctx, a[i]);
            loaded.push(e);
            i = i + 1;
        }
        into_array(loaded)
    }

    fn load_witness(&self, ctx: &mut Context, a: u64) -> (r: Fp)
        ensures
            advice(*final(ctx)) == advice(*old(ctx)).push(a as nat),
            r.native.offset == advice(*old(ctx)).len(),
    {
        Fp::new(ctx.place_witness(a), a)
    }

    fn add(&self, ctx: &mut Context, a: &Fp, b: &Fp) -> (r: Fp) {
        proof {
            use_type_invariant(self);
            lemma_add_is_mul_add(a.value as nat, b.value as nat, self.order());
        }
        let one = self.load_constant(ctx, 1);
        self.mul_add(ctx, a, &one, b)
    }

    fn sub(&self, ctx: &mut Context, a: &Fp, b: &Fp) -> (r: Fp) {
        proof {
            use_type_invariant(self);
            lemma_reversed_sub_is_mul_add(a.value as nat, b.value as nat, self.order());
        }
        let minus_one = self.load_constant(ctx, self.modulus - 1);
        self.mul_add(ctx, a, &minus_one, b)
    }

    fn mul(&self, ctx: &mut Context, a: &Fp, b: &Fp) -> (r: Fp) {
        proof {
            use_type_invariant(self);
            lemma_mul_is_mul_add(a.value as nat, b.value as nat, self.order());
        }
        let zero = self.load_constant(ctx, 0);
        self.mul_add(ctx, a, b, &zero)
    }

    fn mul_add(&self, ctx: &mut Context, a: &Fp, b: &Fp, c: &Fp) -> (r: Fp) {
        proof {
            use_type_invariant(self);
            lemma_hint_bounds(a.value as nat, b.value as nat, c.value as nat, self.order());
        }
        let p = self.modulus;
        // The hint, in integers wide enough for the exact sum.
        assert((a.value as u128) * (b.value as u128) <= 0xffff_ffff_ffff_ffff
            * 0xffff_ffff_ffff_ffff) by (nonlinear_arith)
            requires
                a.value <= 0xffff_ffff_ffff_ffff,
                b.value <= 0xffff_ffff_ffff_ffff,
        ;
        let product: u128 = (a.value as u128) * (b.value as u128);
        let sum: u128 = product + (c.value as u128);
        let quotient = (sum / (p as u128)) as u64;
        let remainder = (sum % (p as u128)) as u64;

        // The hint becomes two witnesses.
        let quotient = self.load_witness(ctx, quotient);
        let remainder = self.load_witness(ctx, remainder);

        // The bridging equation a * b + c == P * quotient + remainder, in the native field.
        let lhs = ctx.gate_mul_add(a.native, b.native, c.native);
        let modulus = ctx.place_constant(p);
        let rhs = ctx.gate_mul_add(modulus, quotient.native, remainder.native);
        ctx.constrain_equal(lhs, rhs);

        // Both witnesses are bounded by the modulus.
        ctx.check_less_than_safe(quotient.native, p);
        ctx.check_less_than_safe(remainder.native, p);

        remainder
    }

    fn range_check(&self, ctx: &mut Context, a: &Fp) {
        proof {
            lemma2_to64();
            lemma2_to64_rest();
        }
        let bound = ctx.place_constant(self.modulus);
        ctx.check_less_than(a.native, bound, MODULUS_BITS);
    }

    fn assert_equal(&self, ctx: &mut Context, a: &Fp, b: &Fp) {
        ctx.constrain_equal(a.native, b.native);
    }
}

/// `TryFrom<Vec<T>>` for an array: the vector's items, in order, as an array
/// of exactly its length.
#[verifier::external_body]
fn into_array<const N: usize>(items: Vec<Fp>) -> (array: [Fp; N])
    requires
        items@.len() == N,
    ensures
        array@ == items@,
{
    items.try_into().ok().unwrap()
}

} // verus!
