//! The field-emulation interface: what a chip for an emulated field of
//! modulus `P` offers, stated over the shadow integers of its elements.
use crate::host::{advice, extends, holds, satisfied, Cell, Context};
use vstd::arithmetic::div_mod::{lemma_mod_multiples_vanish, lemma_small_mod};
use vstd::prelude::*;

pub mod fp;

verus! {

/// `(a * b + c) mod p`, the primitive every other operation is built from.
pub open spec fn mul_add_mod(a: nat, b: nat, c: nat, p: nat) -> nat {
    (a * b + c) % p
}

/// `(a + b) mod p`.
pub open spec fn add_mod(a: nat, b: nat, p: nat) -> nat {
    (a + b) % p
}

/// `(a * b) mod p`.
pub open spec fn mul_mod(a: nat, b: nat, p: nat) -> nat {
    (a * b) % p
}

/// `(b - a) mod p`: the difference with the subtrahend first, which is what
/// substituting `p - 1` for the multiplier of a multiply-add yields.
pub open spec fn reversed_sub_mod(a: nat, b: nat, p: nat) -> nat {
    ((b - a) % (p as int)) as nat
}

/// Addition is the multiply-add with the multiplier one.
pub proof fn lemma_add_is_mul_add(a: nat, b: nat, p: nat)
    ensures
        add_mod(a, b, p) == mul_add_mod(a, 1, b, p),
{
    assert(a * 1 == a) by (nonlinear_arith);
}

/// Multiplication is the multiply-add with the addend zero.
pub proof fn lemma_mul_is_mul_add(a: nat, b: nat, p: nat)
    ensures
        mul_mod(a, b, p) == mul_add_mod(a, b, 0, p),
{
}

/// The multiply-add with the multiplier `p - 1` is the reversed difference
/// `b - a`, not `a - b`.
pub proof fn lemma_reversed_sub_is_mul_add(a: nat, b: nat, p: nat)
    requires
        p > 0,
    ensures
        reversed_sub_mod(a, b, p) == mul_add_mod(a, (p - 1) as nat, b, p),
        reversed_sub_mod(a, b, p) < p,
{
    let m = (p - 1) as nat;
    assert(a * m + b == (b - a) + a * (p as int)) by (nonlinear_arith)
        requires
            m == p - 1,
    ;
    lemma_mod_multiples_vanish(a as int, b - a, p as int);
}

/// On operands below the modulus the reversed difference is `b - a` where
/// that is not negative, and `b - a + p` where it is.
pub proof fn lemma_reversed_sub_cases(a: nat, b: nat, p: nat)
    requires
        a < p,
        b < p,
    ensures
        reversed_sub_mod(a, b, p) == if b >= a {
            b - a
        } else {
            b - a + p
        },
{
    if b >= a {
        lemma_small_mod((b - a) as nat, p);
    } else {
        lemma_mod_multiples_vanish(1, b - a, p as int);
        lemma_small_mod((b - a + p) as nat, p);
    }
}

/// Range-checking an element a second time changes nothing: the verdict
/// after two checks of a shadow against `p` is the verdict after one.
pub proof fn lemma_range_check_idempotent(
    before: Context,
    once: Context,
    twice: Context,
    shadow: nat,
    p: nat,
)
    requires
        satisfied(once) == (satisfied(before) && shadow < p),
        satisfied(twice) == (satisfied(once) && shadow < p),
    ensures
        satisfied(twice) == satisfied(once),
{
}

/// The operations of a chip that emulates the field of integers modulo
/// [`order`](FieldChip::order) with elements of type `Fp`.
///
/// An element pairs a native cell with a shadow integer. Its invariant, that
/// the cell is one of the context's and holds the shadow, is asked of every
/// operand and promised of every result. Operations never remove or change a
/// cell that was placed.
pub trait FieldChip<Fp> {
    /// The modulus `P` of the emulated field.
    spec fn order(&self) -> nat;

    /// The shadow integer of an element.
    spec fn shadow(e: &Fp) -> nat;

    /// The native cell of an element.
    spec fn native(e: &Fp) -> Cell;

    /// Embeds the constant `a`, fixed by the circuit. The constant is in
    /// range because its author chose it so, not because of a constraint.
    fn load_constant(&self, ctx: &mut Context, a: u64) -> (r: Fp)
        requires
            a < self.order(),
        ensures
            Self::shadow(&r) == a,
            Self::shadow(&r) < self.order(),
            holds(*final(ctx), Self::native(&r), a as nat),
            extends(*old(ctx), *final(ctx)),
            satisfied(*final(ctx)) == satisfied(*old(ctx)),
    ;

    /// Embeds each of the constants `a`, in order.
    fn load_constants<const N: usize>(&self, ctx: &mut Context, a: &[u64; N]) -> (r: [Fp; N])
        requires
            forall|i: int| 0 <= i < N ==> a@[i] < self.order(),
        ensures
            forall|i: int|
                0 <= i < N ==> Self::shadow(&#[trigger] r@[i]) == a@[i] && holds(
                    *final(ctx),
                    Self::native(&r@[i]),
                    a@[i] as nat,
                ),
            extends(*old(ctx), *final(ctx)),
            satisfied(*final(ctx)) == satisfied(*old(ctx)),
    ;

    /// Embeds the witness `a`, supplied by the prover. Nothing bounds it:
    /// `a` may be the modulus or more until [`range_check`](FieldChip::range_check)
    /// is called on the element.
    fn load_witness(&self, ctx: &mut Context, a: u64) -> (r: Fp)
        ensures
            Self::shadow(&r) == a,
            holds(*final(ctx), Self::native(&r), a as nat),
            extends(*old(ctx), *final(ctx)),
            satisfied(*final(ctx)) == satisfied(*old(ctx)),
    ;

    /// `a + b` in the emulated field.
    fn add(&self, ctx: &mut Context, a: &Fp, b: &Fp) -> (r: Fp)
        requires
            holds(*old(ctx), Self::native(a), Self::shadow(a)),
            holds(*old(ctx), Self::native(b), Self::shadow(b)),
            Self::shadow(a) < self.order(),
            Self::shadow(b) < self.order(),
        ensures
            Self::shadow(&r) == add_mod(Self::shadow(a), Self::shadow(b), self.order()),
            Self::shadow(&r) == mul_add_mod(Self::shadow(a), 1, Self::shadow(b), self.order()),
            Self::shadow(&r) < self.order(),
            holds(*final(ctx), Self::native(&r), Self::shadow(&r)),
            extends(*old(ctx), *final(ctx)),
            satisfied(*final(ctx)) == satisfied(*old(ctx)),
    ;

    /// `b - a` in the emulated field: the operands are taken in this order.
    fn sub(&self, ctx: &mut Context, a: &Fp, b: &Fp) -> (r: Fp)
        requires
            holds(*old(ctx), Self::native(a), Self::shadow(a)),
            holds(*old(ctx), Self::native(b), Self::shadow(b)),
            Self::shadow(a) < self.order(),
            Self::shadow(b) < self.order(),
        ensures
            Self::shadow(&r) == reversed_sub_mod(Self::shadow(a), Self::shadow(b), self.order()),
            Self::shadow(&r) == mul_add_mod(
                Self::shadow(a),
                (self.order() - 1) as nat,
                Self::shadow(b),
                self.order(),
            ),
            Self::shadow(&r) < self.order(),
            holds(*final(ctx), Self::native(&r), Self::shadow(&r)),
            extends(*old(ctx), *final(ctx)),
            satisfied(*final(ctx)) == satisfied(*old(ctx)),
    ;

    /// `a * b` in the emulated field.
    fn mul(&self, ctx: &mut Context, a: &Fp, b: &Fp) -> (r: Fp)
        requires
            holds(*old(ctx), Self::native(a), Self::shadow(a)),
            holds(*old(ctx), Self::native(b), Self::shadow(b)),
            Self::shadow(a) < self.order(),
            Self::shadow(b) < self.order(),
        ensures
            Self::shadow(&r) == mul_mod(Self::shadow(a), Self::shadow(b), self.order()),
            Self::shadow(&r) == mul_add_mod(Self::shadow(a), Self::shadow(b), 0, self.order()),
            Self::shadow(&r) < self.order(),
            holds(*final(ctx), Self::native(&r), Self::shadow(&r)),
            extends(*old(ctx), *final(ctx)),
            satisfied(*final(ctx)) == satisfied(*old(ctx)),
    ;

    /// `a * b + c` in the emulated field. The result is range-checked, and
    /// the constraints placed are met by the values assigned.
    fn mul_add(&self, ctx: &mut Context, a: &Fp, b: &Fp, c: &Fp) -> (r: Fp)
        requires
            holds(*old(ctx), Self::native(a), Self::shadow(a)),
            holds(*old(ctx), Self::native(b), Self::shadow(b)),
            holds(*old(ctx), Self::native(c), Self::shadow(c)),
            Self::shadow(a) < self.order(),
            Self::shadow(b) < self.order(),
            Self::shadow(c) < self.order(),
        ensures
            Self::shadow(&r) == mul_add_mod(
                Self::shadow(a),
                Self::shadow(b),
                Self::shadow(c),
                self.order(),
            ),
            Self::shadow(&r) < self.order(),
            holds(*final(ctx), Self::native(&r), Self::shadow(&r)),
            extends(*old(ctx), *final(ctx)),
            satisfied(*final(ctx)) == satisfied(*old(ctx)),
    ;

    /// Constrains the element to be below the modulus. From then on the
    /// circuit is satisfied exactly if it was and the shadow is in range.
    fn range_check(&self, ctx: &mut Context, a: &Fp)
        requires
            holds(*old(ctx), Self::native(a), Self::shadow(a)),
        ensures
            satisfied(*final(ctx)) == (satisfied(*old(ctx)) && Self::shadow(a) < self.order()),
            Self::shadow(a) >= self.order() ==> !satisfied(*final(ctx)),
            extends(*old(ctx), *final(ctx)),
    ;

    /// Constrains the two elements' native cells to be equal. From then on
    /// the circuit is satisfied exactly if it was and the shadows agree.
    /// No cell is added, and nothing is said of either element's range.
    fn assert_equal(&self, ctx: &mut Context, a: &Fp, b: &Fp)
        requires
            holds(*old(ctx), Self::native(a), Self::shadow(a)),
            holds(*old(ctx), Self::native(b), Self::shadow(b)),
        ensures
            satisfied(*final(ctx)) == (satisfied(*old(ctx)) && Self::shadow(a) == Self::shadow(b)),
            Self::shadow(a) != Self::shadow(b) ==> !satisfied(*final(ctx)),
            advice(*final(ctx)) == advice(*old(ctx)),
            extends(*old(ctx), *final(ctx)),
    ;
}

} // verus!
