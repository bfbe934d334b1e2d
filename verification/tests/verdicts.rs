use field_emulation::fields::fp::{Fp, FpChip};
use field_emulation::fields::FieldChip;
use field_emulation::host::Context;
use rand::rngs::StdRng;
use rand::{Rng, SeedableRng};

const MODULI: [u64; 6] = [2, 3, 251, 0xFFFF_FFFB, 0xFFFF_FFFF_0000_0001, 0xFFFF_FFFF_FFFF_FFC5];

fn pick(rng: &mut StdRng, elements: &[Fp]) -> Fp {
    elements[rng.gen_range(0..elements.len())]
}

fn pick_canonical(rng: &mut StdRng, elements: &[Fp], p: u64) -> Fp {
    let canonical: Vec<Fp> = elements.iter().copied().filter(|e| e.value < p).collect();
    canonical[rng.gen_range(0..canonical.len())]
}

fn reduce(x: u128, p: u64) -> u64 {
    (x % (p as u128)) as u64
}

/// Random circuits: every result has the value that the arithmetic gives,
/// and the circuit is satisfied exactly if every range check was of a
/// value below the modulus and every equality was of equal values.
fn run(seed: u64, rounds: usize) {
    let mut rng = StdRng::seed_from_u64(seed);
    for _ in 0..rounds {
        let bits = rng.gen_range(1..=11usize);
        let p = MODULI[rng.gen_range(0..MODULI.len())];
        let chip = FpChip::new(p);
        let mut ctx = Context::new(bits).unwrap();
        let mut elements = vec![chip.load_constant(&mut ctx, 0)];
        let mut expected = true;
        for _ in 0..rng.gen_range(1..10usize) {
            match rng.gen_range(0..9u32) {
                0 => elements.push(chip.load_constant(&mut ctx, rng.gen_range(0..p))),
                1 => elements.push(chip.load_witness(&mut ctx, rng.gen())),
                2 => elements.push(chip.load_witness(&mut ctx, rng.gen_range(0..p))),
                3 => {
                    let (a, b) = (pick_canonical(&mut rng, &elements, p), pick_canonical(&mut rng, &elements, p));
                    let r = chip.add(&mut ctx, &a, &b);
                    assert_eq!(r.value, reduce(a.value as u128 + b.value as u128, p));
                    elements.push(r);
                }
                4 => {
                    let (a, b) = (pick_canonical(&mut rng, &elements, p), pick_canonical(&mut rng, &elements, p));
                    let r = chip.sub(&mut ctx, &a, &b);
                    assert_eq!(r.value, reduce(b.value as u128 + p as u128 - a.value as u128, p));
                    elements.push(r);
                }
                5 => {
                    let (a, b) = (pick_canonical(&mut rng, &elements, p), pick_canonical(&mut rng, &elements, p));
                    let r = chip.mul(&mut ctx, &a, &b);
                    assert_eq!(r.value, reduce(a.value as u128 * b.value as u128, p));
                    elements.push(r);
                }
                6 => {
                    let a = pick_canonical(&mut rng, &elements, p);
                    let b = pick_canonical(&mut rng, &elements, p);
                    let c = pick_canonical(&mut rng, &elements, p);
                    let r = chip.mul_add(&mut ctx, &a, &b, &c);
                    assert_eq!(r.value, reduce(a.value as u128 * b.value as u128 + c.value as u128, p));
                    elements.push(r);
                }
                7 => {
                    let a = pick(&mut rng, &elements);
                    chip.range_check(&mut ctx, &a);
                    expected = expected && a.value < p;
                }
                _ => {
                    let (a, b) = (pick(&mut rng, &elements), pick(&mut rng, &elements));
                    let cells = ctx.num_cells();
                    chip.assert_equal(&mut ctx, &a, &b);
                    assert_eq!(ctx.num_cells(), cells);
                    expected = expected && a.value == b.value;
                }
            }
            assert!(elements.iter().all(|e| e.is_in(&ctx)));
        }
        assert_eq!(ctx.is_satisfied(14), Some(expected));
    }
}

#[test]
fn verdicts_follow_the_constraints_placed_first_seed() {
    run(1, 12);
}

#[test]
fn verdicts_follow_the_constraints_placed_second_seed() {
    run(2, 12);
}

#[test]
fn verdicts_follow_the_constraints_placed_third_seed() {
    run(3, 12);
}
