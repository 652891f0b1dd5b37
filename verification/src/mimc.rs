//! The MiMC permutation: a round-based algebraic hash over the scalar field.
//! Each round sends `(xl, xr)` to `(xr + (xl + c)^3, xl)` for the next round
//! constant `c`; after the last round the left half is the image.

use vstd::prelude::*;

verus! {

use crate::field::{Fr, all_wf, fp, fr_values};

/// The image of the permutation on `(xl, xr)` under the given round
/// constants, all values reduced mod the field order.
pub open spec fn mimc_spec(xl: nat, xr: nat, cs: Seq<nat>) -> nat
    decreases cs.len(),
{
    if cs.len() == 0 {
        xl
    } else {
        let t = (xl + cs[0]) % fp();
        mimc_spec((xr + t * t * t) % fp(), xl, cs.drop_first())
    }
}

/// Compute the MiMC image of a witness pair under the given round constants.
pub fn mimc(xl: &Fr, xr: &Fr, constants: &Vec<Fr>) -> (r: Fr)
    requires
        xl.wf(),
        xr.wf(),
        all_wf(constants@),
    ensures
        r.wf(),
        r.value() == mimc_spec(xl.value(), xr.value(), fr_values(constants@)),
{
    let ghost all_values = fr_values(constants@);
    let mut cur_l = xl.dup();
    let mut cur_r = xr.dup();
    let mut i: usize = 0;
    proof {
        assert(all_values.skip(0) =~= all_values);
    }
    while i < constants.len()
        invariant
            0 <= i <= constants@.len(),
            all_wf(constants@),
            all_values == fr_values(constants@),
            cur_l.wf(),
            cur_r.wf(),
            mimc_spec(cur_l.value(), cur_r.value(), all_values.skip(i as int)) == mimc_spec(
                xl.value(),
                xr.value(),
                all_values,
            ),
        decreases constants@.len() - i,
    {
        proof {
            assert(constants@[i as int].wf());
            assert(all_values[i as int] == constants@[i as int].value());
        }
        let t = cur_l.add(&constants[i]);
        let t2 = t.mul(&t);
        let t3 = t2.mul(&t);
        let new_l = cur_r.add(&t3);
        proof {
            lemma_cube_step(cur_l.value(), cur_r.value(), constants@[i as int].value());
            assert(all_values.skip(i as int)[0] == all_values[i as int]);
            assert(all_values.skip(i as int).drop_first() =~= all_values.skip(i as int + 1));
        }
        cur_r = cur_l;
        cur_l = new_l;
        i = i + 1;
    }
    proof {
        assert(all_values.skip(i as int) =~= Seq::<nat>::empty());
    }
    cur_l
}

/// One exec round, chaining two reduced multiplications, equals the round of
/// the specification, which cubes before reducing.
pub(crate) proof fn lemma_cube_step(l: nat, r: nat, c: nat)
    requires
        l < fp(),
        r < fp(),
        c < fp(),
    ensures
        ({
            let t_exec = (l + c) % fp();
            let t2 = (t_exec * t_exec) % fp();
            let t3 = (t2 * t_exec) % fp();
            let t = (l + c) % fp();
            (r + t3) % fp() == (r + t * t * t) % fp()
        }),
{
    let t = (l + c) % fp();
    let t2 = (t * t) % fp();
    vstd::arithmetic::div_mod::lemma_mul_mod_noop_left((t * t) as int, t as int, fp() as int);
    assert((t2 * t) % fp() == (t * t * t) % fp());
    vstd::arithmetic::div_mod::lemma_add_mod_noop_right(
        r as int,
        (t * t * t) as int,
        fp() as int,
    );
    vstd::arithmetic::div_mod::lemma_add_mod_noop_right(r as int, ((t2 * t) % fp()) as int, fp() as int);
}

/// Draw a sequence of round constants from the given randomness source.
pub fn random_constants(n: usize, rng: &mut rand::rngs::StdRng) -> (r: Vec<Fr>)
    ensures
        r@.len() == n,
        all_wf(r@),
{
    let mut r: Vec<Fr> = Vec::new();
    let mut i: usize = 0;
    while i < n
        invariant
            0 <= i <= n,
            r@.len() == i,
            all_wf(r@),
        decreases n - i,
    {
        r.push(Fr::random(rng));
        i = i + 1;
    }
    r
}

} // verus!
