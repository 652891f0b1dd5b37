//! The MiMC permutation as a rank-1 constraint system. Synthesis produces a
//! plan — variables, quadratic constraints, and (when a witness is present)
//! their assignment — that a parameter generator or a prover replays into
//! the proving backend. The plan's shape is a function of the round
//! constants alone, so the keys made from a witnessless plan fit every
//! witness; with a witness, the assignment satisfies every constraint and
//! the one public input is exactly the MiMC image of the witness.

use vstd::prelude::*;

verus! {

use crate::ZkError;
use crate::field::{Fr, all_wf, fp, fr_values};
use crate::mimc::{lemma_cube_step, mimc_spec};

/// A variable of the constraint system.
#[derive(Clone, Copy, Debug, PartialEq, Eq, Structural)]
pub enum Var {
    /// The fixed variable holding the constant one.
    One,
    /// Public input number `j`; the image is input number zero.
    Input(usize),
    /// Private auxiliary variable number `i`.
    Aux(usize),
}

/// One addend of a linear combination: a coefficient times a variable.
pub struct Term {
    pub var: Var,
    pub coeff: Fr,
}

/// A quadratic constraint `a * b = c` over three linear combinations.
pub struct Constraint {
    pub a: Vec<Term>,
    pub b: Vec<Term>,
    pub c: Vec<Term>,
}

/// The witness of a circuit instance: absent while only the structure is
/// described (setup), present while proving.
pub enum WitnessState {
    Absent,
    Present(Fr, Fr),
}

/// A synthesized circuit: its dimensions, its constraints, and, when the
/// witness was present, the values of every variable.
pub struct CircuitPlan {
    pub num_inputs: usize,
    pub num_aux: usize,
    pub constraints: Vec<Constraint>,
    pub input_values: Option<Vec<Fr>>,
    pub aux_values: Option<Vec<Fr>>,
}

/// The ghost form of a linear combination: variables with the values of
/// their coefficients.
pub type LcView = Seq<(Var, nat)>;

/// The ghost form of a constraint.
pub type ConstraintView = (LcView, LcView, LcView);

pub open spec fn witness_wf(w: WitnessState) -> bool {
    match w {
        WitnessState::Absent => true,
        WitnessState::Present(a, b) => a.wf() && b.wf(),
    }
}

pub open spec fn term_view(t: Term) -> (Var, nat) {
    (t.var, t.coeff.value())
}

pub open spec fn lc_view(l: Seq<Term>) -> LcView {
    l.map_values(|t: Term| term_view(t))
}

pub open spec fn constraint_view(c: Constraint) -> ConstraintView {
    (lc_view(c.a@), lc_view(c.b@), lc_view(c.c@))
}

/// The value a variable takes under an assignment; out-of-range variables
/// count as zero.
pub open spec fn var_value(v: Var, inputs: Seq<nat>, aux: Seq<nat>) -> nat {
    match v {
        Var::One => 1,
        Var::Input(j) => if (j as int) < inputs.len() {
            inputs[j as int]
        } else {
            0
        },
        Var::Aux(i) => if (i as int) < aux.len() {
            aux[i as int]
        } else {
            0
        },
    }
}

/// The (unreduced) value of a linear combination under an assignment.
pub open spec fn lc_sum(l: LcView, inputs: Seq<nat>, aux: Seq<nat>) -> nat
    decreases l.len(),
{
    if l.len() == 0 {
        0
    } else {
        l[0].1 * var_value(l[0].0, inputs, aux) + lc_sum(l.drop_first(), inputs, aux)
    }
}

pub open spec fn var_bounded(v: Var, ni: int, na: int) -> bool {
    match v {
        Var::One => true,
        Var::Input(j) => j < ni,
        Var::Aux(i) => i < na,
    }
}

pub open spec fn lcv_bounded(l: LcView, ni: int, na: int) -> bool {
    forall|k: int| 0 <= k < l.len() ==> var_bounded((#[trigger] l[k]).0, ni, na)
}

pub open spec fn cview_bounded(cv: ConstraintView, ni: int, na: int) -> bool {
    lcv_bounded(cv.0, ni, na) && lcv_bounded(cv.1, ni, na) && lcv_bounded(cv.2, ni, na)
}

/// A constraint holds under an assignment when the product of its first two
/// combinations equals the third, mod the field order.
pub open spec fn cview_holds(cv: ConstraintView, inputs: Seq<nat>, aux: Seq<nat>) -> bool {
    (lc_sum(cv.0, inputs, aux) * lc_sum(cv.1, inputs, aux)) % fp() == lc_sum(cv.2, inputs, aux)
        % fp()
}

pub open spec fn constraint_holds(c: Constraint, inputs: Seq<nat>, aux: Seq<nat>) -> bool {
    cview_holds(constraint_view(c), inputs, aux)
}

/// Every coefficient of a linear combination is a well-formed field element
/// and every variable is within the given dimensions.
pub open spec fn lc_wf(l: Seq<Term>, ni: int, na: int) -> bool {
    forall|k: int|
        0 <= k < l.len() ==> (#[trigger] l[k]).coeff.wf() && var_bounded(l[k].var, ni, na)
}

pub open spec fn constraint_wf(c: Constraint, ni: int, na: int) -> bool {
    lc_wf(c.a@, ni, na) && lc_wf(c.b@, ni, na) && lc_wf(c.c@, ni, na)
}

/// The plan is self-consistent: constraints fit the dimensions, and value
/// vectors, when present, fill them with field elements.
pub open spec fn plan_wf(p: CircuitPlan) -> bool {
    &&& forall|k: int|
        0 <= k < p.constraints@.len() ==> constraint_wf(
            #[trigger] p.constraints@[k],
            p.num_inputs as int,
            p.num_aux as int,
        )
    &&& (p.input_values is Some <==> p.aux_values is Some)
    &&& (p.input_values matches Some(v) ==> v@.len() == p.num_inputs && all_wf(v@))
    &&& (p.aux_values matches Some(v) ==> v@.len() == p.num_aux && all_wf(v@))
}

/// Every constraint of the plan holds under the plan's own assignment.
pub open spec fn plan_satisfied(p: CircuitPlan) -> bool {
    forall|k: int|
        0 <= k < p.constraints@.len() ==> constraint_holds(
            #[trigger] p.constraints@[k],
            fr_values(p.input_values.unwrap()@),
            fr_values(p.aux_values.unwrap()@),
        )
}

/// The variable carrying the left half at the start of round `i`.
pub open spec fn xl_var(i: int) -> Var {
    if i == 0 {
        Var::Aux(0)
    } else {
        Var::Aux((2 * i + 1) as usize)
    }
}

/// The variable carrying the right half at the start of round `i`.
pub open spec fn xr_var(i: int) -> Var {
    if i == 0 {
        Var::Aux(1)
    } else {
        xl_var(i - 1)
    }
}

/// The variable holding round `i`'s squared sum.
pub open spec fn tmp_var(i: int) -> Var {
    Var::Aux((2 * i + 2) as usize)
}

/// The variable receiving round `i`'s new left half; in the last round it is
/// the public image input.
pub open spec fn out_var(i: int, rounds: int) -> Var {
    if i == rounds - 1 {
        Var::Input(0)
    } else {
        Var::Aux((2 * i + 3) as usize)
    }
}

/// Round `i`'s first constraint: `(xl + c) * (xl + c) = tmp`.
pub open spec fn square_cv(i: int, c: nat) -> ConstraintView {
    (
        seq![(xl_var(i), 1nat), (Var::One, c)],
        seq![(xl_var(i), 1nat), (Var::One, c)],
        seq![(tmp_var(i), 1nat)],
    )
}

/// Round `i`'s second constraint: `tmp * (xl + c) = out - xr`, the
/// subtraction written with the coefficient `-1`.
pub open spec fn cube_cv(i: int, rounds: int, c: nat) -> ConstraintView {
    (
        seq![(tmp_var(i), 1nat)],
        seq![(xl_var(i), 1nat), (Var::One, c)],
        seq![(out_var(i, rounds), 1nat), (xr_var(i), (fp() - 1) as nat)],
    )
}

/// The shape every synthesis of the given round constants produces: two
/// constraints per round in a fixed wiring, one public input, and auxiliary
/// variables for the witness halves and each round's intermediate values.
/// The shape is a function of the constants alone, never of the witness.
pub open spec fn plan_shape_ok(p: CircuitPlan, cs: Seq<nat>) -> bool {
    &&& p.constraints@.len() == 2 * cs.len()
    &&& p.num_inputs == 1
    &&& p.num_aux == 2 * cs.len() + 1
    &&& forall|i: int|
        0 <= i < cs.len() ==> #[trigger] constraint_view(p.constraints@[2 * i]) == square_cv(
            i,
            cs[i],
        )
    &&& forall|i: int|
        0 <= i < cs.len() ==> #[trigger] constraint_view(p.constraints@[2 * i + 1]) == cube_cv(
            i,
            cs.len() as int,
            cs[i],
        )
}

/// Law: the constraint shape is witness-independent — any two plans of the
/// required shape for the same round constants have exactly the same
/// constraints and dimensions, whether or not either carries values.
pub proof fn lemma_shape_witness_independent(p1: CircuitPlan, p2: CircuitPlan, cs: Seq<nat>)
    requires
        plan_shape_ok(p1, cs),
        plan_shape_ok(p2, cs),
    ensures
        p1.num_inputs == p2.num_inputs,
        p1.num_aux == p2.num_aux,
        p1.constraints@.len() == p2.constraints@.len(),
        forall|k: int|
            0 <= k < p1.constraints@.len() ==> constraint_view(#[trigger] p1.constraints@[k])
                == constraint_view(p2.constraints@[k]),
{
    assert forall|k: int| 0 <= k < p1.constraints@.len() implies constraint_view(
        #[trigger] p1.constraints@[k],
    ) == constraint_view(p2.constraints@[k]) by {
        let i = k / 2;
        if k % 2 == 0 {
            assert(k == 2 * i);
            assert(constraint_view(p1.constraints@[2 * i]) == square_cv(i, cs[i]));
            assert(constraint_view(p2.constraints@[2 * i]) == square_cv(i, cs[i]));
        } else {
            assert(k == 2 * i + 1);
            assert(constraint_view(p1.constraints@[2 * i + 1]) == cube_cv(
                i,
                cs.len() as int,
                cs[i],
            ));
            assert(constraint_view(p2.constraints@[2 * i + 1]) == cube_cv(
                i,
                cs.len() as int,
                cs[i],
            ));
        }
    }
}

proof fn lemma_var_value_stable(v: Var, iv0: Seq<nat>, av0: Seq<nat>, iv1: Seq<nat>, av1: Seq<nat>)
    requires
        iv0.is_prefix_of(iv1),
        av0.is_prefix_of(av1),
        var_bounded(v, iv0.len() as int, av0.len() as int),
    ensures
        var_value(v, iv1, av1) == var_value(v, iv0, av0),
{
    match v {
        Var::One => {},
        Var::Input(j) => {
            assert(iv0[j as int] == iv1.take(iv0.len() as int)[j as int]);
        },
        Var::Aux(k) => {
            assert(av0[k as int] == av1.take(av0.len() as int)[k as int]);
        },
    }
}

proof fn lemma_lc_sum_stable(l: LcView, iv0: Seq<nat>, av0: Seq<nat>, iv1: Seq<nat>, av1: Seq<nat>)
    requires
        iv0.is_prefix_of(iv1),
        av0.is_prefix_of(av1),
        lcv_bounded(l, iv0.len() as int, av0.len() as int),
    ensures
        lc_sum(l, iv1, av1) == lc_sum(l, iv0, av0),
    decreases l.len(),
{
    if l.len() > 0 {
        lemma_var_value_stable(l[0].0, iv0, av0, iv1, av1);
        assert(lcv_bounded(l.drop_first(), iv0.len() as int, av0.len() as int)) by {
            assert forall|k: int| 0 <= k < l.drop_first().len() implies var_bounded(
                (#[trigger] l.drop_first()[k]).0,
                iv0.len() as int,
                av0.len() as int,
            ) by {
                assert(l.drop_first()[k] == l[k + 1]);
            }
        }
        lemma_lc_sum_stable(l.drop_first(), iv0, av0, iv1, av1);
    }
}

/// A constraint over variables that an assignment already covers keeps its
/// verdict when the assignment is extended.
proof fn lemma_cview_holds_stable(
    cv: ConstraintView,
    iv0: Seq<nat>,
    av0: Seq<nat>,
    iv1: Seq<nat>,
    av1: Seq<nat>,
)
    requires
        iv0.is_prefix_of(iv1),
        av0.is_prefix_of(av1),
        cview_bounded(cv, iv0.len() as int, av0.len() as int),
    ensures
        cview_holds(cv, iv1, av1) == cview_holds(cv, iv0, av0),
{
    lemma_lc_sum_stable(cv.0, iv0, av0, iv1, av1);
    lemma_lc_sum_stable(cv.1, iv0, av0, iv1, av1);
    lemma_lc_sum_stable(cv.2, iv0, av0, iv1, av1);
}

proof fn lemma_lc_sum1(x: (Var, nat), iv: Seq<nat>, av: Seq<nat>)
    ensures
        lc_sum(seq![x], iv, av) == x.1 * var_value(x.0, iv, av),
{
    let s = seq![x];
    assert(s.len() == 1 && s[0] == x);
    assert(s.drop_first() =~= Seq::<(Var, nat)>::empty());
    assert(lc_sum(Seq::<(Var, nat)>::empty(), iv, av) == 0);
    assert(lc_sum(s, iv, av) == s[0].1 * var_value(s[0].0, iv, av) + lc_sum(
        s.drop_first(),
        iv,
        av,
    ));
}

proof fn lemma_lc_sum2(x: (Var, nat), y: (Var, nat), iv: Seq<nat>, av: Seq<nat>)
    ensures
        lc_sum(seq![x, y], iv, av) == x.1 * var_value(x.0, iv, av) + y.1 * var_value(y.0, iv, av),
{
    let s = seq![x, y];
    assert(s.len() == 2 && s[0] == x && s[1] == y);
    assert(s.drop_first() =~= seq![y]);
    lemma_lc_sum1(y, iv, av);
    assert(lc_sum(s, iv, av) == s[0].1 * var_value(s[0].0, iv, av) + lc_sum(seq![y], iv, av));
}

/// Round `i`'s square constraint holds for the values synthesis assigns.
proof fn lemma_square_holds(i: int, c: nat, l: nat, t2v: nat, iv: Seq<nat>, av: Seq<nat>)
    requires
        c < fp(),
        l < fp(),
        t2v == (((l + c) % fp()) * ((l + c) % fp())) % fp(),
        var_value(xl_var(i), iv, av) == l,
        var_value(tmp_var(i), iv, av) == t2v,
    ensures
        cview_holds(square_cv(i, c), iv, av),
{
    let cv = square_cv(i, c);
    lemma_lc_sum2((xl_var(i), 1nat), (Var::One, c), iv, av);
    lemma_lc_sum1((tmp_var(i), 1nat), iv, av);
    assert(lc_sum(cv.0, iv, av) == l + c);
    assert(lc_sum(cv.2, iv, av) == t2v);
    vstd::arithmetic::div_mod::lemma_mul_mod_noop_general(
        (l + c) as int,
        (l + c) as int,
        fp() as int,
    );
    vstd::arithmetic::div_mod::lemma_mod_bound(((l + c) * (l + c)) as int, fp() as int);
    vstd::arithmetic::div_mod::lemma_small_mod(t2v, fp());
}

/// Round `i`'s cube constraint holds for the values synthesis assigns.
proof fn lemma_cube_holds(
    i: int,
    rounds: int,
    c: nat,
    l: nat,
    r: nat,
    t2v: nat,
    outv: nat,
    iv: Seq<nat>,
    av: Seq<nat>,
)
    requires
        c < fp(),
        l < fp(),
        r < fp(),
        t2v == (((l + c) % fp()) * ((l + c) % fp())) % fp(),
        outv == (r + (t2v * ((l + c) % fp())) % fp()) % fp(),
        var_value(xl_var(i), iv, av) == l,
        var_value(xr_var(i), iv, av) == r,
        var_value(tmp_var(i), iv, av) == t2v,
        var_value(out_var(i, rounds), iv, av) == outv,
    ensures
        cview_holds(cube_cv(i, rounds, c), iv, av),
{
    let cv = cube_cv(i, rounds, c);
    let t = (l + c) % fp();
    let t3v = (t2v * t) % fp();
    lemma_lc_sum1((tmp_var(i), 1nat), iv, av);
    lemma_lc_sum2((xl_var(i), 1nat), (Var::One, c), iv, av);
    lemma_lc_sum2((out_var(i, rounds), 1nat), (xr_var(i), (fp() - 1) as nat), iv, av);
    assert(lc_sum(cv.0, iv, av) == t2v);
    assert(lc_sum(cv.1, iv, av) == l + c);
    assert(lc_sum(cv.2, iv, av) == outv + (fp() - 1) * r);
    // the product side reduces to the cube value
    vstd::arithmetic::div_mod::lemma_mul_mod_noop_right(t2v as int, (l + c) as int, fp() as int);
    assert((t2v * (l + c)) % fp() == t3v);
    // the linear side reduces to the same value: the `-xr` coefficient
    // cancels the `xr` inside `out`
    vstd::arithmetic::div_mod::lemma_add_mod_noop_right(
        ((fp() - 1) * r) as int,
        (r + t3v) as int,
        fp() as int,
    );
    assert(r + t3v + (fp() - 1) * r == fp() * r + t3v) by (nonlinear_arith);
    vstd::arithmetic::div_mod::lemma_mod_multiples_vanish(r as int, t3v as int, fp() as int);
    vstd::arithmetic::div_mod::lemma_mod_bound((t2v * t) as int, fp() as int);
    vstd::arithmetic::div_mod::lemma_small_mod(t3v, fp());
}

/// A one-term linear combination.
fn lc1(v: Var, c: Fr) -> (r: Vec<Term>)
    requires
        c.wf(),
    ensures
        r@.len() == 1,
        r@[0].var == v,
        r@[0].coeff.wf(),
        r@[0].coeff.value() == c.value(),
        lc_view(r@) =~= seq![(v, c.value())],
{
    let mut r: Vec<Term> = Vec::new();
    r.push(Term { var: v, coeff: c });
    r
}

/// A two-term linear combination.
fn lc2(v1: Var, c1: Fr, v2: Var, c2: Fr) -> (r: Vec<Term>)
    requires
        c1.wf(),
        c2.wf(),
    ensures
        r@.len() == 2,
        r@[0].var == v1,
        r@[0].coeff.wf(),
        r@[0].coeff.value() == c1.value(),
        r@[1].var == v2,
        r@[1].coeff.wf(),
        r@[1].coeff.value() == c2.value(),
        lc_view(r@) =~= seq![(v1, c1.value()), (v2, c2.value())],
{
    let mut r: Vec<Term> = Vec::new();
    r.push(Term { var: v1, coeff: c1 });
    r.push(Term { var: v2, coeff: c2 });
    r
}

/// Variable bounds only widen when an assignment grows.
proof fn lemma_constraint_wf_monotone(c: Constraint, ni0: int, na0: int, ni1: int, na1: int)
    requires
        constraint_wf(c, ni0, na0),
        ni0 <= ni1,
        na0 <= na1,
    ensures
        constraint_wf(c, ni1, na1),
{
    assert forall|k: int|
        0 <= k < c.a@.len() implies (#[trigger] c.a@[k]).coeff.wf() && var_bounded(
        c.a@[k].var,
        ni1,
        na1,
    ) by {
        assert(c.a@[k].coeff.wf() && var_bounded(c.a@[k].var, ni0, na0));
    }
    assert forall|k: int|
        0 <= k < c.b@.len() implies (#[trigger] c.b@[k]).coeff.wf() && var_bounded(
        c.b@[k].var,
        ni1,
        na1,
    ) by {
        assert(c.b@[k].coeff.wf() && var_bounded(c.b@[k].var, ni0, na0));
    }
    assert forall|k: int|
        0 <= k < c.c@.len() implies (#[trigger] c.c@[k]).coeff.wf() && var_bounded(
        c.c@[k].var,
        ni1,
        na1,
    ) by {
        assert(c.c@[k].coeff.wf() && var_bounded(c.c@[k].var, ni0, na0));
    }
}

/// Describe the MiMC circuit for the given round constants: allocate the
/// witness halves, then per round a squared value and a new left half, the
/// last of which is the public image input, with the two quadratic
/// constraints wiring each round.
///
/// The constraint shape depends on the constants alone; with a witness
/// present, the returned assignment satisfies every constraint and the one
/// public input carries the MiMC image of the witness.
pub fn synthesize(witness: &WitnessState, constants: &Vec<Fr>) -> (r: CircuitPlan)
    requires
        witness_wf(*witness),
        all_wf(constants@),
        1 <= constants@.len() <= 0x1000_0000,
    ensures
        plan_wf(r),
        plan_shape_ok(r, fr_values(constants@)),
        (r.input_values is Some <==> *witness is Present),
        *witness matches WitnessState::Present(wl, wr) ==> plan_satisfied(r)
            && r.input_values.unwrap()@.len() == 1 && r.input_values.unwrap()@[0].value()
            == mimc_spec(wl.value(), wr.value(), fr_values(constants@)),
{
    let ghost cvals = fr_values(constants@);
    let r_count = constants.len();
    let present: bool;
    let mut cur_l: Fr;
    let mut cur_r: Fr;
    match witness {
        WitnessState::Absent => {
            present = false;
            cur_l = Fr::from_u64(0);
            cur_r = Fr::from_u64(0);
        },
        WitnessState::Present(a, b) => {
            present = true;
            cur_l = a.dup();
            cur_r = b.dup();
        },
    }
    let one = Fr::from_u64(1);
    let neg_one = one.neg();
    let mut cvec: Vec<Constraint> = Vec::new();
    let mut aux: Vec<Fr> = Vec::new();
    let mut inputs: Vec<Fr> = Vec::new();
    aux.push(cur_l.dup());
    aux.push(cur_r.dup());
    proof {
        assert(cvals.skip(0) =~= cvals);
        assert(fr_values(aux@)[0] == aux@[0].value());
        assert(fr_values(aux@)[1] == aux@[1].value());
    }
    let mut i: usize = 0;
    while i < r_count
        invariant
            r_count == constants@.len(),
            1 <= r_count <= 0x1000_0000,
            cvals == fr_values(constants@),
            all_wf(constants@),
            witness_wf(*witness),
            (present <==> *witness is Present),
            0 <= i <= r_count,
            one.wf(),
            one.value() == 1,
            neg_one.wf(),
            neg_one.value() == fp() - 1,
            cur_l.wf(),
            cur_r.wf(),
            all_wf(aux@),
            all_wf(inputs@),
            i < r_count ==> aux@.len() == 2 + 2 * i && inputs@.len() == 0,
            i == r_count ==> aux@.len() == 2 * r_count + 1 && inputs@.len() == 1,
            cvec@.len() == 2 * i,
            forall|j: int|
                0 <= j < i ==> #[trigger] constraint_view(cvec@[2 * j]) == square_cv(j, cvals[j]),
            forall|j: int|
                0 <= j < i ==> #[trigger] constraint_view(cvec@[2 * j + 1]) == cube_cv(
                    j,
                    r_count as int,
                    cvals[j],
                ),
            forall|k: int|
                0 <= k < cvec@.len() ==> constraint_wf(
                    #[trigger] cvec@[k],
                    inputs@.len() as int,
                    aux@.len() as int,
                ),
            present ==> forall|k: int|
                0 <= k < cvec@.len() ==> constraint_holds(
                    #[trigger] cvec@[k],
                    fr_values(inputs@),
                    fr_values(aux@),
                ),
            present && i < r_count ==> var_value(
                xl_var(i as int),
                fr_values(inputs@),
                fr_values(aux@),
            ) == cur_l.value() && var_value(xr_var(i as int), fr_values(inputs@), fr_values(aux@))
                == cur_r.value(),
            present && i == r_count ==> inputs@[0].value() == cur_l.value(),
            *witness matches WitnessState::Present(wl, wr) ==> mimc_spec(
                cur_l.value(),
                cur_r.value(),
                cvals.skip(i as int),
            ) == mimc_spec(wl.value(), wr.value(), cvals),
        decreases r_count - i,
    {
        let ghost old_ivv = fr_values(inputs@);
        let ghost old_avv = fr_values(aux@);
        let last = i + 1 == r_count;
        // exec copies of the round's variables, equal to the spec wiring
        let xl_v: Var = if i == 0 {
            Var::Aux(0)
        } else {
            Var::Aux(2 * i + 1)
        };
        let xr_v: Var = if i == 0 {
            Var::Aux(1)
        } else if i == 1 {
            Var::Aux(0)
        } else {
            Var::Aux(2 * (i - 1) + 1)
        };
        let t_v: Var = Var::Aux(2 * i + 2);
        let o_v: Var = if last {
            Var::Input(0)
        } else {
            Var::Aux(2 * i + 3)
        };
        proof {
            assert(xl_v == xl_var(i as int));
            assert(xr_v == xr_var(i as int));
            assert(t_v == tmp_var(i as int));
            assert(o_v == out_var(i as int, r_count as int));
            assert(constants@[i as int].wf());
            assert(cvals[i as int] == constants@[i as int].value());
        }
        // the round's values (dummies when the witness is absent)
        let t = cur_l.add(&constants[i]);
        let t2 = t.mul(&t);
        let t3 = t2.mul(&t);
        let new_l = cur_r.add(&t3);
        // allocate the squared value, then the new left half
        aux.push(t2.dup());
        if last {
            inputs.push(new_l.dup());
        } else {
            aux.push(new_l.dup());
        }
        let ghost new_ivv = fr_values(inputs@);
        let ghost new_avv = fr_values(aux@);
        proof {
            if last {
                assert(new_avv =~= old_avv.push(t2.value()));
                assert(new_ivv =~= old_ivv.push(new_l.value()));
            } else {
                assert(new_avv =~= old_avv.push(t2.value()).push(new_l.value()));
                assert(new_ivv =~= old_ivv);
            }
            assert(old_ivv.is_prefix_of(new_ivv)) by {
                assert(new_ivv.take(old_ivv.len() as int) =~= old_ivv);
            }
            assert(old_avv.is_prefix_of(new_avv)) by {
                assert(new_avv.take(old_avv.len() as int) =~= old_avv);
            }
        }
        // the round's two constraints
        let sq = Constraint {
            a: lc2(xl_v, one.dup(), Var::One, constants[i].dup()),
            b: lc2(xl_v, one.dup(), Var::One, constants[i].dup()),
            c: lc1(t_v, one.dup()),
        };
        let cb = Constraint {
            a: lc1(t_v, one.dup()),
            b: lc2(xl_v, one.dup(), Var::One, constants[i].dup()),
            c: lc2(o_v, one.dup(), xr_v, neg_one.dup()),
        };
        proof {
            assert(constraint_view(sq) == square_cv(i as int, cvals[i as int]));
            assert(constraint_view(cb) == cube_cv(i as int, r_count as int, cvals[i as int]));
        }
        let ghost old_cvec = cvec@;
        cvec.push(sq);
        cvec.push(cb);
        proof {
            let ii = i as int;
            let rr = r_count as int;
            let c = cvals[ii];
            // the new assignment still covers every old constraint, and the
            // two new ones only name covered variables
            let nivl = new_ivv.len() as int;
            let navl = new_avv.len() as int;
            assert(var_bounded(Var::One, nivl, navl));
            assert(var_bounded(xl_v, nivl, navl));
            assert(var_bounded(xr_v, nivl, navl));
            assert(var_bounded(t_v, nivl, navl));
            assert(var_bounded(o_v, nivl, navl));
            assert(constraint_wf(sq, nivl, navl)) by {
                assert forall|m: int|
                    0 <= m < sq.a@.len() implies (#[trigger] sq.a@[m]).coeff.wf() && var_bounded(
                    sq.a@[m].var,
                    nivl,
                    navl,
                ) by {
                    if m == 0 {
                        assert(sq.a@[m].var == xl_v);
                    } else {
                        assert(sq.a@[m].var == Var::One);
                    }
                }
                assert forall|m: int|
                    0 <= m < sq.b@.len() implies (#[trigger] sq.b@[m]).coeff.wf() && var_bounded(
                    sq.b@[m].var,
                    nivl,
                    navl,
                ) by {
                    if m == 0 {
                        assert(sq.b@[m].var == xl_v);
                    } else {
                        assert(sq.b@[m].var == Var::One);
                    }
                }
                assert forall|m: int|
                    0 <= m < sq.c@.len() implies (#[trigger] sq.c@[m]).coeff.wf() && var_bounded(
                    sq.c@[m].var,
                    nivl,
                    navl,
                ) by {
                    assert(sq.c@[m].var == t_v);
                }
            }
            assert(constraint_wf(cb, nivl, navl)) by {
                assert forall|m: int|
                    0 <= m < cb.a@.len() implies (#[trigger] cb.a@[m]).coeff.wf() && var_bounded(
                    cb.a@[m].var,
                    nivl,
                    navl,
                ) by {
                    assert(cb.a@[m].var == t_v);
                }
                assert forall|m: int|
                    0 <= m < cb.b@.len() implies (#[trigger] cb.b@[m]).coeff.wf() && var_bounded(
                    cb.b@[m].var,
                    nivl,
                    navl,
                ) by {
                    if m == 0 {
                        assert(cb.b@[m].var == xl_v);
                    } else {
                        assert(cb.b@[m].var == Var::One);
                    }
                }
                assert forall|m: int|
                    0 <= m < cb.c@.len() implies (#[trigger] cb.c@[m]).coeff.wf() && var_bounded(
                    cb.c@[m].var,
                    nivl,
                    navl,
                ) by {
                    if m == 0 {
                        assert(cb.c@[m].var == o_v);
                    } else {
                        assert(cb.c@[m].var == xr_v);
                    }
                }
            }
            assert forall|k: int|
                0 <= k < cvec@.len() implies constraint_wf(#[trigger] cvec@[k], nivl, navl) by {
                if k < old_cvec.len() {
                    assert(cvec@[k] == old_cvec[k]);
                    assert(constraint_wf(old_cvec[k], old_ivv.len() as int, old_avv.len() as int));
                    lemma_constraint_wf_monotone(
                        old_cvec[k],
                        old_ivv.len() as int,
                        old_avv.len() as int,
                        nivl,
                        navl,
                    );
                } else if k == old_cvec.len() {
                    assert(cvec@[k] == sq);
                } else {
                    assert(cvec@[k] == cb);
                }
            }
            // values of the round's variables under the new assignment
            if present {
                let l = cur_l.value();
                let r = cur_r.value();
                lemma_var_value_stable(xl_var(ii), old_ivv, old_avv, new_ivv, new_avv);
                lemma_var_value_stable(xr_var(ii), old_ivv, old_avv, new_ivv, new_avv);
                assert(var_value(xl_var(ii), new_ivv, new_avv) == l);
                assert(var_value(xr_var(ii), new_ivv, new_avv) == r);
                assert(var_value(tmp_var(ii), new_ivv, new_avv) == t2.value()) by {
                    assert(new_avv[2 * ii + 2] == t2.value());
                }
                assert(var_value(out_var(ii, rr), new_ivv, new_avv) == new_l.value()) by {
                    if ii == rr - 1 {
                        assert(new_ivv[0] == new_l.value());
                    } else {
                        assert(new_avv[2 * ii + 3] == new_l.value());
                    }
                }
                lemma_square_holds(ii, c, l, t2.value(), new_ivv, new_avv);
                lemma_cube_holds(ii, rr, c, l, r, t2.value(), new_l.value(), new_ivv, new_avv);
                assert forall|k: int|
                    0 <= k < cvec@.len() implies constraint_holds(
                    #[trigger] cvec@[k],
                    new_ivv,
                    new_avv,
                ) by {
                    if k < old_cvec.len() {
                        assert(cvec@[k] == old_cvec[k]);
                        lemma_cview_holds_stable(
                            constraint_view(old_cvec[k]),
                            old_ivv,
                            old_avv,
                            new_ivv,
                            new_avv,
                        );
                    } else if k == old_cvec.len() {
                        assert(cvec@[k] == sq);
                    } else {
                        assert(cvec@[k] == cb);
                    }
                }
                // the next round reads its halves from this round's outputs
                if ii + 1 < rr {
                    assert(var_value(xl_var(ii + 1), new_ivv, new_avv) == new_l.value()) by {
                        assert(xl_var(ii + 1) == Var::Aux((2 * ii + 3) as usize));
                        assert(new_avv[2 * ii + 3] == new_l.value());
                    }
                    assert(var_value(xr_var(ii + 1), new_ivv, new_avv) == l) by {
                        assert(xr_var(ii + 1) == xl_var(ii));
                    }
                }
                // the running pair still heads for the same image
                lemma_cube_step(l, r, c);
                assert(cvals.skip(ii)[0] == cvals[ii]);
                assert(cvals.skip(ii).drop_first() =~= cvals.skip(ii + 1));
            }
            // shape of the two new constraints
            assert(constraint_view(cvec@[2 * ii]) == square_cv(ii, cvals[ii])) by {
                assert(cvec@[2 * ii] == sq);
            }
            assert(constraint_view(cvec@[2 * ii + 1]) == cube_cv(ii, rr, cvals[ii])) by {
                assert(cvec@[2 * ii + 1] == cb);
            }
            assert forall|j: int|
                0 <= j < i + 1 implies #[trigger] constraint_view(cvec@[2 * j]) == square_cv(
                j,
                cvals[j],
            ) by {
                if j < i {
                    assert(cvec@[2 * j] == old_cvec[2 * j]);
                }
            }
            assert forall|j: int|
                0 <= j < i + 1 implies #[trigger] constraint_view(cvec@[2 * j + 1]) == cube_cv(
                j,
                r_count as int,
                cvals[j],
            ) by {
                if j < i {
                    assert(cvec@[2 * j + 1] == old_cvec[2 * j + 1]);
                }
            }
        }
        cur_r = cur_l;
        cur_l = new_l;
        i = i + 1;
    }
    let input_values: Option<Vec<Fr>>;
    let aux_values: Option<Vec<Fr>>;
    if present {
        input_values = Some(inputs);
        aux_values = Some(aux);
    } else {
        input_values = None;
        aux_values = None;
    }
    let plan = CircuitPlan {
        num_inputs: 1,
        num_aux: 2 * r_count + 1,
        constraints: cvec,
        input_values,
        aux_values,
    };
    proof {
        assert(cvals.skip(r_count as int) =~= Seq::<nat>::empty());
    }
    plan
}

/// Every value of an assignment is reduced mod the field order.
pub open spec fn seq_reduced(s: Seq<nat>) -> bool {
    forall|i: int| 0 <= i < s.len() ==> s[i] < fp()
}

proof fn lemma_plan_sound_rec(cs: Seq<nat>, iv: Seq<nat>, av: Seq<nat>, i: int, l: nat, r: nat)
    requires
        1 <= cs.len() <= 0x1000_0000,
        seq_reduced(cs),
        iv.len() == 1,
        av.len() == 2 * cs.len() + 1,
        seq_reduced(iv),
        seq_reduced(av),
        forall|j: int| 0 <= j < cs.len() ==> cview_holds(#[trigger] square_cv(j, cs[j]), iv, av),
        forall|j: int|
            0 <= j < cs.len() ==> cview_holds(
                #[trigger] cube_cv(j, cs.len() as int, cs[j]),
                iv,
                av,
            ),
        0 <= i < cs.len(),
        var_value(xl_var(i), iv, av) == l,
        var_value(xr_var(i), iv, av) == r,
        l < fp(),
        r < fp(),
    ensures
        iv[0] == mimc_spec(l, r, cs.skip(i)),
    decreases cs.len() - i,
{
    let rounds = cs.len() as int;
    let c = cs[i];
    let t = (l + c) % fp();
    let pm1 = (fp() - 1) as nat;
    let t2v = var_value(tmp_var(i), iv, av);
    let outv = var_value(out_var(i, rounds), iv, av);
    assert((2 * i + 2) as usize as int == 2 * i + 2);
    assert((2 * i + 3) as usize as int == 2 * i + 3);
    assert(t2v == av[2 * i + 2]);
    assert(t2v < fp());
    assert(outv < fp()) by {
        if i == rounds - 1 {
            assert(outv == iv[0]);
        } else {
            assert(outv == av[2 * i + 3]);
        }
    }
    // the square constraint pins the squared value
    assert(cview_holds(square_cv(i, cs[i]), iv, av));
    let scv = square_cv(i, c);
    assert(scv.0 == seq![(xl_var(i), 1nat), (Var::One, c)]);
    assert(scv.1 == scv.0);
    assert(scv.2 == seq![(tmp_var(i), 1nat)]);
    lemma_lc_sum2((xl_var(i), 1nat), (Var::One, c), iv, av);
    lemma_lc_sum1((tmp_var(i), 1nat), iv, av);
    assert(var_value(Var::One, iv, av) == 1);
    assert(lc_sum(scv.0, iv, av) == lc_sum(seq![(xl_var(i), 1nat), (Var::One, c)], iv, av));
    assert(lc_sum(seq![(xl_var(i), 1nat), (Var::One, c)], iv, av) == 1nat * var_value(
        xl_var(i),
        iv,
        av,
    ) + c * var_value(Var::One, iv, av));
    assert(1nat * var_value(xl_var(i), iv, av) == l);
    assert(c * var_value(Var::One, iv, av) == c);
    assert(lc_sum(scv.0, iv, av) == l + c);
    assert(lc_sum(scv.2, iv, av) == lc_sum(seq![(tmp_var(i), 1nat)], iv, av));
    assert(lc_sum(seq![(tmp_var(i), 1nat)], iv, av) == 1nat * var_value(tmp_var(i), iv, av));
    assert(lc_sum(scv.2, iv, av) == t2v);
    assert((lc_sum(scv.0, iv, av) * lc_sum(scv.1, iv, av)) % fp() == lc_sum(scv.2, iv, av) % fp());
    vstd::arithmetic::div_mod::lemma_small_mod(t2v, fp());
    assert(t2v == ((l + c) * (l + c)) % fp());
    vstd::arithmetic::div_mod::lemma_mul_mod_noop_general(
        (l + c) as int,
        (l + c) as int,
        fp() as int,
    );
    assert(t2v == (t * t) % fp());
    // the cube constraint pins the round's output
    assert(cview_holds(cube_cv(i, cs.len() as int, cs[i]), iv, av));
    let ccv = cube_cv(i, rounds, c);
    assert(ccv.0 == seq![(tmp_var(i), 1nat)]);
    assert(ccv.1 == seq![(xl_var(i), 1nat), (Var::One, c)]);
    assert(ccv.2 == seq![(out_var(i, rounds), 1nat), (xr_var(i), pm1)]);
    assert(lc_sum(ccv.0, iv, av) == lc_sum(seq![(tmp_var(i), 1nat)], iv, av));
    assert(lc_sum(ccv.0, iv, av) == t2v);
    assert(lc_sum(ccv.1, iv, av) == lc_sum(seq![(xl_var(i), 1nat), (Var::One, c)], iv, av));
    assert(lc_sum(ccv.1, iv, av) == l + c);
    lemma_lc_sum2((out_var(i, rounds), 1nat), (xr_var(i), pm1), iv, av);
    assert(lc_sum(ccv.2, iv, av) == lc_sum(
        seq![(out_var(i, rounds), 1nat), (xr_var(i), pm1)],
        iv,
        av,
    ));
    assert(lc_sum(ccv.2, iv, av) == 1nat * outv + pm1 * r);
    assert((lc_sum(ccv.0, iv, av) * lc_sum(ccv.1, iv, av)) % fp() == lc_sum(ccv.2, iv, av)
        % fp());
    assert((t2v * (l + c)) % fp() == (outv + pm1 * r) % fp());
    let t3v = (t2v * t) % fp();
    vstd::arithmetic::div_mod::lemma_mul_mod_noop_right(t2v as int, (l + c) as int, fp() as int);
    assert(t3v == (outv + pm1 * r) % fp());
    assert(outv == (r + t3v) % fp()) by {
        vstd::arithmetic::div_mod::lemma_add_mod_noop_right(
            r as int,
            ((outv + pm1 * r) % fp()) as int,
            fp() as int,
        );
        assert((r + t3v) % fp() == (r + outv + pm1 * r) % fp());
        assert(pm1 * r == (fp() - 1) * r);
        assert(r + outv + (fp() - 1) * r == fp() * r + outv) by (nonlinear_arith);
        vstd::arithmetic::div_mod::lemma_mod_multiples_vanish(r as int, outv as int, fp() as int);
        vstd::arithmetic::div_mod::lemma_small_mod(outv, fp());
    }
    // the output is the specification's round value
    assert(t3v == (t * t * t) % fp()) by {
        vstd::arithmetic::div_mod::lemma_mul_mod_noop_left((t * t) as int, t as int, fp() as int);
    }
    assert(outv == (r + (t * t * t)) % fp()) by {
        vstd::arithmetic::div_mod::lemma_add_mod_noop_right(
            r as int,
            (t * t * t) as int,
            fp() as int,
        );
    }
    assert(cs.skip(i)[0] == c);
    assert(cs.skip(i).drop_first() =~= cs.skip(i + 1));
    assert(mimc_spec(l, r, cs.skip(i)) == mimc_spec(outv, l, cs.skip(i + 1)));
    if i + 1 == rounds {
        assert(outv == iv[0]);
        assert(cs.skip(i + 1) =~= Seq::<nat>::empty());
        assert(mimc_spec(outv, l, cs.skip(i + 1)) == outv);
    } else {
        assert(var_value(xl_var(i + 1), iv, av) == outv) by {
            assert(xl_var(i + 1) == out_var(i, rounds));
        }
        assert(var_value(xr_var(i + 1), iv, av) == l) by {
            assert(xr_var(i + 1) == xl_var(i));
        }
        lemma_plan_sound_rec(cs, iv, av, i + 1, outv, l);
    }
}

/// Law: the constraint system is sound for the permutation — under any
/// assignment of reduced values that satisfies every constraint of the
/// required shape, the one public input is exactly the MiMC image of the two
/// allocated witness halves. Together with the synthesis contract (which
/// builds a satisfying assignment whose input is the image), the circuit
/// accepts precisely the claimed images.
pub proof fn lemma_plan_sound(p: CircuitPlan, cs: Seq<nat>, iv: Seq<nat>, av: Seq<nat>)
    requires
        plan_shape_ok(p, cs),
        1 <= cs.len() <= 0x1000_0000,
        seq_reduced(cs),
        iv.len() == 1,
        av.len() == 2 * cs.len() + 1,
        seq_reduced(iv),
        seq_reduced(av),
        forall|k: int|
            0 <= k < p.constraints@.len() ==> constraint_holds(#[trigger] p.constraints@[k], iv, av),
    ensures
        iv[0] == mimc_spec(av[0], av[1], cs),
{
    assert forall|j: int| 0 <= j < cs.len() implies cview_holds(
        #[trigger] square_cv(j, cs[j]),
        iv,
        av,
    ) by {
        assert(constraint_holds(p.constraints@[2 * j], iv, av));
        assert(constraint_view(p.constraints@[2 * j]) == square_cv(j, cs[j]));
    }
    assert forall|j: int| 0 <= j < cs.len() implies cview_holds(
        #[trigger] cube_cv(j, cs.len() as int, cs[j]),
        iv,
        av,
    ) by {
        assert(constraint_holds(p.constraints@[2 * j + 1], iv, av));
        assert(constraint_view(p.constraints@[2 * j + 1]) == cube_cv(j, cs.len() as int, cs[j]));
    }
    assert(var_value(xl_var(0), iv, av) == av[0]);
    assert(var_value(xr_var(0), iv, av) == av[1]);
    lemma_plan_sound_rec(cs, iv, av, 0, av[0], av[1]);
    assert(cs.skip(0) =~= cs);
}

/// Evaluate a linear combination under an assignment, reduced mod the field
/// order.
fn lc_eval(terms: &Vec<Term>, inputs: &Vec<Fr>, aux: &Vec<Fr>) -> (r: Fr)
    requires
        lc_wf(terms@, inputs@.len() as int, aux@.len() as int),
        all_wf(inputs@),
        all_wf(aux@),
    ensures
        r.wf(),
        r.value() == lc_sum(lc_view(terms@), fr_values(inputs@), fr_values(aux@)) % fp(),
{
    let ghost view = lc_view(terms@);
    let ghost ivv = fr_values(inputs@);
    let ghost avv = fr_values(aux@);
    let ghost total = lc_sum(view, ivv, avv);
    let mut acc = Fr::from_u64(0);
    let mut i: usize = 0;
    proof {
        assert(view.skip(0) =~= view);
    }
    while i < terms.len()
        invariant
            0 <= i <= terms@.len(),
            view == lc_view(terms@),
            ivv == fr_values(inputs@),
            avv == fr_values(aux@),
            total == lc_sum(view, ivv, avv),
            lc_wf(terms@, inputs@.len() as int, aux@.len() as int),
            all_wf(inputs@),
            all_wf(aux@),
            acc.wf(),
            (acc.value() + lc_sum(view.skip(i as int), ivv, avv)) % fp() == total % fp(),
        decreases terms@.len() - i,
    {
        proof {
            assert(terms@[i as int].coeff.wf() && var_bounded(
                terms@[i as int].var,
                inputs@.len() as int,
                aux@.len() as int,
            ));
        }
        let val: Fr = match &terms[i].var {
            Var::One => Fr::from_u64(1),
            Var::Input(j) => inputs[*j].dup(),
            Var::Aux(k) => aux[*k].dup(),
        };
        proof {
            assert(var_value(view[i as int].0, ivv, avv) == val.value()) by {
                match terms@[i as int].var {
                    Var::One => {},
                    Var::Input(j) => {
                        assert(ivv[j as int] == inputs@[j as int].value());
                    },
                    Var::Aux(k) => {
                        assert(avv[k as int] == aux@[k as int].value());
                    },
                }
            }
        }
        let cv = terms[i].coeff.mul(&val);
        let ghost old_acc = acc.value();
        acc = acc.add(&cv);
        proof {
            let ii = i as int;
            let c = view[ii].1;
            let v = var_value(view[ii].0, ivv, avv);
            let s1 = lc_sum(view.skip(ii + 1), ivv, avv);
            assert(view.skip(ii)[0] == view[ii]);
            assert(view.skip(ii).drop_first() =~= view.skip(ii + 1));
            assert(lc_sum(view.skip(ii), ivv, avv) == c * v + s1);
            vstd::arithmetic::div_mod::lemma_add_mod_noop_right(
                s1 as int,
                (old_acc + (c * v) % fp()) as int,
                fp() as int,
            );
            vstd::arithmetic::div_mod::lemma_add_mod_noop_right(
                (old_acc + s1) as int,
                (c * v) as int,
                fp() as int,
            );
        }
        i = i + 1;
    }
    proof {
        assert(view.skip(i as int) =~= Seq::<(Var, nat)>::empty());
        vstd::arithmetic::div_mod::lemma_small_mod(acc.value(), fp());
    }
    acc
}

/// Check every constraint of a plan against the plan's own assignment; a
/// witness that fails any constraint is reported, never passed over.
pub fn check_plan(plan: &CircuitPlan) -> (r: Result<(), ZkError>)
    requires
        plan_wf(*plan),
        plan.input_values is Some,
    ensures
        r is Ok <==> plan_satisfied(*plan),
        r is Err ==> r == Err::<(), ZkError>(ZkError::WitnessMismatch),
{
    let inputs = plan.input_values.as_ref().unwrap();
    let aux = plan.aux_values.as_ref().unwrap();
    let ghost ivv = fr_values(inputs@);
    let ghost avv = fr_values(aux@);
    let mut k: usize = 0;
    while k < plan.constraints.len()
        invariant
            plan_wf(*plan),
            plan.input_values is Some,
            plan.aux_values is Some,
            inputs == plan.input_values.unwrap(),
            aux == plan.aux_values.unwrap(),
            ivv == fr_values(inputs@),
            avv == fr_values(aux@),
            0 <= k <= plan.constraints@.len(),
            forall|j: int|
                0 <= j < k ==> constraint_holds(#[trigger] plan.constraints@[j], ivv, avv),
        decreases plan.constraints@.len() - k,
    {
        proof {
            assert(constraint_wf(
                plan.constraints@[k as int],
                plan.num_inputs as int,
                plan.num_aux as int,
            ));
        }
        let c = &plan.constraints[k];
        let av = lc_eval(&c.a, inputs, aux);
        let bv = lc_eval(&c.b, inputs, aux);
        let cval = lc_eval(&c.c, inputs, aux);
        let prod = av.mul(&bv);
        proof {
            let a_s = lc_sum(lc_view(c.a@), ivv, avv);
            let b_s = lc_sum(lc_view(c.b@), ivv, avv);
            vstd::arithmetic::div_mod::lemma_mul_mod_noop_general(
                a_s as int,
                b_s as int,
                fp() as int,
            );
            assert(prod.value() == (a_s * b_s) % fp());
        }
        if !prod.eq_fr(&cval) {
            return Err(ZkError::WitnessMismatch);
        }
        k = k + 1;
    }
    Ok(())
}

} // verus!
