//! Relation input hints: which argument positions of a relation are its
//! inputs. A rule's conclusion splits into inputs and outputs by the hint,
//! and the two parts, once analysed, combine back in argument order.

use vstd::prelude::*;
use crate::span::Span;
use crate::il::Exp;
use crate::algo::error::{AlgoError, AlgoErrorKind};

verus! {

/// Position `i` is an input.
pub open spec fn is_input(ps: Seq<usize>, i: int) -> bool {
    0 <= i && ps.contains(i as usize)
}

/// Every input position lies among the `n` arguments.
pub open spec fn hint_fits(ps: Seq<usize>, n: int) -> bool {
    forall|k: int| 0 <= k < ps.len() ==> (#[trigger] ps[k]) < n
}

/// The number of input positions before `i`.
pub open spec fn inputs_before(ps: Seq<usize>, i: int) -> int
    decreases i,
{
    if i <= 0 {
        0
    } else {
        inputs_before(ps, i - 1) + if is_input(ps, i - 1) { 1int } else { 0int }
    }
}

/// The items at input positions, in order.
pub open spec fn inputs_of<T>(ps: Seq<usize>, s: Seq<T>) -> Seq<T>
    decreases s.len(),
{
    if s.len() == 0 {
        Seq::empty()
    } else {
        let p = inputs_of(ps, s.drop_last());
        if is_input(ps, s.len() - 1) { p.push(s.last()) } else { p }
    }
}

/// The items at the other positions, in order.
pub open spec fn outputs_of<T>(ps: Seq<usize>, s: Seq<T>) -> Seq<T>
    decreases s.len(),
{
    if s.len() == 0 {
        Seq::empty()
    } else {
        let p = outputs_of(ps, s.drop_last());
        if is_input(ps, s.len() - 1) { p } else { p.push(s.last()) }
    }
}

/// `n` arguments in order: at an input position the next input, elsewhere
/// the next output.
pub open spec fn interleave<T>(ps: Seq<usize>, ins: Seq<T>, outs: Seq<T>, n: int) -> Seq<T> {
    Seq::new(n as nat, |i: int| if is_input(ps, i) { ins[inputs_before(ps, i)] } else { outs[i - inputs_before(ps, i)] })
}

/// There are at most `i` input positions before `i`.
pub proof fn lemma_inputs_before_bounds(ps: Seq<usize>, n: int)
    requires
        0 <= n,
    ensures
        forall|i: int| 0 <= i <= n ==> 0 <= #[trigger] inputs_before(ps, i) <= i,
    decreases n,
{
    if n > 0 {
        lemma_inputs_before_bounds(ps, n - 1);
        assert forall|i: int| 0 <= i <= n implies 0 <= #[trigger] inputs_before(ps, i) <= i by {
            if i == n {
                assert(inputs_before(ps, n) == inputs_before(ps, n - 1) + if is_input(ps, n - 1) { 1int } else { 0int });
            }
        }
    }
}

/// The inputs and the outputs of `s` together are as many as its items.
pub proof fn lemma_parts_len<T>(ps: Seq<usize>, s: Seq<T>)
    ensures
        inputs_of(ps, s).len() == inputs_before(ps, s.len() as int),
        outputs_of(ps, s).len() == s.len() - inputs_before(ps, s.len() as int),
    decreases s.len(),
{
    if s.len() > 0 {
        lemma_parts_len(ps, s.drop_last());
    }
}

/// Splits `exps` into the inputs and the outputs of the hint `ps`; a hint
/// naming a position past the arguments fails at `span`.
pub fn split_inputs(ps: &Vec<usize>, exps: Vec<Exp>, span: Span) -> (r: Result<(Vec<Exp>, Vec<Exp>), AlgoError>)
    ensures
        r is Ok <==> hint_fits(ps@, exps@.len() as int),
        r matches Ok((ins, outs)) ==> ins@ == inputs_of(ps@, exps@) && outs@ == outputs_of(ps@, exps@),
        r matches Err(e) ==> e == AlgoError::new_spec(AlgoErrorKind::InputHint, span),
{
    let n = exps.len();
    for k in 0..ps.len()
        invariant
            n == exps@.len(),
            forall|j: int| 0 <= j < k ==> (#[trigger] ps@[j]) < n,
    {
        if ps[k] >= n {
            return Err(AlgoError::new(AlgoErrorKind::InputHint, span));
        }
    }
    let ghost s = exps@;
    let mut rest = exps;
    let mut ins: Vec<Exp> = Vec::new();
    let mut outs: Vec<Exp> = Vec::new();
    let mut i: usize = 0;
    proof {
        assert(s.take(0) =~= Seq::<Exp>::empty());
    }
    while i < n
        invariant
            n == s.len(),
            i <= n,
            rest@ == s.skip(i as int),
            ins@ == inputs_of(ps@, s.take(i as int)),
            outs@ == outputs_of(ps@, s.take(i as int)),
        decreases n - i,
    {
        proof {
            assert(s.take(i + 1).drop_last() =~= s.take(i as int));
            assert(s.take(i + 1).last() == s[i as int]);
            assert(rest@[0] == s[i as int]);
        }
        let e = rest.remove(0);
        let mut input = false;
        for k in 0..ps.len()
            invariant
                input == exists|j: int| 0 <= j < k && ps@[j] == i,
        {
            if ps[k] == i {
                input = true;
            }
        }
        proof {
            assert(input == is_input(ps@, i as int)) by {
                if is_input(ps@, i as int) {
                    let j = choose|j: int| 0 <= j < ps@.len() && ps@[j] == i as usize;
                }
            }
            assert(rest@ =~= s.skip(i + 1));
        }
        if input {
            ins.push(e);
        } else {
            outs.push(e);
        }
        i = i + 1;
    }
    proof {
        assert(s.take(n as int) =~= s);
    }
    Ok((ins, outs))
}

/// Combines analysed inputs and outputs back into `n` arguments in order.
pub fn combine_inputs(ps: &Vec<usize>, ins: Vec<Exp>, outs: Vec<Exp>) -> (r: Vec<Exp>)
    requires
        ins@.len() + outs@.len() <= usize::MAX,
        ins@.len() == inputs_before(ps@, (ins@.len() + outs@.len()) as int),
    ensures
        r@ == interleave(ps@, ins@, outs@, (ins@.len() + outs@.len()) as int),
{
    let ghost si = ins@;
    let ghost so = outs@;
    let n = ins.len() + outs.len();
    proof {
        lemma_inputs_before_bounds(ps@, n as int);
    }
    let mut ins = ins;
    let mut outs = outs;
    let mut r: Vec<Exp> = Vec::new();
    let mut i: usize = 0;
    while i < n
        invariant
            n == si.len() + so.len(),
            si.len() == inputs_before(ps@, n as int),
            i <= n,
            forall|j: int| 0 <= j <= n ==> 0 <= #[trigger] inputs_before(ps@, j) <= j,
            ins@ == si.skip(inputs_before(ps@, i as int)),
            outs@ == so.skip(i - inputs_before(ps@, i as int)),
            r@ == interleave(ps@, si, so, i as int),
        decreases n - i,
    {
        let mut input = false;
        for k in 0..ps.len()
            invariant
                input == exists|j: int| 0 <= j < k && ps@[j] == i,
        {
            if ps[k] == i {
                input = true;
            }
        }
        proof {
            assert(input == is_input(ps@, i as int)) by {
                if is_input(ps@, i as int) {
                    let j = choose|j: int| 0 <= j < ps@.len() && ps@[j] == i as usize;
                }
            }
            lemma_inputs_before_mono(ps@, i + 1, n as int);
        }
        let e = if input {
            proof {
                assert(inputs_before(ps@, i + 1) == inputs_before(ps@, i as int) + 1);
                assert(ins@.len() > 0);
            }
            ins.remove(0)
        } else {
            proof {
                assert(i - inputs_before(ps@, i as int) < so.len());
            }
            outs.remove(0)
        };
        r.push(e);
        proof {
            assert(ins@ =~= si.skip(inputs_before(ps@, i + 1)));
            assert(outs@ =~= so.skip(i + 1 - inputs_before(ps@, i + 1)));
            assert(r@ =~= interleave(ps@, si, so, i + 1));
        }
        i = i + 1;
    }
    r
}

proof fn lemma_inputs_before_mono(ps: Seq<usize>, i: int, j: int)
    requires
        0 <= i <= j,
    ensures
        inputs_before(ps, i) <= inputs_before(ps, j),
        inputs_before(ps, j) - inputs_before(ps, i) <= j - i,
    decreases j - i,
{
    if i < j {
        lemma_inputs_before_mono(ps, i, j - 1);
    }
}

} // verus!
