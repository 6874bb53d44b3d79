//! Collapsing degenerate plan nodes.
//!
//! A parallel or sequence node around exactly one child says nothing: the
//! minifier replaces it by its minified child, everywhere in the tree. An
//! empty parallel or sequence node is an error. Fetches stay as they are
//! and flatten nodes are minified inside.

use vstd::prelude::*;

use crate::error::Error;
use crate::error::is_plan_message;
use crate::model::PlanV;
use crate::model::QueryPlan;
use crate::model::lemma_plans_view;
use crate::model::plans_view;
use crate::transform::Transform;
use crate::valid::CauseV;
use crate::valid::Valid;
use crate::valid::ValidationError;

verus! {

/// What minifying one plan yields: the minified plan, or the messages of
/// every empty node found, in order.
pub open spec fn minify_plan(p: PlanV) -> Result<PlanV, Seq<Seq<char>>>
    decreases p,
{
    match p {
        PlanV::Parallel(items) => if items.len() == 1 {
            minify_plan(items[0])
        } else if items.len() == 0 {
            Result::Err(seq!["Empty Parallel"@])
        } else {
            match minify_each(items) {
                Result::Ok(its) => Result::Ok(PlanV::Parallel(its)),
                Result::Err(msgs) => Result::Err(msgs),
            }
        },
        PlanV::Sequence(items) => if items.len() == 1 {
            minify_plan(items[0])
        } else if items.len() == 0 {
            Result::Err(seq!["Empty Sequence"@])
        } else {
            match minify_each(items) {
                Result::Ok(its) => Result::Ok(PlanV::Sequence(its)),
                Result::Err(msgs) => Result::Err(msgs),
            }
        },
        PlanV::Fetch(_) => Result::Ok(p),
        PlanV::Flatten { select, plan } => match minify_plan(*plan) {
            Result::Ok(q) => Result::Ok(PlanV::Flatten { select, plan: Box::new(q) }),
            Result::Err(msgs) => Result::Err(msgs),
        },
    }
}

/// Minifies every child, accumulating: all minified children in order when
/// all succeed, and otherwise every message of every failing child.
pub open spec fn minify_each(items: Seq<PlanV>) -> Result<Seq<PlanV>, Seq<Seq<char>>>
    decreases items,
{
    if items.len() == 0 {
        Result::Ok(Seq::<PlanV>::empty())
    } else {
        let head = minify_plan(items[0]);
        let tail = minify_each(items.drop_first());
        match head {
            Result::Ok(q) => match tail {
                Result::Ok(qs) => Result::Ok(seq![q] + qs),
                Result::Err(msgs) => Result::Err(msgs),
            },
            Result::Err(ms) => match tail {
                Result::Ok(_) => Result::Err(ms),
                Result::Err(msgs) => Result::Err(ms + msgs),
            },
        }
    }
}

proof fn lemma_minify_each_push(items: Seq<PlanV>, x: PlanV)
    ensures
        minify_each(items.push(x)) == (match (minify_each(items), minify_plan(x)) {
            (Result::Ok(qs), Result::Ok(q)) => Result::<Seq<PlanV>, Seq<Seq<char>>>::Ok(
                qs.push(q),
            ),
            (Result::Ok(_), Result::Err(ms)) => Result::Err(ms),
            (Result::Err(msgs), Result::Ok(_)) => Result::Err(msgs),
            (Result::Err(msgs), Result::Err(ms)) => Result::Err(msgs + ms),
        }),
    decreases items.len(),
{
    if items.len() == 0 {
        assert(items.push(x).drop_first() =~= items);
        match (minify_each(items), minify_plan(x)) {
            (Result::Ok(qs), Result::Ok(q)) => {
                assert(seq![q] + qs =~= qs.push(q));
            },
            (Result::Err(msgs), Result::Err(ms)) => {
                assert(msgs + ms =~= ms);
            },
            _ => {},
        }
    } else {
        assert(items.push(x).drop_first() =~= items.drop_first().push(x));
        lemma_minify_each_push(items.drop_first(), x);
        assert(items.push(x)[0] == items[0]);
        match (minify_each(items), minify_plan(x)) {
            (Result::Ok(qs), Result::Ok(q)) => {
                assert(minify_each(items.push(x)) matches Result::Ok(r) && r =~= qs.push(q));
            },
            (Result::Err(msgs), Result::Err(ms)) => {
                assert(minify_each(items.push(x)) matches Result::Err(r) && r =~= msgs + ms);
            },
            _ => {},
        }
    }
}

/// No parallel or sequence node anywhere in `p` has exactly one child or
/// none.
pub open spec fn no_degenerate_nodes(p: PlanV) -> bool
    decreases p,
{
    match p {
        PlanV::Parallel(items) => items.len() >= 2 && (forall|i: int|
            0 <= i < items.len() ==> no_degenerate_nodes(#[trigger] items[i])),
        PlanV::Sequence(items) => items.len() >= 2 && (forall|i: int|
            0 <= i < items.len() ==> no_degenerate_nodes(#[trigger] items[i])),
        PlanV::Fetch(_) => true,
        PlanV::Flatten { select, plan } => no_degenerate_nodes(*plan),
    }
}

/// Minifying eliminates every singleton and empty node: whatever comes out
/// has none left.
pub proof fn lemma_minify_no_degenerate(p: PlanV)
    ensures
        minify_plan(p) matches Result::Ok(q) ==> no_degenerate_nodes(q),
    decreases p,
{
    match p {
        PlanV::Parallel(items) => {
            if items.len() == 1 {
                lemma_minify_no_degenerate(items[0]);
            } else if items.len() >= 2 {
                lemma_minify_each_no_degenerate(items);
            }
        },
        PlanV::Sequence(items) => {
            if items.len() == 1 {
                lemma_minify_no_degenerate(items[0]);
            } else if items.len() >= 2 {
                lemma_minify_each_no_degenerate(items);
            }
        },
        PlanV::Fetch(_) => {},
        PlanV::Flatten { select, plan } => {
            lemma_minify_no_degenerate(*plan);
        },
    }
}

proof fn lemma_minify_each_no_degenerate(items: Seq<PlanV>)
    ensures
        minify_each(items) matches Result::Ok(qs) ==> {
            &&& qs.len() == items.len()
            &&& forall|i: int| 0 <= i < qs.len() ==> no_degenerate_nodes(#[trigger] qs[i])
        },
    decreases items,
{
    if items.len() > 0 {
        lemma_minify_no_degenerate(items[0]);
        lemma_minify_each_no_degenerate(items.drop_first());
        if minify_each(items) is Ok {
            let qs = minify_each(items)->Ok_0;
            let q = minify_plan(items[0])->Ok_0;
            let rest = minify_each(items.drop_first())->Ok_0;
            assert(qs == seq![q] + rest);
            assert forall|i: int| 0 <= i < qs.len() implies no_degenerate_nodes(
                #[trigger] qs[i],
            ) by {
                if i > 0 {
                    assert(qs[i] == rest[i - 1]);
                }
            }
        }
    }
}

/// Minifying is idempotent: a minified plan minifies to itself.
pub proof fn lemma_minify_idempotent(p: PlanV)
    ensures
        minify_plan(p) matches Result::Ok(q) ==> minify_plan(q) == Result::<
            PlanV,
            Seq<Seq<char>>,
        >::Ok(q),
    decreases p,
{
    if minify_plan(p) is Ok {
        lemma_minify_no_degenerate(p);
        lemma_minify_fixpoint(minify_plan(p)->Ok_0);
    }
}

/// A plan with no degenerate nodes minifies to itself.
proof fn lemma_minify_fixpoint(q: PlanV)
    requires
        no_degenerate_nodes(q),
    ensures
        minify_plan(q) == Result::<PlanV, Seq<Seq<char>>>::Ok(q),
    decreases q,
{
    match q {
        PlanV::Parallel(items) => {
            lemma_minify_each_fixpoint(items);
        },
        PlanV::Sequence(items) => {
            lemma_minify_each_fixpoint(items);
        },
        PlanV::Fetch(_) => {},
        PlanV::Flatten { select, plan } => {
            lemma_minify_fixpoint(*plan);
        },
    }
}

proof fn lemma_minify_each_fixpoint(items: Seq<PlanV>)
    requires
        forall|i: int| 0 <= i < items.len() ==> no_degenerate_nodes(#[trigger] items[i]),
    ensures
        minify_each(items) == Result::<Seq<PlanV>, Seq<Seq<char>>>::Ok(items),
    decreases items,
{
    if items.len() == 0 {
        assert(minify_each(items) matches Result::Ok(qs) && qs =~= items);
    } else {
        lemma_minify_fixpoint(items[0]);
        lemma_minify_each_fixpoint(items.drop_first());
        assert(minify_each(items) matches Result::Ok(qs) && qs =~= items);
    }
}

/// The transform that collapses degenerate plan nodes.
pub struct Minify;

impl Minify {
    /// The minify transform.
    pub fn new() -> (r: Minify) {
        Minify
    }
}

impl Transform for Minify {
    type Value = QueryPlan;

    type Error = Error;

    open spec fn wf(&self) -> bool {
        true
    }

    open spec fn rel(
        &self,
        input: QueryPlan,
        output: Result<QueryPlan, Seq<CauseV<Error>>>,
    ) -> bool {
        match minify_plan(input@) {
            Result::Ok(q) => output matches Result::Ok(r) && r@ == q,
            Result::Err(msgs) => output matches Result::Err(cs) && cs.len() == msgs.len()
                && forall|i: int|
                0 <= i < cs.len() ==> (#[trigger] cs[i]).trace == seq!["minify"@]
                    && is_plan_message(cs[i].message@, msgs[i]),
        }
    }

    fn transform(&self, input: QueryPlan) -> (r: Valid<QueryPlan, Error>) {
        let ghost iv = input@;
        match minify_exec(input) {
            Ok(q) => Valid::succeed(q),
            Err(e) => {
                let ghost ev = e@;
                let traced = e.trace("minify");
                proof {
                    let msgs = minify_plan(iv)->Err_0;
                    assert forall|i: int|
                        0 <= i < traced@.len() implies (#[trigger] traced@[i]).trace
                            == seq!["minify"@] && is_plan_message(
                            traced@[i].message@,
                            msgs[i],
                        ) by {
                        assert(traced@[i] == crate::valid::cause_traced(ev[i], "minify"@));
                        assert(traced@[i].trace =~= seq!["minify"@]);
                    }
                }
                Valid::from_validation_err(traced)
            },
        }
    }
}

/// The causes carried by a minify failure: one plan cause with message
/// `msgs[i]` and no trace, for each message, in order.
pub open spec fn minify_causes(cs: Seq<CauseV<Error>>, msgs: Seq<Seq<char>>) -> bool {
    &&& cs.len() == msgs.len()
    &&& forall|i: int|
        0 <= i < cs.len() ==> (#[trigger] cs[i]).trace.len() == 0 && is_plan_message(
            cs[i].message@,
            msgs[i],
        )
}

/// Minifies one plan, collecting every empty-node message.
#[verifier::loop_isolation(false)]
fn minify_exec(input: QueryPlan) -> (r: Result<QueryPlan, ValidationError<Error>>)
    ensures
        match minify_plan(input@) {
            Result::Ok(q) => r matches Ok(rq) && rq@ == q,
            Result::Err(msgs) => r matches Err(e) && minify_causes(e@, msgs),
        },
    decreases input,
{
    match input {
        QueryPlan::Parallel(items) => {
            proof {
                lemma_plans_view(items@);
            }
            if items.len() == 1 {
                let mut items = items;
                let only = items.remove(0);
                minify_exec(only)
            } else if items.len() == 0 {
                Err(ValidationError::new(Error::plan("Empty Parallel")))
            } else {
                match minify_children(items) {
                    Ok(out) => Ok(QueryPlan::Parallel(out)),
                    Err(e) => Err(e),
                }
            }
        },
        QueryPlan::Sequence(items) => {
            proof {
                lemma_plans_view(items@);
            }
            if items.len() == 1 {
                let mut items = items;
                let only = items.remove(0);
                minify_exec(only)
            } else if items.len() == 0 {
                Err(ValidationError::new(Error::plan("Empty Sequence")))
            } else {
                match minify_children(items) {
                    Ok(out) => Ok(QueryPlan::Sequence(out)),
                    Err(e) => Err(e),
                }
            }
        },
        QueryPlan::Fetch(fetch) => Ok(QueryPlan::Fetch(fetch)),
        QueryPlan::Flatten { select, plan } => {
            match minify_exec(*plan) {
                Ok(q) => Ok(QueryPlan::Flatten { select, plan: Box::new(q) }),
                Err(e) => Err(e),
            }
        },
    }
}

/// Minifies every child in order, accumulating every failure.
#[verifier::loop_isolation(false)]
fn minify_children(items: Vec<QueryPlan>) -> (r: Result<Vec<QueryPlan>, ValidationError<Error>>)
    ensures
        match minify_each(plans_view(items@)) {
            Result::Ok(qs) => r matches Ok(out) && plans_view(out@) == qs,
            Result::Err(msgs) => r matches Err(e) && minify_causes(e@, msgs),
        },
    decreases items@,
{
    let ghost items0 = items@;
    let ghost orig = plans_view(items@);
    proof {
        lemma_plans_view(items@);
    }
    let mut rest = items;
    let mut out: Vec<QueryPlan> = Vec::new();
    let mut errs: ValidationError<Error> = ValidationError::empty();
    let mut failed = false;
    while rest.len() > 0
        invariant
            rest@.len() <= items0.len(),
            orig == plans_view(items0),
            orig.len() == items0.len(),
            rest@ == items0.skip(items0.len() - rest@.len()),
            out@.len() == plans_view(out@).len(),
            !failed ==> out@.len() == orig.len() - rest@.len(),
            !failed ==> errs@ == Seq::<CauseV<Error>>::empty(),
            !failed ==> minify_each(orig.take(orig.len() - rest@.len())) == Result::<
                Seq<PlanV>,
                Seq<Seq<char>>,
            >::Ok(plans_view(out@)),
            failed ==> (minify_each(orig.take(orig.len() - rest@.len())) matches Result::Err(msgs)
                && minify_causes(errs@, msgs)),
        decreases rest@.len(),
    {
        let ghost processed = (items0.len() - rest@.len()) as int;
        proof {
            lemma_plans_view(items0);
            lemma_plans_view(out@);
            assert(rest@[0] == items0[processed]);
            assert(orig.take(processed).push(orig[processed]) =~= orig.take(processed + 1));
            lemma_minify_each_push(orig.take(processed), orig[processed]);
        }
        let x = rest.remove(0);
        proof {
            assert(x == items0[processed]);
            assert(x@ == orig[processed]);
            assert(decreases_to!(items0 => x));
        }
        let ghost old_errs = errs@;
        match minify_exec(x) {
            Ok(q) => {
                if !failed {
                    let ghost outv = plans_view(out@);
                    out.push(q);
                    proof {
                        lemma_plans_view(out@);
                        assert(plans_view(out@) =~= outv.push(q@));
                    }
                }
            },
            Err(e) => {
                let ghost ev = e@;
                let was_failed = failed;
                failed = true;
                errs = errs.combine(e);
                proof {
                    if !was_failed {
                        assert(errs@ =~= ev);
                    }
                }
            },
        }
        proof {
            assert(rest@ =~= items0.skip(items0.len() - rest@.len()));
            if failed {
                let msgs = minify_each(orig.take(processed + 1))->Err_0;
                assert forall|i: int| 0 <= i < errs@.len() implies (#[trigger] errs@[i]).trace.len()
                    == 0 && is_plan_message(errs@[i].message@, msgs[i]) by {
                    if i < old_errs.len() {
                        assert(errs@[i] == old_errs[i]);
                    }
                }
            }
        }
    }
    proof {
        assert(orig.take(orig.len() as int) =~= orig);
        assert(items0.skip(0) =~= items0);
    }
    if failed {
        Err(errs)
    } else {
        Ok(out)
    }
}

} // verus!
