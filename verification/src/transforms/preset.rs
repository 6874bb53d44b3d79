//! The canonical planning pipeline over one index: minify, then enrich,
//! then prune, then choose each fetch's service.
//!
//! Minify runs first so that no degenerate node hides fields from the
//! enricher; the pruner narrows every fetch's root fields to a minimal
//! cover; and a fetch whose whole selection tree can be served by exactly
//! one subgraph is finally assigned that subgraph as its service. Each
//! stage's failures are traced with the stage's name, and minify's are
//! lowered to plain text so the whole pipeline reports strings.

use vstd::prelude::*;

use std::rc::Rc;

use crate::blueprint::Graph;
use crate::error::Error;
use crate::error::error_text;
use crate::error::is_plan_message;
use crate::index::Index;
use crate::model::Fetch;
use crate::model::FetchV;
use crate::model::PlanV;
use crate::model::QueryPlan;
use crate::model::lemma_plans_view;
use crate::model::plans_view;
use crate::names::NameSet;
use crate::transform::Transform;
use crate::transforms::enrich::Enrich;
use crate::transforms::enrich::enrich_plan;
use crate::transforms::minify::Minify;
use crate::transforms::minify::minify_plan;
use crate::transforms::pruner::Pruner;
use crate::transforms::pruner::collect_subgraphs_children;
use crate::transforms::pruner::prune_plan_v;
use crate::valid::CauseV;
use crate::valid::Valid;
use crate::valid::traced_causes;

verus! {

/// The service a fetch ends up with: when exactly one subgraph can serve
/// every field of its selection tree, that subgraph; otherwise whatever
/// the fetch already carried.
pub open spec fn fetch_service_v(f: FetchV) -> Option<Seq<char>> {
    let cands = collect_subgraphs_children(Seq::<Seq<char>>::empty(), f.selection_set);
    if cands.len() == 1 {
        Option::Some(cands[0])
    } else {
        f.service
    }
}

/// The plan with every fetch's service chosen where one subgraph serves
/// its whole selection tree.
pub open spec fn assign_plan_v(p: PlanV) -> PlanV
    decreases p,
{
    match p {
        PlanV::Fetch(fetch) => PlanV::Fetch(
            FetchV { service: fetch_service_v(fetch), ..fetch },
        ),
        PlanV::Flatten { select, plan } => PlanV::Flatten {
            select,
            plan: Box::new(assign_plan_v(*plan)),
        },
        PlanV::Parallel(items) => PlanV::Parallel(assign_plans(items)),
        PlanV::Sequence(items) => PlanV::Sequence(assign_plans(items)),
    }
}

/// Service assignment over each sub-plan, in order.
pub open spec fn assign_plans(items: Seq<PlanV>) -> Seq<PlanV>
    decreases items,
{
    if items.len() == 0 {
        Seq::<PlanV>::empty()
    } else {
        seq![assign_plan_v(items[0])] + assign_plans(items.drop_first())
    }
}

/// Chooses each fetch's service: the single subgraph able to serve its
/// whole selection tree, where there is exactly one.
#[verifier::loop_isolation(false)]
pub fn assign_services(plan: QueryPlan) -> (r: QueryPlan)
    ensures
        r@ == assign_plan_v(plan@),
    decreases plan,
{
    match plan {
        QueryPlan::Fetch(fetch) => {
            let ghost fetchv = fetch@;
            let mut candidates = NameSet::new();
            proof {
                assert(candidates@ =~= Seq::<Seq<char>>::empty());
            }
            let ghost fields0 = fetchv.selection_set;
            let n = fetch.selection_set.0.len();
            let mut i: usize = 0;
            proof {
                crate::model::lemma_fields_view(fetch.selection_set.0@);
                assert(fields0.skip(0) =~= fields0);
            }
            while i < n
                invariant
                    i <= n,
                    n == fetch.selection_set.0@.len(),
                    fields0.len() == n,
                    collect_subgraphs_children(Seq::<Seq<char>>::empty(), fields0)
                        == collect_subgraphs_children(candidates@, fields0.skip(i as int)),
                decreases n - i,
            {
                proof {
                    crate::model::lemma_fields_view(fetch.selection_set.0@);
                    assert(fields0[i as int] == fetch.selection_set.0@[i as int]@);
                    assert(fields0.skip(i as int)[0] == fields0[i as int]);
                    assert(fields0.skip(i as int).drop_first() =~= fields0.skip(i + 1));
                }
                Pruner::collect_subgraph(&fetch.selection_set.0[i], &mut candidates);
                i = i + 1;
            }
            proof {
                assert(fields0.skip(n as int) =~= Seq::<crate::model::FieldV>::empty());
            }
            let service = if candidates.len() == 1 {
                Some(Graph::new(candidates.index(0).as_str()))
            } else {
                fetch.service
            };
            let r = QueryPlan::Fetch(Fetch { service, ..fetch });
            proof {
                assert(r@ =~= assign_plan_v(PlanV::Fetch(fetchv)));
            }
            r
        },
        QueryPlan::Flatten { select, plan } => QueryPlan::Flatten {
            select,
            plan: Box::new(assign_services(*plan)),
        },
        QueryPlan::Parallel(items) => {
            let out = assign_children(items);
            QueryPlan::Parallel(out)
        },
        QueryPlan::Sequence(items) => {
            let out = assign_children(items);
            QueryPlan::Sequence(out)
        },
    }
}

/// Service assignment over each sub-plan, in order.
#[verifier::loop_isolation(false)]
fn assign_children(items: Vec<QueryPlan>) -> (r: Vec<QueryPlan>)
    ensures
        plans_view(r@) == assign_plans(plans_view(items@)),
    decreases items@,
{
    let ghost items0 = items@;
    let ghost orig = plans_view(items@);
    proof {
        lemma_plans_view(items@);
        assert(orig.skip(0) =~= orig);
        assert(plans_view(Seq::<QueryPlan>::empty()) =~= Seq::<PlanV>::empty());
    }
    let mut rest = items;
    let mut out: Vec<QueryPlan> = Vec::new();
    proof {
        assert(plans_view(out@) =~= Seq::<PlanV>::empty());
        assert(assign_plans(orig) =~= plans_view(out@) + assign_plans(orig.skip(0)));
    }
    while rest.len() > 0
        invariant
            rest@.len() <= items0.len(),
            orig == plans_view(items0),
            orig.len() == items0.len(),
            rest@ == items0.skip(items0.len() - rest@.len()),
            plans_view(out@).len() == out@.len(),
            assign_plans(orig) == plans_view(out@) + assign_plans(
                orig.skip(orig.len() - rest@.len()),
            ),
        decreases rest@.len(),
    {
        let ghost processed = (items0.len() - rest@.len()) as int;
        proof {
            lemma_plans_view(items0);
            lemma_plans_view(out@);
            assert(rest@[0] == items0[processed]);
            assert(orig.skip(processed)[0] == orig[processed]);
            assert(orig.skip(processed).drop_first() =~= orig.skip(processed + 1));
        }
        let x = rest.remove(0);
        proof {
            assert(x == items0[processed]);
            assert(x@ == orig[processed]);
            assert(decreases_to!(items0 => x));
        }
        let assigned = assign_services(x);
        let ghost outv = plans_view(out@);
        out.push(assigned);
        proof {
            lemma_plans_view(out@);
            assert(plans_view(out@) =~= outv.push(assign_plan_v(orig[processed])));
            assert(plans_view(out@) + assign_plans(orig.skip(processed + 1)) =~= outv + (seq![
                assign_plan_v(orig[processed]),
            ] + assign_plans(orig.skip(processed + 1))));
            assert(rest@ =~= items0.skip(items0.len() - rest@.len()));
        }
    }
    proof {
        assert(orig.skip(orig.len() as int) =~= Seq::<PlanV>::empty());
        assert(plans_view(out@) + assign_plans(orig.skip(orig.len() as int)) =~= plans_view(
            out@,
        ));
    }
    out
}

/// The preset pipeline over one index.
pub struct Preset<'a> {
    minify: Minify,
    enrich: Enrich<'a>,
}

impl<'a> Preset<'a> {
    /// The preset pipeline over `index`.
    pub fn new(index: Rc<Index<'a>>) -> (r: Preset<'a>)
        ensures
            r.enrich_part().index_view() == (*index).types_view() && r.enrich_part().index_fields_view()
                == (*index).fields_view() && r.enrich_part().index_roots_view()
                == (*index).roots_view(),
    {
        Preset { minify: Minify::new(), enrich: Enrich::new(index) }
    }

    /// The enrich stage of the pipeline.
    pub closed spec fn enrich_part(&self) -> Enrich<'a> {
        self.enrich
    }
}

impl<'a> Transform for Preset<'a> {
    type Value = QueryPlan;

    type Error = String;

    open spec fn wf(&self) -> bool {
        true
    }

    open spec fn rel(
        &self,
        input: QueryPlan,
        output: Result<QueryPlan, Seq<CauseV<String>>>,
    ) -> bool {
        match minify_plan(input@) {
            Result::Err(msgs) => output matches Result::Err(cs) && traced_causes(
                cs,
                msgs,
                "minify"@,
            ),
            Result::Ok(q) => match self.enrich_part().index_roots_view().0 {
                Option::None => output matches Result::Err(cs) && traced_causes(
                    cs,
                    seq!["Root operation for `query` is not defined"@],
                    "enrich"@,
                ),
                Option::Some(root) => match enrich_plan(
                    self.enrich_part().index_view(),
                    self.enrich_part().index_fields_view(),
                    root,
                    q,
                ) {
                    Result::Err(msgs) => output matches Result::Err(cs) && traced_causes(
                        cs,
                        msgs,
                        "enrich"@,
                    ),
                    Result::Ok(p2) => match prune_plan_v(p2) {
                        Result::Err(msgs) => output matches Result::Err(cs) && traced_causes(
                            cs,
                            msgs,
                            "pruner"@,
                        ),
                        Result::Ok(p3) => output matches Result::Ok(rp) && rp@
                            == assign_plan_v(p3),
                    },
                },
            },
        }
    }

    fn transform(&self, input: QueryPlan) -> (r: Valid<QueryPlan, String>) {
        let ghost iv = input@;
        let minified = self.minify.transform(input);
        match minified.to_result() {
            Ok(q) => {
                proof {
                    assert(minify_plan(iv) matches Result::Ok(mq) && q@ == mq);
                }
                let ghost qv = q@;
                let enriched = self.enrich.transform(q);
                match enriched.to_result() {
                    Ok(p2) => {
                        let ghost p2v = p2@;
                        match Pruner::prune_plan(p2) {
                            Ok(p3) => Valid::succeed(assign_services(p3)),
                            Err(e) => {
                                let ghost ev = e@;
                                let traced = e.trace("pruner");
                                proof {
                                    let msgs = prune_plan_v(p2v)->Err_0;
                                    assert forall|i: int|
                                        0 <= i < traced@.len() implies (
                                        #[trigger] traced@[i]).trace == seq!["pruner"@]
                                            && traced@[i].message@ == msgs[i] by {
                                        assert(traced@[i] == crate::valid::cause_traced(
                                            ev[i],
                                            "pruner"@,
                                        ));
                                        assert(traced@[i].trace =~= seq!["pruner"@]);
                                    }
                                }
                                Valid::from_validation_err(traced)
                            },
                        }
                    },
                    Err(e) => Valid::from_validation_err(e),
                }
            },
            Err(e) => {
                let ghost ev = e@;
                let lowered = e.transform(
                    &(|err: Error| -> (s: String)
                        ensures
                            s@ == error_text(err@),
                        { err.to_text() }),
                );
                proof {
                    let msgs = minify_plan(iv)->Err_0;
                    assert forall|i: int|
                        0 <= i < lowered@.len() implies (#[trigger] lowered@[i]).trace
                            == seq!["minify"@] && lowered@[i].message@ == msgs[i] by {
                        assert(lowered@[i].trace == ev[i].trace);
                        assert(is_plan_message(ev[i].message@, msgs[i]));
                    }
                }
                Valid::from_validation_err(lowered)
            },
        }
    }
}

} // verus!
