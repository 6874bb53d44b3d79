//! Annotating every selected field with its candidate subgraphs.
//!
//! The enricher walks the plan against the index, carrying a container
//! type name. A field whose definition carries federation metadata gets
//! that metadata copied onto it; one without inherits the subgraphs of
//! the container's type-level join entries whose key is absent or names
//! the field itself. Unknown containers and unknown fields fail, and
//! field errors accumulate so one bad query reports all of them.

use vstd::prelude::*;

use std::rc::Rc;

use crate::blueprint::JoinType;
use crate::blueprint::JoinTypeV;
use crate::blueprint::base_type_name;
use crate::blueprint::duplicate_join_fields;
use crate::blueprint::Graph;
use crate::index::Index;
use crate::index::QueryField;
use crate::index::QueryFieldV;
use crate::index::field_lookup;
use crate::index::type_lookup;
use crate::model::Field;
use crate::model::FieldV;
use crate::model::Fetch;
use crate::model::FetchV;
use crate::model::PlanV;
use crate::model::QueryPlan;
use crate::model::SelectionSet;
use crate::model::fields_view;
use crate::model::lemma_fields_view;
use crate::model::lemma_plans_view;
use crate::model::plans_view;
use crate::transform::Transform;
use crate::valid::CauseV;
use crate::valid::Valid;
use crate::valid::ValidationError;

verus! {

/// The message reported for a container type with no object definition.
pub open spec fn type_error_message(container: Seq<char>) -> Seq<char> {
    "type definition not found for type '"@ + container + "'"@
}

/// The message reported for a field with no definition in its container.
pub open spec fn field_error_message(fname: Seq<char>, container: Seq<char>) -> Seq<char> {
    "field definition not found for field '"@ + fname + "' in type '"@ + container + "'"@
}

/// The message reported for a field that no subgraph can serve.
pub open spec fn no_candidates_message(fname: Seq<char>, container: Seq<char>) -> Seq<char> {
    "no subgraph can serve field '"@ + fname + "' in type '"@ + container + "'"@
}

/// The subgraphs a field inherits from its container's type-level join
/// entries: those whose key is absent, or names the field itself.
pub open spec fn jt_graphs(jts: Seq<JoinTypeV>, fname: Seq<char>) -> Seq<Seq<char>>
    decreases jts.len(),
{
    if jts.len() == 0 {
        Seq::<Seq<char>>::empty()
    } else {
        (if jts[0].key is None || jts[0].key == Option::Some(fname) {
            seq![jts[0].graph]
        } else {
            Seq::<Seq<char>>::empty()
        }) + jt_graphs(jts.drop_first(), fname)
    }
}

/// What enriching a selection against `container` yields: the annotated
/// fields, or every error found, in order.
pub open spec fn enrich_sel(
    te: Seq<(Seq<char>, crate::blueprint::DefinitionV)>,
    fe: Seq<(Seq<char>, Seq<char>, QueryFieldV)>,
    container: Seq<char>,
    fields: Seq<FieldV>,
) -> Result<Seq<FieldV>, Seq<Seq<char>>>
    decreases fields, 1nat,
{
    match type_lookup(te, container) {
        Option::Some(d) => match d {
            crate::blueprint::DefinitionV::Object(o) => enrich_fields(
                te,
                fe,
                container,
                o.join_types,
                fields,
            ),
            _ => Result::Err(seq![type_error_message(container)]),
        },
        Option::None => Result::Err(seq![type_error_message(container)]),
    }
}

/// Enriches each field in order, accumulating every error.
pub open spec fn enrich_fields(
    te: Seq<(Seq<char>, crate::blueprint::DefinitionV)>,
    fe: Seq<(Seq<char>, Seq<char>, QueryFieldV)>,
    container: Seq<char>,
    jts: Seq<JoinTypeV>,
    fields: Seq<FieldV>,
) -> Result<Seq<FieldV>, Seq<Seq<char>>>
    decreases fields, 0nat,
{
    if fields.len() == 0 {
        Result::Ok(Seq::<FieldV>::empty())
    } else {
        let head = enrich_field(te, fe, container, jts, fields[0]);
        let tail = enrich_fields(te, fe, container, jts, fields.drop_first());
        match head {
            Result::Ok(f) => match tail {
                Result::Ok(fs) => Result::Ok(seq![f] + fs),
                Result::Err(msgs) => Result::Err(msgs),
            },
            Result::Err(ms) => match tail {
                Result::Ok(_) => Result::Err(ms),
                Result::Err(msgs) => Result::Err(ms + msgs),
            },
        }
    }
}

/// Enriches one field: copies its definition's metadata, or inherits the
/// container's type-level subgraphs, then recurses into its selections
/// under the field's base type.
pub open spec fn enrich_field(
    te: Seq<(Seq<char>, crate::blueprint::DefinitionV)>,
    fe: Seq<(Seq<char>, Seq<char>, QueryFieldV)>,
    container: Seq<char>,
    jts: Seq<JoinTypeV>,
    f: FieldV,
) -> Result<FieldV, Seq<Seq<char>>>
    decreases f, 2nat,
{
    match field_lookup(fe, container, f.name) {
        Option::Some(q) => match q {
            QueryFieldV::Field((def, _)) => {
                let candidates = if def.join_fields.len() == 0 {
                    jt_graphs(jts, f.name)
                } else {
                    crate::transforms::pruner::join_graphs(def.join_fields)
                };
                let annotated = if def.join_fields.len() == 0 {
                    FieldV { graph: jt_graphs(jts, f.name), ..f }
                } else {
                    FieldV { join_field: def.join_fields, ..f }
                };
                if candidates.len() == 0 {
                    Result::Err(seq![no_candidates_message(f.name, container)])
                } else if f.selections.len() > 0 {
                    match enrich_sel(te, fe, base_type_name(def.of_type), f.selections) {
                        Result::Ok(sel) => Result::Ok(FieldV { selections: sel, ..annotated }),
                        Result::Err(msgs) => Result::Err(msgs),
                    }
                } else {
                    Result::Ok(annotated)
                }
            },
            QueryFieldV::InputField(_) => Result::Err(
                seq![field_error_message(f.name, container)],
            ),
        },
        Option::None => Result::Err(seq![field_error_message(f.name, container)]),
    }
}

/// What enriching a whole plan yields: the same plan shape with every
/// fetch's selection enriched, or every error found.
pub open spec fn enrich_plan(
    te: Seq<(Seq<char>, crate::blueprint::DefinitionV)>,
    fe: Seq<(Seq<char>, Seq<char>, QueryFieldV)>,
    container: Seq<char>,
    p: PlanV,
) -> Result<PlanV, Seq<Seq<char>>>
    decreases p, 1nat,
{
    match p {
        PlanV::Fetch(fetch) => match enrich_sel(te, fe, container, fetch.selection_set) {
            Result::Ok(sel) => Result::Ok(
                PlanV::Fetch(FetchV { selection_set: sel, ..fetch }),
            ),
            Result::Err(msgs) => Result::Err(msgs),
        },
        PlanV::Flatten { select, plan } => match enrich_plan(te, fe, container, *plan) {
            Result::Ok(q) => Result::Ok(PlanV::Flatten { select, plan: Box::new(q) }),
            Result::Err(msgs) => Result::Err(msgs),
        },
        PlanV::Parallel(items) => match enrich_plans(te, fe, container, items) {
            Result::Ok(its) => Result::Ok(PlanV::Parallel(its)),
            Result::Err(msgs) => Result::Err(msgs),
        },
        PlanV::Sequence(items) => match enrich_plans(te, fe, container, items) {
            Result::Ok(its) => Result::Ok(PlanV::Sequence(its)),
            Result::Err(msgs) => Result::Err(msgs),
        },
    }
}

/// Enriches each sub-plan in order, accumulating every error.
pub open spec fn enrich_plans(
    te: Seq<(Seq<char>, crate::blueprint::DefinitionV)>,
    fe: Seq<(Seq<char>, Seq<char>, QueryFieldV)>,
    container: Seq<char>,
    items: Seq<PlanV>,
) -> Result<Seq<PlanV>, Seq<Seq<char>>>
    decreases items, 0nat,
{
    if items.len() == 0 {
        Result::Ok(Seq::<PlanV>::empty())
    } else {
        let head = enrich_plan(te, fe, container, items[0]);
        let tail = enrich_plans(te, fe, container, items.drop_first());
        match head {
            Result::Ok(q) => match tail {
                Result::Ok(qs) => Result::Ok(seq![q] + qs),
                Result::Err(msgs) => Result::Err(msgs),
            },
            Result::Err(ms) => match tail {
                Result::Ok(_) => Result::Err(ms),
                Result::Err(msgs) => Result::Err(ms + msgs),
            },
        }
    }
}

/// The causes of an enrich failure: one cause with message `msgs[i]` and
/// no trace, for each message, in order.
pub open spec fn enrich_causes(cs: Seq<CauseV<String>>, msgs: Seq<Seq<char>>) -> bool {
    &&& cs.len() == msgs.len()
    &&& forall|i: int|
        0 <= i < cs.len() ==> (#[trigger] cs[i]).trace.len() == 0 && cs[i].message@ == msgs[i]
}


proof fn lemma_enrich_fields_push(
    te: Seq<(Seq<char>, crate::blueprint::DefinitionV)>,
    fe: Seq<(Seq<char>, Seq<char>, QueryFieldV)>,
    container: Seq<char>,
    jts: Seq<JoinTypeV>,
    fields: Seq<FieldV>,
    x: FieldV,
)
    ensures
        enrich_fields(te, fe, container, jts, fields.push(x)) == (match (
            enrich_fields(te, fe, container, jts, fields),
            enrich_field(te, fe, container, jts, x),
        ) {
            (Result::Ok(fs), Result::Ok(f)) => Result::<Seq<FieldV>, Seq<Seq<char>>>::Ok(
                fs.push(f),
            ),
            (Result::Ok(_), Result::Err(ms)) => Result::Err(ms),
            (Result::Err(msgs), Result::Ok(_)) => Result::Err(msgs),
            (Result::Err(msgs), Result::Err(ms)) => Result::Err(msgs + ms),
        }),
    decreases fields.len(),
{
    if fields.len() == 0 {
        assert(fields.push(x).drop_first() =~= fields);
        match (enrich_fields(te, fe, container, jts, fields), enrich_field(te, fe, container, jts, x)) {
            (Result::Ok(fs), Result::Ok(f)) => {
                assert(seq![f] + fs =~= fs.push(f));
            },
            (Result::Err(msgs), Result::Err(ms)) => {
                assert(msgs + ms =~= ms);
            },
            _ => {},
        }
    } else {
        assert(fields.push(x).drop_first() =~= fields.drop_first().push(x));
        lemma_enrich_fields_push(te, fe, container, jts, fields.drop_first(), x);
        assert(fields.push(x)[0] == fields[0]);
        match (enrich_fields(te, fe, container, jts, fields), enrich_field(te, fe, container, jts, x)) {
            (Result::Ok(fs), Result::Ok(f)) => {
                assert(enrich_fields(te, fe, container, jts, fields.push(x)) matches Result::Ok(r)
                    && r =~= fs.push(f));
            },
            (Result::Err(msgs), Result::Err(ms)) => {
                assert(enrich_fields(te, fe, container, jts, fields.push(x)) matches Result::Err(r)
                    && r =~= msgs + ms);
            },
            _ => {},
        }
    }
}

proof fn lemma_enrich_plans_push(
    te: Seq<(Seq<char>, crate::blueprint::DefinitionV)>,
    fe: Seq<(Seq<char>, Seq<char>, QueryFieldV)>,
    container: Seq<char>,
    items: Seq<PlanV>,
    x: PlanV,
)
    ensures
        enrich_plans(te, fe, container, items.push(x)) == (match (
            enrich_plans(te, fe, container, items),
            enrich_plan(te, fe, container, x),
        ) {
            (Result::Ok(qs), Result::Ok(q)) => Result::<Seq<PlanV>, Seq<Seq<char>>>::Ok(
                qs.push(q),
            ),
            (Result::Ok(_), Result::Err(ms)) => Result::Err(ms),
            (Result::Err(msgs), Result::Ok(_)) => Result::Err(msgs),
            (Result::Err(msgs), Result::Err(ms)) => Result::Err(msgs + ms),
        }),
    decreases items.len(),
{
    if items.len() == 0 {
        assert(items.push(x).drop_first() =~= items);
        match (enrich_plans(te, fe, container, items), enrich_plan(te, fe, container, x)) {
            (Result::Ok(qs), Result::Ok(q)) => {
                assert(seq![q] + qs =~= qs.push(q));
            },
            (Result::Err(msgs), Result::Err(ms)) => {
                assert(msgs + ms =~= ms);
            },
            _ => {},
        }
    } else {
        assert(items.push(x).drop_first() =~= items.drop_first().push(x));
        lemma_enrich_plans_push(te, fe, container, items.drop_first(), x);
        assert(items.push(x)[0] == items[0]);
        match (enrich_plans(te, fe, container, items), enrich_plan(te, fe, container, x)) {
            (Result::Ok(qs), Result::Ok(q)) => {
                assert(enrich_plans(te, fe, container, items.push(x)) matches Result::Ok(r)
                    && r =~= qs.push(q));
            },
            (Result::Err(msgs), Result::Err(ms)) => {
                assert(enrich_plans(te, fe, container, items.push(x)) matches Result::Err(r)
                    && r =~= msgs + ms);
            },
            _ => {},
        }
    }
}

proof fn lemma_join_graphs_at(jfs: Seq<crate::blueprint::JoinFieldV>, j: int)
    requires
        0 <= j < jfs.len(),
        jfs[j].graph is Some,
    ensures
        crate::transforms::pruner::join_graphs(jfs).len() > 0,
    decreases j,
{
    if jfs[0].graph is Some {
    } else {
        assert(jfs.drop_first()[j - 1] == jfs[j]);
        lemma_join_graphs_at(jfs.drop_first(), j - 1);
    }
}

proof fn lemma_join_graphs_none(jfs: Seq<crate::blueprint::JoinFieldV>)
    requires
        forall|j: int| 0 <= j < jfs.len() ==> !((#[trigger] jfs[j]).graph is Some),
    ensures
        crate::transforms::pruner::join_graphs(jfs).len() == 0,
    decreases jfs.len(),
{
    if jfs.len() > 0 {
        assert(forall|j: int|
            0 <= j < jfs.drop_first().len() ==> #[trigger] jfs.drop_first()[j] == jfs[j + 1]);
        lemma_join_graphs_none(jfs.drop_first());
    }
}

/// Whether any metadata entry names a graph.
#[verifier::loop_isolation(false)]
fn any_graph(v: &Vec<crate::blueprint::JoinField>) -> (r: bool)
    ensures
        r == (crate::transforms::pruner::join_graphs(
            v@.map_values(|jf: crate::blueprint::JoinField| jf@),
        ).len() > 0),
{
    let ghost jfsv = v@.map_values(|jf: crate::blueprint::JoinField| jf@);
    let n = v.len();
    let mut i: usize = 0;
    while i < n
        invariant
            i <= n,
            n == v@.len(),
            jfsv.len() == n,
            forall|j: int| 0 <= j < i ==> !((#[trigger] jfsv[j]).graph is Some),
        decreases n - i,
    {
        proof {
            assert(jfsv[i as int] == v@[i as int]@);
        }
        if v[i].graph.is_some() {
            proof {
                lemma_join_graphs_at(jfsv, i as int);
            }
            return true;
        }
        i = i + 1;
    }
    proof {
        lemma_join_graphs_none(jfsv);
    }
    false
}


/// The view of a join-type vector.
pub open spec fn jts_view(v: Seq<JoinType>) -> Seq<JoinTypeV> {
    v.map_values(|jt: JoinType| jt@)
}

/// Enriches one field against the index.
#[verifier::loop_isolation(false)]
fn enrich_field_exec(
    index: &Index,
    container: &str,
    jts: &Vec<JoinType>,
    field: Field,
) -> (r: Result<Field, ValidationError<String>>)
    ensures
        match enrich_field(
            index.types_view(),
            index.fields_view(),
            container@,
            jts_view(jts@),
            field@,
        ) {
            Result::Ok(fv) => r matches Ok(rf) && rf@ == fv,
            Result::Err(msgs) => r matches Err(e) && enrich_causes(e@, msgs),
        },
    decreases field, 2nat,
{
    let ghost te = index.types_view();
    let ghost fe = index.fields_view();
    let ghost jtsv = jts_view(jts@);
    let ghost fv = field@;
    match index.get_field(container, field.name.as_str()) {
        Some(QueryField::Field((def, _))) => {
            let ghost defv = (*def)@;
            let Field {
                name,
                alias,
                selections,
                arguments,
                directives,
                is_hidden,
                graph,
                join_field,
                field_type,
                parent_type,
            } = field;
            let use_join_types = def.join_fields.len() == 0;
            let (new_graph, new_join_field): (Vec<Graph>, Vec<crate::blueprint::JoinField>) = if use_join_types {
                let n = jts.len();
                let mut gout: Vec<Graph> = Vec::new();
                let mut i: usize = 0;
                proof {
                    assert(jtsv.skip(0) =~= jtsv);
                    assert(gout@.map_values(|g: Graph| g@) =~= Seq::<Seq<char>>::empty());
                    assert(jt_graphs(jtsv, fv.name) =~= gout@.map_values(|g: Graph| g@)
                        + jt_graphs(jtsv.skip(0), fv.name));
                }
                while i < n
                    invariant
                        i <= n,
                        n == jts@.len(),
                        jtsv.len() == n,
                        jt_graphs(jtsv, fv.name) == gout@.map_values(|g: Graph| g@) + jt_graphs(
                            jtsv.skip(i as int),
                            fv.name,
                        ),
                        name@ == fv.name,
                    decreases n - i,
                {
                    proof {
                        assert(jtsv[i as int] == jts@[i as int]@);
                        assert(jtsv.skip(i as int)[0] == jtsv[i as int]);
                        assert(jtsv.skip(i as int).drop_first() =~= jtsv.skip(i + 1));
                    }
                    let keyed = match &jts[i].key {
                        None => true,
                        Some(k) => *k == name,
                    };
                    if keyed {
                        let ghost before = gout@.map_values(|g: Graph| g@);
                        gout.push(jts[i].graph.duplicate());
                        proof {
                            assert(gout@.map_values(|g: Graph| g@) =~= before.push(
                                jtsv[i as int].graph,
                            ));
                            assert(gout@.map_values(|g: Graph| g@) + jt_graphs(
                                jtsv.skip(i + 1),
                                fv.name,
                            ) =~= before + (seq![jtsv[i as int].graph] + jt_graphs(
                                jtsv.skip(i + 1),
                                fv.name,
                            )));
                        }
                    }
                    i = i + 1;
                }
                proof {
                    assert(jtsv.skip(n as int) =~= Seq::<JoinTypeV>::empty());
                    assert(gout@.map_values(|g: Graph| g@) + jt_graphs(
                        jtsv.skip(n as int),
                        fv.name,
                    ) =~= gout@.map_values(|g: Graph| g@));
                }
                (gout, join_field)
            } else {
                (graph, duplicate_join_fields(&def.join_fields))
            };
            let has_candidates = if use_join_types {
                new_graph.len() > 0
            } else {
                any_graph(&def.join_fields)
            };
            if !has_candidates {
                let msg = String::from_str("no subgraph can serve field '").concat(
                    name.as_str(),
                ).concat("' in type '").concat(container).concat("'");
                let e = ValidationError::new(msg);
                proof {
                    assert(enrich_causes(e@, seq![no_candidates_message(fv.name, container@)]));
                }
                return Err(e);
            }
            if selections.0.len() > 0 {
                proof {
                    lemma_fields_view(selections.0@);
                }
                match enrich_sel_exec(index, def.of_type.as_type_str(), selections.0) {
                    Ok(sub) => {
                        let r = Field {
                            name,
                            alias,
                            selections: SelectionSet(sub),
                            arguments,
                            directives,
                            is_hidden,
                            graph: new_graph,
                            join_field: new_join_field,
                            field_type,
                            parent_type,
                        };
                        proof {
                            assert(r@ =~= enrich_field(te, fe, container@, jtsv, fv)->Ok_0);
                        }
                        Ok(r)
                    },
                    Err(e) => Err(e),
                }
            } else {
                proof {
                    lemma_fields_view(selections.0@);
                }
                let r = Field {
                    name,
                    alias,
                    selections,
                    arguments,
                    directives,
                    is_hidden,
                    graph: new_graph,
                    join_field: new_join_field,
                    field_type,
                    parent_type,
                };
                proof {
                    assert(r@ =~= enrich_field(te, fe, container@, jtsv, fv)->Ok_0);
                }
                Ok(r)
            }
        },
        _ => {
            let msg = String::from_str("field definition not found for field '").concat(
                field.name.as_str(),
            ).concat("' in type '").concat(container).concat("'");
            let e = ValidationError::new(msg);
            proof {
                assert(enrich_causes(e@, seq![field_error_message(fv.name, container@)]));
            }
            Err(e)
        },
    }
}

/// Enriches every field of one selection level, accumulating errors.
#[verifier::loop_isolation(false)]
fn enrich_fields_exec(
    index: &Index,
    container: &str,
    jts: &Vec<JoinType>,
    fields: Vec<Field>,
) -> (r: Result<Vec<Field>, ValidationError<String>>)
    ensures
        match enrich_fields(
            index.types_view(),
            index.fields_view(),
            container@,
            jts_view(jts@),
            fields_view(fields@),
        ) {
            Result::Ok(fvs) => r matches Ok(out) && fields_view(out@) == fvs,
            Result::Err(msgs) => r matches Err(e) && enrich_causes(e@, msgs),
        },
    decreases fields@, 0nat,
{
    let ghost te = index.types_view();
    let ghost fe = index.fields_view();
    let ghost jtsv = jts_view(jts@);
    let ghost items0 = fields@;
    let ghost orig = fields_view(fields@);
    proof {
        lemma_fields_view(fields@);
    }
    let mut rest = fields;
    let mut out: Vec<Field> = Vec::new();
    let mut errs: ValidationError<String> = ValidationError::empty();
    let mut failed = false;
    proof {
        assert(orig.take(0) =~= Seq::<FieldV>::empty());
        assert(fields_view(out@) =~= Seq::<FieldV>::empty());
    }
    while rest.len() > 0
        invariant
            rest@.len() <= items0.len(),
            orig == fields_view(items0),
            orig.len() == items0.len(),
            rest@ == items0.skip(items0.len() - rest@.len()),
            out@.len() == fields_view(out@).len(),
            !failed ==> out@.len() == orig.len() - rest@.len(),
            !failed ==> errs@ == Seq::<CauseV<String>>::empty(),
            !failed ==> enrich_fields(te, fe, container@, jtsv, orig.take(
                orig.len() - rest@.len(),
            )) == Result::<Seq<FieldV>, Seq<Seq<char>>>::Ok(fields_view(out@)),
            failed ==> (enrich_fields(te, fe, container@, jtsv, orig.take(
                orig.len() - rest@.len(),
            )) matches Result::Err(msgs) && enrich_causes(errs@, msgs)),
        decreases rest@.len(),
    {
        let ghost processed = (items0.len() - rest@.len()) as int;
        proof {
            lemma_fields_view(items0);
            lemma_fields_view(out@);
            assert(rest@[0] == items0[processed]);
            assert(orig.take(processed).push(orig[processed]) =~= orig.take(processed + 1));
            lemma_enrich_fields_push(te, fe, container@, jtsv, orig.take(processed), orig[processed]);
        }
        let x = rest.remove(0);
        proof {
            assert(x == items0[processed]);
            assert(x@ == orig[processed]);
        }
        let ghost old_errs = errs@;
        match enrich_field_exec(index, container, jts, x) {
            Ok(f) => {
                if !failed {
                    let ghost outv = fields_view(out@);
                    let ghost oldvec = out@;
                    out.push(f);
                    proof {
                        lemma_fields_view(oldvec);
                        lemma_fields_view(out@);
                        assert(fields_view(out@) =~= outv.push(out@[oldvec.len() as int]@));
                    }
                }
            },
            Err(e) => {
                let ghost ev = e@;
                let was_failed = failed;
                failed = true;
                errs = errs.combine(e);
                proof {
                    if !was_failed {
                        assert(errs@ =~= ev);
                    }
                }
            },
        }
        proof {
            assert(rest@ =~= items0.skip(items0.len() - rest@.len()));
            lemma_fields_view(out@);
            if failed {
                let msgs = enrich_fields(te, fe, container@, jtsv, orig.take(processed + 1))->Err_0;
                assert forall|i: int| 0 <= i < errs@.len() implies (#[trigger] errs@[i]).trace.len()
                    == 0 && errs@[i].message@ == msgs[i] by {
                    if i < old_errs.len() {
                        assert(errs@[i] == old_errs[i]);
                    }
                }
            }
        }
    }
    proof {
        assert(orig.take(orig.len() as int) =~= orig);
        assert(items0.skip(0) =~= items0);
    }
    if failed {
        Err(errs)
    } else {
        Ok(out)
    }
}

/// Enriches one selection level: resolves the container's object type,
/// then enriches each field against it.
#[verifier::loop_isolation(false)]
fn enrich_sel_exec(index: &Index, container: &str, fields: Vec<Field>) -> (r: Result<
    Vec<Field>,
    ValidationError<String>,
>)
    ensures
        match enrich_sel(
            index.types_view(),
            index.fields_view(),
            container@,
            fields_view(fields@),
        ) {
            Result::Ok(fvs) => r matches Ok(out) && fields_view(out@) == fvs,
            Result::Err(msgs) => r matches Err(e) && enrich_causes(e@, msgs),
        },
    decreases fields@, 1nat,
{
    match index.get_object_type_definition(container) {
        Some(o) => enrich_fields_exec(index, container, &o.join_types, fields),
        None => {
            let msg = String::from_str("type definition not found for type '").concat(
                container,
            ).concat("'");
            let e = ValidationError::new(msg);
            proof {
                assert(enrich_causes(e@, seq![type_error_message(container@)]));
            }
            Err(e)
        },
    }
}


/// Enriches a whole plan, walking its structure and accumulating errors
/// across sibling sub-plans.
#[verifier::loop_isolation(false)]
fn enrich_plan_exec(index: &Index, container: &str, plan: QueryPlan) -> (r: Result<
    QueryPlan,
    ValidationError<String>,
>)
    ensures
        match enrich_plan(index.types_view(), index.fields_view(), container@, plan@) {
            Result::Ok(pv) => r matches Ok(rp) && rp@ == pv,
            Result::Err(msgs) => r matches Err(e) && enrich_causes(e@, msgs),
        },
    decreases plan,
{
    let ghost te = index.types_view();
    let ghost fe = index.fields_view();
    match plan {
        QueryPlan::Fetch(fetch) => {
            let ghost fetchv = fetch@;
            let Fetch {
                name,
                arguments,
                variables,
                directives,
                selection_set,
                representations,
                type_of,
                service,
            } = fetch;
            proof {
                lemma_fields_view(selection_set.0@);
            }
            match enrich_sel_exec(index, container, selection_set.0) {
                Ok(sel) => {
                    let r = QueryPlan::Fetch(
                        Fetch {
                            name,
                            arguments,
                            variables,
                            directives,
                            selection_set: SelectionSet(sel),
                            representations,
                            type_of,
                            service,
                        },
                    );
                    proof {
                        assert(r@ =~= enrich_plan(te, fe, container@, PlanV::Fetch(fetchv))->Ok_0);
                    }
                    Ok(r)
                },
                Err(e) => Err(e),
            }
        },
        QueryPlan::Flatten { select, plan } => {
            match enrich_plan_exec(index, container, *plan) {
                Ok(q) => Ok(QueryPlan::Flatten { select, plan: Box::new(q) }),
                Err(e) => Err(e),
            }
        },
        QueryPlan::Parallel(items) => {
            match enrich_children(index, container, items) {
                Ok(out) => Ok(QueryPlan::Parallel(out)),
                Err(e) => Err(e),
            }
        },
        QueryPlan::Sequence(items) => {
            match enrich_children(index, container, items) {
                Ok(out) => Ok(QueryPlan::Sequence(out)),
                Err(e) => Err(e),
            }
        },
    }
}

/// Enriches every sub-plan in order, accumulating every failure.
#[verifier::loop_isolation(false)]
fn enrich_children(index: &Index, container: &str, items: Vec<QueryPlan>) -> (r: Result<
    Vec<QueryPlan>,
    ValidationError<String>,
>)
    ensures
        match enrich_plans(
            index.types_view(),
            index.fields_view(),
            container@,
            plans_view(items@),
        ) {
            Result::Ok(qs) => r matches Ok(out) && plans_view(out@) == qs,
            Result::Err(msgs) => r matches Err(e) && enrich_causes(e@, msgs),
        },
    decreases items@,
{
    let ghost te = index.types_view();
    let ghost fe = index.fields_view();
    let ghost items0 = items@;
    let ghost orig = plans_view(items@);
    proof {
        lemma_plans_view(items@);
    }
    let mut rest = items;
    let mut out: Vec<QueryPlan> = Vec::new();
    let mut errs: ValidationError<String> = ValidationError::empty();
    let mut failed = false;
    while rest.len() > 0
        invariant
            rest@.len() <= items0.len(),
            orig == plans_view(items0),
            orig.len() == items0.len(),
            rest@ == items0.skip(items0.len() - rest@.len()),
            out@.len() == plans_view(out@).len(),
            !failed ==> out@.len() == orig.len() - rest@.len(),
            !failed ==> errs@ == Seq::<CauseV<String>>::empty(),
            !failed ==> enrich_plans(te, fe, container@, orig.take(orig.len() - rest@.len()))
                == Result::<Seq<PlanV>, Seq<Seq<char>>>::Ok(plans_view(out@)),
            failed ==> (enrich_plans(te, fe, container@, orig.take(orig.len() - rest@.len()))
                matches Result::Err(msgs) && enrich_causes(errs@, msgs)),
        decreases rest@.len(),
    {
        let ghost processed = (items0.len() - rest@.len()) as int;
        proof {
            lemma_plans_view(items0);
            lemma_plans_view(out@);
            assert(rest@[0] == items0[processed]);
            assert(orig.take(processed).push(orig[processed]) =~= orig.take(processed + 1));
            lemma_enrich_plans_push(te, fe, container@, orig.take(processed), orig[processed]);
        }
        let x = rest.remove(0);
        proof {
            assert(x == items0[processed]);
            assert(x@ == orig[processed]);
            assert(decreases_to!(items0 => x));
        }
        let ghost old_errs = errs@;
        match enrich_plan_exec(index, container, x) {
            Ok(q) => {
                if !failed {
                    let ghost outv = plans_view(out@);
                    out.push(q);
                    proof {
                        lemma_plans_view(out@);
                        assert(plans_view(out@) =~= outv.push(q@));
                    }
                }
            },
            Err(e) => {
                let ghost ev = e@;
                let was_failed = failed;
                failed = true;
                errs = errs.combine(e);
                proof {
                    if !was_failed {
                        assert(errs@ =~= ev);
                    }
                }
            },
        }
        proof {
            assert(rest@ =~= items0.skip(items0.len() - rest@.len()));
            if failed {
                let msgs = enrich_plans(te, fe, container@, orig.take(processed + 1))->Err_0;
                assert forall|i: int| 0 <= i < errs@.len() implies (#[trigger] errs@[i]).trace.len()
                    == 0 && errs@[i].message@ == msgs[i] by {
                    if i < old_errs.len() {
                        assert(errs@[i] == old_errs[i]);
                    }
                }
            }
        }
    }
    proof {
        assert(orig.take(orig.len() as int) =~= orig);
        assert(items0.skip(0) =~= items0);
    }
    if failed {
        Err(errs)
    } else {
        Ok(out)
    }
}

/// The transform that annotates every field of every fetch with its
/// candidate subgraphs, against one index.
pub struct Enrich<'a> {
    index: Rc<Index<'a>>,
}

impl<'a> Enrich<'a> {
    /// The enrich transform over `index`.
    pub fn new(index: Rc<Index<'a>>) -> (r: Enrich<'a>)
        ensures
            r.index_view() == (*index).types_view() && r.index_fields_view()
                == (*index).fields_view() && r.index_roots_view() == (*index).roots_view(),
    {
        Enrich { index }
    }

    /// The type entries of the transform's index.
    pub closed spec fn index_view(&self) -> Seq<(Seq<char>, crate::blueprint::DefinitionV)> {
        (*self.index).types_view()
    }

    /// The field entries of the transform's index.
    pub closed spec fn index_fields_view(&self) -> Seq<(Seq<char>, Seq<char>, QueryFieldV)> {
        (*self.index).fields_view()
    }

    /// The root names of the transform's index.
    pub closed spec fn index_roots_view(&self) -> (
        Option<Seq<char>>,
        Option<Seq<char>>,
        Option<Seq<char>>,
    ) {
        (*self.index).roots_view()
    }
}

impl<'a> Transform for Enrich<'a> {
    type Value = QueryPlan;

    type Error = String;

    open spec fn wf(&self) -> bool {
        true
    }

    open spec fn rel(
        &self,
        input: QueryPlan,
        output: Result<QueryPlan, Seq<CauseV<String>>>,
    ) -> bool {
        match self.index_roots_view().0 {
            Option::None => output matches Result::Err(cs) && crate::valid::traced_causes(
                cs,
                seq!["Root operation for `query` is not defined"@],
                "enrich"@,
            ),
            Option::Some(root) => match enrich_plan(
                self.index_view(),
                self.index_fields_view(),
                root,
                input@,
            ) {
                Result::Ok(pv) => output matches Result::Ok(rp) && rp@ == pv,
                Result::Err(msgs) => output matches Result::Err(cs)
                    && crate::valid::traced_causes(cs, msgs, "enrich"@),
            },
        }
    }

    fn transform(&self, input: QueryPlan) -> (r: Valid<QueryPlan, String>) {
        let ghost iv = input@;
        match (*self.index).get_query() {
            Some(root) => {
                let root_name = root.clone();
                match enrich_plan_exec(&*self.index, root_name.as_str(), input) {
                    Ok(p) => Valid::succeed(p),
                    Err(e) => {
                        let ghost ev = e@;
                        let traced = e.trace("enrich");
                        proof {
                            let msgs = enrich_plan(
                                self.index_view(),
                                self.index_fields_view(),
                                root_name@,
                                iv,
                            )->Err_0;
                            assert forall|i: int|
                                0 <= i < traced@.len() implies (#[trigger] traced@[i]).trace
                                    == seq!["enrich"@] && traced@[i].message@ == msgs[i] by {
                                assert(traced@[i] == crate::valid::cause_traced(
                                    ev[i],
                                    "enrich"@,
                                ));
                                assert(traced@[i].trace =~= seq!["enrich"@]);
                            }
                        }
                        Valid::from_validation_err(traced)
                    },
                }
            },
            None => {
                let e = ValidationError::new(
                    String::from_str("Root operation for `query` is not defined"),
                ).trace("enrich");
                proof {
                    assert(e@[0].trace =~= seq!["enrich"@]);
                    assert(crate::valid::traced_causes(
                        e@,
                        seq!["Root operation for `query` is not defined"@],
                        "enrich"@,
                    ));
                }
                Valid::from_validation_err(e)
            },
        }
    }
}


/// The candidate subgraphs an enriched field carries: its inherited
/// type-level subgraphs together with the graphs of its own metadata.
pub open spec fn fieldv_candidates(f: FieldV) -> Seq<Seq<char>> {
    f.graph + crate::transforms::pruner::join_graphs(f.join_field)
}

/// Every field of the tree carries at least one candidate subgraph.
pub open spec fn tree_candidated(f: FieldV) -> bool
    decreases f,
{
    fieldv_candidates(f).len() > 0 && trees_candidated(f.selections)
}

/// Every field of every tree carries at least one candidate subgraph.
pub open spec fn trees_candidated(s: Seq<FieldV>) -> bool
    decreases s,
{
    if s.len() == 0 {
        true
    } else {
        tree_candidated(s[0]) && trees_candidated(s.drop_first())
    }
}

/// Enrichment is total: every field of a successfully enriched selection
/// carries a non-empty candidate set — a field that no subgraph can
/// serve makes the enrichment fail instead.
pub proof fn lemma_enrich_totality(
    te: Seq<(Seq<char>, crate::blueprint::DefinitionV)>,
    fe: Seq<(Seq<char>, Seq<char>, QueryFieldV)>,
    container: Seq<char>,
    fields: Seq<FieldV>,
)
    ensures
        enrich_sel(te, fe, container, fields) matches Result::Ok(out) ==> trees_candidated(out),
    decreases fields, 1nat,
{
    if type_lookup(te, container) is Some {
        let d = type_lookup(te, container)->0;
        if d is Object {
            lemma_enrich_fields_totality(te, fe, container, d->Object_0.join_types, fields);
        }
    }
}

proof fn lemma_enrich_fields_totality(
    te: Seq<(Seq<char>, crate::blueprint::DefinitionV)>,
    fe: Seq<(Seq<char>, Seq<char>, QueryFieldV)>,
    container: Seq<char>,
    jts: Seq<JoinTypeV>,
    fields: Seq<FieldV>,
)
    ensures
        enrich_fields(te, fe, container, jts, fields) matches Result::Ok(out) ==> out.len()
            == fields.len() && trees_candidated(out),
    decreases fields, 0nat,
{
    if fields.len() > 0 {
        lemma_enrich_field_totality(te, fe, container, jts, fields[0]);
        lemma_enrich_fields_totality(te, fe, container, jts, fields.drop_first());
        if enrich_fields(te, fe, container, jts, fields) is Ok {
            let out = enrich_fields(te, fe, container, jts, fields)->Ok_0;
            let f = enrich_field(te, fe, container, jts, fields[0])->Ok_0;
            let fs = enrich_fields(te, fe, container, jts, fields.drop_first())->Ok_0;
            assert(out == seq![f] + fs);
            assert(out[0] == f);
            assert(out.drop_first() =~= fs);
        }
    }
}

proof fn lemma_enrich_field_totality(
    te: Seq<(Seq<char>, crate::blueprint::DefinitionV)>,
    fe: Seq<(Seq<char>, Seq<char>, QueryFieldV)>,
    container: Seq<char>,
    jts: Seq<JoinTypeV>,
    f: FieldV,
)
    ensures
        enrich_field(te, fe, container, jts, f) matches Result::Ok(out) ==> tree_candidated(out),
    decreases f, 2nat,
{
    if field_lookup(fe, container, f.name) is Some {
        let q = field_lookup(fe, container, f.name)->0;
        if q is Field {
            let def = q->Field_0.0;
            if f.selections.len() > 0 {
                lemma_enrich_totality(te, fe, base_type_name(def.of_type), f.selections);
            }
            if enrich_field(te, fe, container, jts, f) is Ok {
                let out = enrich_field(te, fe, container, jts, f)->Ok_0;
                if f.selections.len() == 0 {
                    assert(out.selections =~= f.selections);
                    assert(trees_candidated(out.selections));
                }
                if def.join_fields.len() == 0 {
                    assert(out.graph == jt_graphs(jts, f.name));
                } else {
                    assert(out.join_field == def.join_fields);
                }
            }
        }
    }
}

/// How many causes enriching one selection level reports: one for a
/// container with no object definition, and otherwise one per failing
/// field below, recursively.
pub open spec fn sel_error_count(
    te: Seq<(Seq<char>, crate::blueprint::DefinitionV)>,
    fe: Seq<(Seq<char>, Seq<char>, QueryFieldV)>,
    container: Seq<char>,
    fields: Seq<FieldV>,
) -> nat
    decreases fields, 1nat,
{
    match type_lookup(te, container) {
        Option::Some(d) => match d {
            crate::blueprint::DefinitionV::Object(o) => fields_error_count(
                te,
                fe,
                container,
                o.join_types,
                fields,
            ),
            _ => 1nat,
        },
        Option::None => 1nat,
    }
}

/// The failing fields of one level, summed in order.
pub open spec fn fields_error_count(
    te: Seq<(Seq<char>, crate::blueprint::DefinitionV)>,
    fe: Seq<(Seq<char>, Seq<char>, QueryFieldV)>,
    container: Seq<char>,
    jts: Seq<JoinTypeV>,
    fields: Seq<FieldV>,
) -> nat
    decreases fields, 0nat,
{
    if fields.len() == 0 {
        0nat
    } else {
        field_error_count(te, fe, container, jts, fields[0]) + fields_error_count(
            te,
            fe,
            container,
            jts,
            fields.drop_first(),
        )
    }
}

/// How many causes enriching one field reports: one for a missing
/// definition or an empty candidate set, and otherwise whatever its
/// sub-selection reports.
pub open spec fn field_error_count(
    te: Seq<(Seq<char>, crate::blueprint::DefinitionV)>,
    fe: Seq<(Seq<char>, Seq<char>, QueryFieldV)>,
    container: Seq<char>,
    jts: Seq<JoinTypeV>,
    f: FieldV,
) -> nat
    decreases f, 2nat,
{
    match field_lookup(fe, container, f.name) {
        Option::Some(q) => match q {
            QueryFieldV::Field((def, _)) => {
                let candidates = if def.join_fields.len() == 0 {
                    jt_graphs(jts, f.name)
                } else {
                    crate::transforms::pruner::join_graphs(def.join_fields)
                };
                if candidates.len() == 0 {
                    1nat
                } else if f.selections.len() > 0 {
                    sel_error_count(te, fe, base_type_name(def.of_type), f.selections)
                } else {
                    0nat
                }
            },
            QueryFieldV::InputField(_) => 1nat,
        },
        Option::None => 1nat,
    }
}

/// Validation accumulates: the enrichment of a selection fails exactly
/// when some field of the tree fails, and its error then carries exactly
/// one cause per failure, however deeply nested.
pub proof fn lemma_enrich_accumulation(
    te: Seq<(Seq<char>, crate::blueprint::DefinitionV)>,
    fe: Seq<(Seq<char>, Seq<char>, QueryFieldV)>,
    container: Seq<char>,
    fields: Seq<FieldV>,
)
    ensures
        enrich_sel(te, fe, container, fields) is Err <==> sel_error_count(
            te,
            fe,
            container,
            fields,
        ) > 0,
        enrich_sel(te, fe, container, fields) matches Result::Err(msgs) ==> msgs.len()
            == sel_error_count(te, fe, container, fields),
    decreases fields, 1nat,
{
    if type_lookup(te, container) is Some {
        let d = type_lookup(te, container)->0;
        if d is Object {
            lemma_fields_accumulation(te, fe, container, d->Object_0.join_types, fields);
        }
    }
}

proof fn lemma_fields_accumulation(
    te: Seq<(Seq<char>, crate::blueprint::DefinitionV)>,
    fe: Seq<(Seq<char>, Seq<char>, QueryFieldV)>,
    container: Seq<char>,
    jts: Seq<JoinTypeV>,
    fields: Seq<FieldV>,
)
    ensures
        enrich_fields(te, fe, container, jts, fields) is Err <==> fields_error_count(
            te,
            fe,
            container,
            jts,
            fields,
        ) > 0,
        enrich_fields(te, fe, container, jts, fields) matches Result::Err(msgs) ==> msgs.len()
            == fields_error_count(te, fe, container, jts, fields),
    decreases fields, 0nat,
{
    if fields.len() > 0 {
        lemma_field_accumulation(te, fe, container, jts, fields[0]);
        lemma_fields_accumulation(te, fe, container, jts, fields.drop_first());
    }
}

proof fn lemma_field_accumulation(
    te: Seq<(Seq<char>, crate::blueprint::DefinitionV)>,
    fe: Seq<(Seq<char>, Seq<char>, QueryFieldV)>,
    container: Seq<char>,
    jts: Seq<JoinTypeV>,
    f: FieldV,
)
    ensures
        enrich_field(te, fe, container, jts, f) is Err <==> field_error_count(
            te,
            fe,
            container,
            jts,
            f,
        ) > 0,
        enrich_field(te, fe, container, jts, f) matches Result::Err(msgs) ==> msgs.len()
            == field_error_count(te, fe, container, jts, f),
    decreases f, 2nat,
{
    if field_lookup(fe, container, f.name) is Some {
        let q = field_lookup(fe, container, f.name)->0;
        if q is Field {
            let def = q->Field_0.0;
            if f.selections.len() > 0 {
                lemma_enrich_accumulation(te, fe, base_type_name(def.of_type), f.selections);
            }
        }
    }
}

} // verus!
