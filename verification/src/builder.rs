//! Building the initial query plan from a parsed operation document.
//!
//! Each operation becomes one fetch with no service chosen yet, carrying
//! the operation's selection set; all operations stand under one parallel
//! node. Only plain field selections are supported: a fragment fails the
//! build rather than being skipped.

use vstd::prelude::*;

use crate::error::Error;
use crate::error::is_plan_message;
use crate::json::Json;
use crate::json::JsonV;
use crate::model::Argument;
use crate::model::ArgumentV;
use crate::model::Directive;
use crate::model::DirectiveV;
use crate::model::Fetch;
use crate::model::FetchV;
use crate::model::Field;
use crate::model::FieldV;
use crate::model::PlanV;
use crate::model::QueryPlan;
use crate::model::SelectionSet;
use crate::model::TypeName;
use crate::model::VariableDefinition;
use crate::model::VariableDefinitionV;
use crate::model::fields_view;
use crate::model::lemma_fields_view;
use crate::model::lemma_plans_view;
use crate::model::plans_view;

verus! {

/// One argument of a selection or directive, its value already as JSON.
pub struct ArgumentNode {
    pub name: String,
    pub value: Json,
}

/// The view of an [`ArgumentNode`].
#[verifier::ext_equal]
pub struct ArgumentNodeV {
    pub name: Seq<char>,
    pub value: JsonV,
}

impl View for ArgumentNode {
    type V = ArgumentNodeV;

    open spec fn view(&self) -> ArgumentNodeV {
        ArgumentNodeV { name: self.name@, value: self.value@ }
    }
}

/// A directive applied in the operation document.
pub struct OpDirectiveNode {
    pub name: String,
    pub arguments: Vec<ArgumentNode>,
}

/// The view of an [`OpDirectiveNode`].
#[verifier::ext_equal]
pub struct OpDirectiveNodeV {
    pub name: Seq<char>,
    pub arguments: Seq<ArgumentNodeV>,
}

impl View for OpDirectiveNode {
    type V = OpDirectiveNodeV;

    open spec fn view(&self) -> OpDirectiveNodeV {
        OpDirectiveNodeV {
            name: self.name@,
            arguments: self.arguments@.map_values(|a: ArgumentNode| a@),
        }
    }
}

/// One selection: a field with possible sub-selections, or a fragment,
/// which the builder does not support.
pub enum SelectionNode {
    Field {
        name: String,
        alias: Option<String>,
        arguments: Vec<ArgumentNode>,
        directives: Vec<OpDirectiveNode>,
        selection_set: Vec<SelectionNode>,
    },
    InlineFragment,
    FragmentSpread,
}

/// The view of a [`SelectionNode`].
#[verifier::ext_equal]
pub enum SelectionNodeV {
    Field {
        name: Seq<char>,
        alias: Option<Seq<char>>,
        arguments: Seq<ArgumentNodeV>,
        directives: Seq<OpDirectiveNodeV>,
        selection_set: Seq<SelectionNodeV>,
    },
    InlineFragment,
    FragmentSpread,
}

impl View for SelectionNode {
    type V = SelectionNodeV;

    open spec fn view(&self) -> SelectionNodeV
        decreases self,
    {
        match self {
            SelectionNode::Field { name, alias, arguments, directives, selection_set } => {
                SelectionNodeV::Field {
                    name: name@,
                    alias: crate::blueprint::opt_view(*alias),
                    arguments: arguments@.map_values(|a: ArgumentNode| a@),
                    directives: directives@.map_values(|d: OpDirectiveNode| d@),
                    selection_set: selections_view(selection_set@),
                }
            },
            SelectionNode::InlineFragment => SelectionNodeV::InlineFragment,
            SelectionNode::FragmentSpread => SelectionNodeV::FragmentSpread,
        }
    }
}

/// The views of every selection in `s`, in order.
pub open spec fn selections_view(s: Seq<SelectionNode>) -> Seq<SelectionNodeV>
    decreases s,
{
    if s.len() == 0 {
        Seq::<SelectionNodeV>::empty()
    } else {
        seq![s[0]@] + selections_view(s.drop_first())
    }
}

/// `selections_view` views the sequence pointwise.
pub broadcast proof fn lemma_selections_view(s: Seq<SelectionNode>)
    ensures
        (#[trigger] selections_view(s)).len() == s.len(),
        forall|i: int| #![trigger selections_view(s)[i]] #![trigger s[i]]
            0 <= i < s.len() ==> selections_view(s)[i] == s[i]@,
    decreases s.len(),
{
    if s.len() > 0 {
        lemma_selections_view(s.drop_first());
        assert(selections_view(s) == seq![s[0]@] + selections_view(s.drop_first()));
        assert forall|i: int| 0 <= i < s.len() implies selections_view(s)[i] == s[i]@ by {
            if i > 0 {
                assert(s.drop_first()[i - 1] == s[i]);
            }
        }
    }
}

/// One variable declared by an operation.
pub struct VariableNode {
    pub name: String,
    pub base_type: String,
    pub nullable: bool,
    pub directives: Vec<OpDirectiveNode>,
    pub default_value: Option<Json>,
}

/// The view of a [`VariableNode`].
#[verifier::ext_equal]
pub struct VariableNodeV {
    pub name: Seq<char>,
    pub base_type: Seq<char>,
    pub nullable: bool,
    pub directives: Seq<OpDirectiveNodeV>,
    pub default_value: Option<JsonV>,
}

impl View for VariableNode {
    type V = VariableNodeV;

    open spec fn view(&self) -> VariableNodeV {
        VariableNodeV {
            name: self.name@,
            base_type: self.base_type@,
            nullable: self.nullable,
            directives: self.directives@.map_values(|d: OpDirectiveNode| d@),
            default_value: match self.default_value {
                Option::Some(ref j) => Option::Some(j@),
                Option::None => Option::None,
            },
        }
    }
}

/// One operation of the document.
pub struct OperationNode {
    pub name: Option<String>,
    pub operation_type: String,
    pub variable_definitions: Vec<VariableNode>,
    pub directives: Vec<OpDirectiveNode>,
    pub selection_set: Vec<SelectionNode>,
}

/// The view of an [`OperationNode`].
#[verifier::ext_equal]
pub struct OperationNodeV {
    pub name: Option<Seq<char>>,
    pub operation_type: Seq<char>,
    pub variable_definitions: Seq<VariableNodeV>,
    pub directives: Seq<OpDirectiveNodeV>,
    pub selection_set: Seq<SelectionNodeV>,
}

impl View for OperationNode {
    type V = OperationNodeV;

    open spec fn view(&self) -> OperationNodeV {
        OperationNodeV {
            name: crate::blueprint::opt_view(self.name),
            operation_type: self.operation_type@,
            variable_definitions: self.variable_definitions@.map_values(|v: VariableNode| v@),
            directives: self.directives@.map_values(|d: OpDirectiveNode| d@),
            selection_set: selections_view(self.selection_set@),
        }
    }
}

/// The plan argument a document argument becomes.
pub open spec fn argument_of(a: ArgumentNodeV) -> ArgumentV {
    ArgumentV { name: a.name, value: a.value }
}

/// The plan directive a document directive becomes.
pub open spec fn directive_of(d: OpDirectiveNodeV) -> DirectiveV {
    DirectiveV { name: d.name, arguments: d.arguments.map_values(|a: ArgumentNodeV| argument_of(a)) }
}

/// The plan variable a document variable becomes.
pub open spec fn variable_of(v: VariableNodeV) -> VariableDefinitionV {
    VariableDefinitionV {
        name: v.name,
        type_of: v.base_type,
        nullable: v.nullable,
        directives: v.directives.map_values(|d: OpDirectiveNodeV| directive_of(d)),
        default_value: v.default_value,
    }
}

/// What building one selection yields: a bare field carrying the asked
/// name, alias, arguments, directives and sub-selections; a fragment is
/// unsupported and fails.
pub open spec fn build_field(s: SelectionNodeV) -> Result<FieldV, ()>
    decreases s, 1nat,
{
    match s {
        SelectionNodeV::Field { name, alias, arguments, directives, selection_set } => {
            match build_selection(selection_set) {
                Result::Ok(fields) => Result::Ok(
                    FieldV {
                        name,
                        alias,
                        selections: fields,
                        arguments: arguments.map_values(|a: ArgumentNodeV| argument_of(a)),
                        directives: directives.map_values(|d: OpDirectiveNodeV| directive_of(d)),
                        is_hidden: false,
                        graph: Seq::<Seq<char>>::empty(),
                        join_field: Seq::<crate::blueprint::JoinFieldV>::empty(),
                        field_type: Option::None,
                        parent_type: Option::None,
                    },
                ),
                Result::Err(e) => Result::Err(e),
            }
        },
        _ => Result::Err(()),
    }
}

/// What building a selection set yields, failing on the first fragment.
pub open spec fn build_selection(s: Seq<SelectionNodeV>) -> Result<Seq<FieldV>, ()>
    decreases s, 0nat,
{
    if s.len() == 0 {
        Result::Ok(Seq::<FieldV>::empty())
    } else {
        match build_field(s[0]) {
            Result::Ok(f) => match build_selection(s.drop_first()) {
                Result::Ok(fs) => Result::Ok(seq![f] + fs),
                Result::Err(e) => Result::Err(e),
            },
            Result::Err(e) => Result::Err(e),
        }
    }
}

/// What building one operation yields: a fetch with no service chosen.
pub open spec fn build_operation(op: OperationNodeV) -> Result<PlanV, ()> {
    match build_selection(op.selection_set) {
        Result::Ok(fields) => Result::Ok(
            PlanV::Fetch(
                FetchV {
                    name: op.name,
                    arguments: Seq::<ArgumentV>::empty(),
                    variables: op.variable_definitions.map_values(
                        |v: VariableNodeV| variable_of(v),
                    ),
                    directives: op.directives.map_values(|d: OpDirectiveNodeV| directive_of(d)),
                    selection_set: fields,
                    representations: Option::None,
                    type_of: op.operation_type,
                    service: Option::None,
                },
            ),
        ),
        Result::Err(e) => Result::Err(e),
    }
}

/// What building a whole document yields: all operations under one
/// parallel node, or failure at the first fragment.
pub open spec fn build_plan(ops: Seq<OperationNodeV>) -> Result<PlanV, ()>
    decreases ops.len(),
{
    match build_plans(ops) {
        Result::Ok(plans) => Result::Ok(PlanV::Parallel(plans)),
        Result::Err(e) => Result::Err(e),
    }
}

/// The fetches of every operation, in order.
pub open spec fn build_plans(ops: Seq<OperationNodeV>) -> Result<Seq<PlanV>, ()>
    decreases ops.len(),
{
    if ops.len() == 0 {
        Result::Ok(Seq::<PlanV>::empty())
    } else {
        match build_operation(ops[0]) {
            Result::Ok(p) => match build_plans(ops.drop_first()) {
                Result::Ok(ps) => Result::Ok(seq![p] + ps),
                Result::Err(e) => Result::Err(e),
            },
            Result::Err(e) => Result::Err(e),
        }
    }
}


/// Converts document arguments to plan arguments.
#[verifier::loop_isolation(false)]
fn convert_arguments(args: Vec<ArgumentNode>) -> (r: Vec<Argument>)
    ensures
        r@.map_values(|a: Argument| a@) == args@.map_values(|a: ArgumentNode| a@).map_values(
            |a: ArgumentNodeV| argument_of(a),
        ),
{
    let ghost argsv = args@.map_values(|a: ArgumentNode| a@);
    let n = args.len();
    let mut rest = args;
    let mut out: Vec<Argument> = Vec::new();
    while rest.len() > 0
        invariant
            rest@.len() <= n,
            n == argsv.len(),
            out@.len() + rest@.len() == n,
            forall|j: int|
                0 <= j < rest@.len() ==> (#[trigger] rest@[j])@ == argsv[n - rest@.len() + j],
            forall|j: int|
                0 <= j < out@.len() ==> (#[trigger] out@[j])@ == argument_of(argsv[j]),
        decreases rest@.len(),
    {
        let a = rest.remove(0);
        out.push(Argument { name: a.name, value: a.value });
    }
    proof {
        assert(out@.map_values(|a: Argument| a@) =~= argsv.map_values(
            |a: ArgumentNodeV| argument_of(a),
        ));
    }
    out
}

/// Converts document directives to plan directives.
#[verifier::loop_isolation(false)]
fn convert_directives(ds: Vec<OpDirectiveNode>) -> (r: Vec<Directive>)
    ensures
        r@.map_values(|d: Directive| d@) == ds@.map_values(|d: OpDirectiveNode| d@).map_values(
            |d: OpDirectiveNodeV| directive_of(d),
        ),
{
    let ghost dsv = ds@.map_values(|d: OpDirectiveNode| d@);
    let n = ds.len();
    let mut rest = ds;
    let mut out: Vec<Directive> = Vec::new();
    while rest.len() > 0
        invariant
            rest@.len() <= n,
            n == dsv.len(),
            out@.len() + rest@.len() == n,
            forall|j: int|
                0 <= j < rest@.len() ==> (#[trigger] rest@[j])@ == dsv[n - rest@.len() + j],
            forall|j: int|
                0 <= j < out@.len() ==> (#[trigger] out@[j])@ == directive_of(dsv[j]),
        decreases rest@.len(),
    {
        let d = rest.remove(0);
        let ghost dv = d@;
        let arguments = convert_arguments(d.arguments);
        let nd = Directive { name: d.name, arguments };
        proof {
            assert(nd@ =~= directive_of(dv));
        }
        out.push(nd);
    }
    proof {
        assert(out@.map_values(|d: Directive| d@) =~= dsv.map_values(
            |d: OpDirectiveNodeV| directive_of(d),
        ));
    }
    out
}

/// Converts document variables to plan variables.
#[verifier::loop_isolation(false)]
fn convert_variables(vs: Vec<VariableNode>) -> (r: Vec<VariableDefinition>)
    ensures
        r@.map_values(|v: VariableDefinition| v@) == vs@.map_values(
            |v: VariableNode| v@,
        ).map_values(|v: VariableNodeV| variable_of(v)),
{
    let ghost vsv = vs@.map_values(|v: VariableNode| v@);
    let n = vs.len();
    let mut rest = vs;
    let mut out: Vec<VariableDefinition> = Vec::new();
    while rest.len() > 0
        invariant
            rest@.len() <= n,
            n == vsv.len(),
            out@.len() + rest@.len() == n,
            forall|j: int|
                0 <= j < rest@.len() ==> (#[trigger] rest@[j])@ == vsv[n - rest@.len() + j],
            forall|j: int|
                0 <= j < out@.len() ==> (#[trigger] out@[j])@ == variable_of(vsv[j]),
        decreases rest@.len(),
    {
        let v = rest.remove(0);
        let ghost vv = v@;
        let directives = convert_directives(v.directives);
        let nv = VariableDefinition {
            name: v.name,
            type_of: TypeName::new(v.base_type),
            nullable: v.nullable,
            directives,
            default_value: v.default_value,
        };
        proof {
            assert(nv@ =~= variable_of(vv));
        }
        out.push(nv);
    }
    proof {
        assert(out@.map_values(|v: VariableDefinition| v@) =~= vsv.map_values(
            |v: VariableNodeV| variable_of(v),
        ));
    }
    out
}

/// Builds one field from a selection; a fragment is unsupported.
#[verifier::loop_isolation(false)]
fn build_field_exec(s: SelectionNode) -> (r: Result<Field, ()>)
    ensures
        match build_field(s@) {
            Result::Ok(fv) => r matches Ok(f) && f@ == fv,
            Result::Err(_) => r is Err,
        },
    decreases s, 1nat,
{
    let ghost sv = s@;
    match s {
        SelectionNode::Field { name, alias, arguments, directives, selection_set } => {
            match build_selection_exec(selection_set) {
                Ok(fields) => {
                    let arguments = convert_arguments(arguments);
                    let directives = convert_directives(directives);
                    let f = Field {
                        name,
                        alias,
                        selections: SelectionSet(fields),
                        arguments,
                        directives,
                        is_hidden: false,
                        graph: Vec::new(),
                        join_field: Vec::new(),
                        field_type: None,
                        parent_type: None,
                    };
                    proof {
                        assert(f@ =~= build_field(sv)->Ok_0);
                    }
                    Ok(f)
                },
                Err(e) => Err(e),
            }
        },
        SelectionNode::InlineFragment => Err(()),
        SelectionNode::FragmentSpread => Err(()),
    }
}

/// Builds a selection set, failing at the first fragment.
#[verifier::loop_isolation(false)]
fn build_selection_exec(sels: Vec<SelectionNode>) -> (r: Result<Vec<Field>, ()>)
    ensures
        match build_selection(selections_view(sels@)) {
            Result::Ok(fvs) => r matches Ok(out) && fields_view(out@) == fvs,
            Result::Err(_) => r is Err,
        },
    decreases sels@, 0nat,
{
    let ghost items0 = sels@;
    let ghost orig = selections_view(sels@);
    proof {
        lemma_selections_view(sels@);
    }
    let mut rest = sels;
    let mut out: Vec<Field> = Vec::new();
    proof {
        assert(orig.skip(0) =~= orig);
        assert(items0.skip(0) =~= items0);
        assert(fields_view(out@) =~= Seq::<FieldV>::empty());
        if build_selection(orig) is Ok {
            assert(fields_view(out@) + build_selection(orig)->Ok_0 =~= build_selection(
                orig,
            )->Ok_0);
        }
    }
    while rest.len() > 0
        invariant
            rest@.len() <= items0.len(),
            orig == selections_view(items0),
            orig.len() == items0.len(),
            rest@ == items0.skip(items0.len() - rest@.len()),
            fields_view(out@).len() == out@.len(),
            out@.len() == orig.len() - rest@.len(),
            build_selection(orig) == (match build_selection(
                orig.skip(orig.len() - rest@.len()),
            ) {
                Result::Ok(fs) => Result::<Seq<FieldV>, ()>::Ok(fields_view(out@) + fs),
                Result::Err(e) => Result::<Seq<FieldV>, ()>::Err(e),
            }),
        decreases rest@.len(),
    {
        let ghost done = (items0.len() - rest@.len()) as int;
        proof {
            lemma_selections_view(items0);
            lemma_fields_view(out@);
            assert(rest@[0] == items0[done]);
            assert(orig.skip(done)[0] == orig[done]);
            assert(orig.skip(done).drop_first() =~= orig.skip(done + 1));
        }
        let x = rest.remove(0);
        proof {
            assert(x == items0[done]);
            assert(x@ == orig[done]);
        }
        match build_field_exec(x) {
            Ok(f) => {
                let ghost outv = fields_view(out@);
                let ghost oldvec = out@;
                out.push(f);
                proof {
                    lemma_fields_view(oldvec);
                    lemma_fields_view(out@);
                    assert(fields_view(out@) =~= outv.push(build_field(orig[done])->Ok_0));
                    if build_selection(orig.skip(done + 1)) is Ok {
                        assert(fields_view(out@) + build_selection(orig.skip(done + 1))->Ok_0
                            =~= outv + (seq![build_field(orig[done])->Ok_0] + build_selection(
                            orig.skip(done + 1),
                        )->Ok_0));
                    }
                }
            },
            Err(e) => {
                return Err(e);
            },
        }
        proof {
            assert(rest@ =~= items0.skip(items0.len() - rest@.len()));
        }
    }
    proof {
        assert(orig.skip(orig.len() as int) =~= Seq::<SelectionNodeV>::empty());
        assert(items0.skip(0) =~= items0);
        assert(fields_view(out@) + Seq::<FieldV>::empty() =~= fields_view(out@));
    }
    Ok(out)
}

impl QueryPlan {
    /// Tries to build the initial query plan from the operations of one
    /// document: one fetch per operation under a parallel node, no
    /// service chosen yet; a fragment anywhere is unsupported and fails.
    #[verifier::loop_isolation(false)]
    pub fn try_new(operations: Vec<OperationNode>) -> (r: Result<QueryPlan, Error>)
        ensures
            match build_plan(operations@.map_values(|o: OperationNode| o@)) {
                Result::Ok(pv) => r matches Ok(p) && p@ == pv,
                Result::Err(_) => r matches Err(e) && is_plan_message(
                    e@,
                    "unsupported selection"@,
                ),
            },
    {
        let ghost opsv = operations@.map_values(|o: OperationNode| o@);
        let n = operations.len();
        let mut rest = operations;
        let mut plans: Vec<QueryPlan> = Vec::new();
        proof {
            assert(plans_view(plans@) =~= Seq::<PlanV>::empty());
            assert(opsv.skip(0) =~= opsv);
            if build_plans(opsv) is Ok {
                assert(plans_view(plans@) + build_plans(opsv)->Ok_0 =~= build_plans(
                    opsv,
                )->Ok_0);
            }
        }
        while rest.len() > 0
            invariant
                rest@.len() <= n,
                n == opsv.len(),
                plans@.len() + rest@.len() == n,
                plans_view(plans@).len() == plans@.len(),
                forall|j: int|
                    0 <= j < rest@.len() ==> (#[trigger] rest@[j])@ == opsv[n - rest@.len()
                        + j],
                build_plans(opsv) == (match build_plans(opsv.skip(n - rest@.len())) {
                    Result::Ok(ps) => Result::<Seq<PlanV>, ()>::Ok(plans_view(plans@) + ps),
                    Result::Err(e) => Result::<Seq<PlanV>, ()>::Err(e),
                }),
            decreases rest@.len(),
        {
            let ghost done = (opsv.len() - rest@.len()) as int;
            proof {
                lemma_plans_view(plans@);
                assert(opsv.skip(done)[0] == opsv[done]);
                assert(opsv.skip(done).drop_first() =~= opsv.skip(done + 1));
            }
            let op = rest.remove(0);
            proof {
                assert(op@ == opsv[done]);
            }
            let ghost opv = op@;
            let OperationNode {
                name,
                operation_type,
                variable_definitions,
                directives,
                selection_set,
            } = op;
            match build_selection_exec(selection_set) {
                Ok(fields) => {
                    let variables = convert_variables(variable_definitions);
                    let directives = convert_directives(directives);
                    let fetch = Fetch {
                        name,
                        arguments: Vec::new(),
                        variables,
                        directives,
                        selection_set: SelectionSet(fields),
                        representations: None,
                        type_of: TypeName::new(operation_type),
                        service: None,
                    };
                    let plan = QueryPlan::Fetch(fetch);
                    proof {
                        assert(plan@.arrow_Fetch_0().arguments =~= Seq::<ArgumentV>::empty());
                        assert(plan@ =~= build_operation(opv)->Ok_0);
                    }
                    let ghost before = plans_view(plans@);
                    let ghost oldvec = plans@;
                    plans.push(plan);
                    proof {
                        lemma_plans_view(oldvec);
                        lemma_plans_view(plans@);
                        assert(plans_view(plans@) =~= before.push(build_operation(opv)->Ok_0));
                        if build_plans(opsv.skip(done + 1)) is Ok {
                            assert(plans_view(plans@) + build_plans(opsv.skip(done + 1))->Ok_0
                                =~= before + (seq![build_operation(opv)->Ok_0] + build_plans(
                                opsv.skip(done + 1),
                            )->Ok_0));
                        }
                    }
                },
                Err(_) => {
                    return Err(Error::plan("unsupported selection"));
                },
            }
        }
        proof {
            assert(opsv.skip(opsv.len() as int) =~= Seq::<OperationNodeV>::empty());
            assert(opsv.skip(0) =~= opsv);
            assert(plans_view(plans@) + Seq::<PlanV>::empty() =~= plans_view(plans@));
        }
        Ok(QueryPlan::Parallel(plans))
    }
}

} // verus!
