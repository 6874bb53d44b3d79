//! The query-plan model.
//!
//! A plan is a tree of fetches against subgraphs combined with parallel,
//! sequence and flatten nodes; a fetch carries a selection set of fields,
//! each annotated with the subgraphs that can serve it.

use vstd::prelude::*;

use crate::blueprint::Graph;
use crate::blueprint::JoinField;
use crate::blueprint::JoinFieldV;
use crate::blueprint::opt_view;
use crate::json::Json;
use crate::json::JsonV;
use crate::lens::Lens;
use crate::lens::LensV;

verus! {

/// The name of a GraphQL type.
pub struct TypeName(String);

impl View for TypeName {
    type V = Seq<char>;

    closed spec fn view(&self) -> Seq<char> {
        self.0@
    }
}

impl TypeName {
    /// A type name.
    pub fn new(name: String) -> (r: TypeName)
        ensures
            r@ == name@,
    {
        TypeName(name)
    }

    /// The name as a string slice.
    pub fn as_str(&self) -> (r: &str)
        ensures
            r@ == self@,
    {
        self.0.as_str()
    }

    /// A fresh type name equal to this one.
    pub fn duplicate(&self) -> (r: TypeName)
        ensures
            r@ == self@,
    {
        TypeName(self.0.clone())
    }
}

/// A named argument value.
pub struct Argument {
    pub name: String,
    pub value: Json,
}

/// The view of an [`Argument`].
#[verifier::ext_equal]
pub struct ArgumentV {
    pub name: Seq<char>,
    pub value: JsonV,
}

impl View for Argument {
    type V = ArgumentV;

    open spec fn view(&self) -> ArgumentV {
        ArgumentV { name: self.name@, value: self.value@ }
    }
}

/// A directive applied in an operation document.
pub struct Directive {
    pub name: String,
    pub arguments: Vec<Argument>,
}

/// The view of a [`Directive`].
#[verifier::ext_equal]
pub struct DirectiveV {
    pub name: Seq<char>,
    pub arguments: Seq<ArgumentV>,
}

impl View for Directive {
    type V = DirectiveV;

    open spec fn view(&self) -> DirectiveV {
        DirectiveV {
            name: self.name@,
            arguments: self.arguments@.map_values(|a: Argument| a@),
        }
    }
}

/// A variable declared by an operation.
pub struct VariableDefinition {
    pub name: String,
    pub type_of: TypeName,
    pub nullable: bool,
    pub directives: Vec<Directive>,
    pub default_value: Option<Json>,
}

/// The view of a [`VariableDefinition`].
#[verifier::ext_equal]
pub struct VariableDefinitionV {
    pub name: Seq<char>,
    pub type_of: Seq<char>,
    pub nullable: bool,
    pub directives: Seq<DirectiveV>,
    pub default_value: Option<JsonV>,
}

impl View for VariableDefinition {
    type V = VariableDefinitionV;

    open spec fn view(&self) -> VariableDefinitionV {
        VariableDefinitionV {
            name: self.name@,
            type_of: self.type_of@,
            nullable: self.nullable,
            directives: self.directives@.map_values(|d: Directive| d@),
            default_value: match self.default_value {
                Option::Some(ref v) => Option::Some(v@),
                Option::None => Option::None,
            },
        }
    }
}

/// An ordered sequence of selected fields.
pub struct SelectionSet(pub Vec<Field>);

/// A selected field: what the client asked for at one level, together with
/// the planner's annotations.
pub struct Field {
    pub name: String,
    pub alias: Option<String>,
    pub selections: SelectionSet,
    pub arguments: Vec<Argument>,
    pub directives: Vec<Directive>,
    /// Set when the field was injected by the planner for querying
    /// subgraphs and is not to be exposed to the user.
    pub is_hidden: bool,
    /// The subgraphs from which this field can be queried.
    pub graph: Vec<Graph>,
    /// Federation metadata copied from the blueprint.
    pub join_field: Vec<JoinField>,
    /// The type of the field.
    pub field_type: Option<TypeName>,
    /// The type in which this field is defined.
    pub parent_type: Option<TypeName>,
}

/// The view of a [`Field`].
#[verifier::ext_equal]
pub struct FieldV {
    pub name: Seq<char>,
    pub alias: Option<Seq<char>>,
    pub selections: Seq<FieldV>,
    pub arguments: Seq<ArgumentV>,
    pub directives: Seq<DirectiveV>,
    pub is_hidden: bool,
    pub graph: Seq<Seq<char>>,
    pub join_field: Seq<JoinFieldV>,
    pub field_type: Option<Seq<char>>,
    pub parent_type: Option<Seq<char>>,
}

impl View for Field {
    type V = FieldV;

    open spec fn view(&self) -> FieldV
        decreases self,
    {
        FieldV {
            name: self.name@,
            alias: opt_view(self.alias),
            selections: fields_view(self.selections.0@),
            arguments: self.arguments@.map_values(|a: Argument| a@),
            directives: self.directives@.map_values(|d: Directive| d@),
            is_hidden: self.is_hidden,
            graph: self.graph@.map_values(|g: Graph| g@),
            join_field: self.join_field@.map_values(|jf: JoinField| jf@),
            field_type: match self.field_type {
                Option::Some(ref t) => Option::Some(t@),
                Option::None => Option::None,
            },
            parent_type: match self.parent_type {
                Option::Some(ref t) => Option::Some(t@),
                Option::None => Option::None,
            },
        }
    }
}

/// The views of every field in `s`, in order.
pub open spec fn fields_view(s: Seq<Field>) -> Seq<FieldV>
    decreases s,
{
    if s.len() == 0 {
        Seq::<FieldV>::empty()
    } else {
        seq![s[0]@] + fields_view(s.drop_first())
    }
}

/// `fields_view` views the sequence pointwise.
pub broadcast proof fn lemma_fields_view(s: Seq<Field>)
    ensures
        (#[trigger] fields_view(s)).len() == s.len(),
        forall|i: int| #![trigger fields_view(s)[i]] #![trigger s[i]]
            0 <= i < s.len() ==> fields_view(s)[i] == s[i]@,
    decreases s.len(),
{
    if s.len() > 0 {
        lemma_fields_view(s.drop_first());
        assert(fields_view(s) == seq![s[0]@] + fields_view(s.drop_first()));
        assert(fields_view(s).len() == s.len());
        assert forall|i: int| 0 <= i < s.len() implies fields_view(s)[i] == s[i]@ by {
            if i > 0 {
                assert(s.drop_first()[i - 1] == s[i]);
            }
        }
    }
}

impl View for SelectionSet {
    type V = Seq<FieldV>;

    open spec fn view(&self) -> Seq<FieldV> {
        fields_view(self.0@)
    }
}

impl SelectionSet {
    /// The selection of exactly these fields, in order.
    pub fn new(fields: Vec<Field>) -> (r: SelectionSet)
        ensures
            r@ == fields_view(fields@),
    {
        SelectionSet(fields)
    }

    /// The empty selection.
    pub fn empty() -> (r: SelectionSet)
        ensures
            r@ == Seq::<FieldV>::empty(),
    {
        let r = SelectionSet(Vec::new());
        proof {
            assert(r@ =~= Seq::<FieldV>::empty());
        }
        r
    }

    /// Appends one more field.
    pub fn push(&mut self, field: Field)
        ensures
            final(self)@ == old(self)@.push(field@),
    {
        let ghost before = self.0@;
        self.0.push(field);
        proof {
            lemma_fields_view(before);
            lemma_fields_view(self.0@);
            assert(fields_view(self.0@) =~= fields_view(before).push(self.0@[before.len() as int]@));
        }
    }

    /// The fields, surrendered as a vector.
    pub fn into_vec(self) -> (r: Vec<Field>)
        ensures
            fields_view(r@) == self@,
    {
        self.0
    }

    /// How many fields are selected.
    pub fn len(&self) -> (r: usize)
        ensures
            r == self@.len(),
    {
        proof {
            lemma_fields_view(self.0@);
        }
        self.0.len()
    }
}

impl Field {
    /// A field with this name and these sub-selections, and nothing else:
    /// no alias, no arguments, no directives, no annotations yet.
    pub fn new(name: String, selections: SelectionSet) -> (r: Field)
        ensures
            r@ == (FieldV {
                name: name@,
                alias: Option::None,
                selections: selections@,
                arguments: Seq::<ArgumentV>::empty(),
                directives: Seq::<DirectiveV>::empty(),
                is_hidden: false,
                graph: Seq::<Seq<char>>::empty(),
                join_field: Seq::<JoinFieldV>::empty(),
                field_type: Option::None,
                parent_type: Option::None,
            }),
    {
        let r = Field {
            name,
            alias: None,
            selections,
            arguments: Vec::new(),
            directives: Vec::new(),
            is_hidden: false,
            graph: Vec::new(),
            join_field: Vec::new(),
            field_type: None,
            parent_type: None,
        };
        proof {
            assert(r@.arguments =~= Seq::<ArgumentV>::empty());
            assert(r@.directives =~= Seq::<DirectiveV>::empty());
            assert(r@.graph =~= Seq::<Seq<char>>::empty());
            assert(r@.join_field =~= Seq::<JoinFieldV>::empty());
        }
        r
    }

    /// This field with its alias replaced.
    pub fn alias(self, alias: Option<String>) -> (r: Field)
        ensures
            r@ == (FieldV { alias: opt_view(alias), ..self@ }),
    {
        Field { alias, ..self }
    }

    /// This field with its arguments replaced.
    pub fn arguments(self, arguments: Vec<Argument>) -> (r: Field)
        ensures
            r@ == (FieldV { arguments: arguments@.map_values(|a: Argument| a@), ..self@ }),
    {
        Field { arguments, ..self }
    }

    /// This field with its directives replaced.
    pub fn directives(self, directives: Vec<Directive>) -> (r: Field)
        ensures
            r@ == (FieldV { directives: directives@.map_values(|d: Directive| d@), ..self@ }),
    {
        Field { directives, ..self }
    }

    /// This field with its candidate subgraphs replaced.
    pub fn graph(self, graph: Vec<Graph>) -> (r: Field)
        ensures
            r@ == (FieldV { graph: graph@.map_values(|g: Graph| g@), ..self@ }),
    {
        Field { graph, ..self }
    }

    /// This field with its federation metadata replaced.
    pub fn join_field(self, join_field: Vec<JoinField>) -> (r: Field)
        ensures
            r@ == (FieldV { join_field: join_field@.map_values(|jf: JoinField| jf@), ..self@ }),
    {
        Field { join_field, ..self }
    }

    /// This field with its sub-selections replaced.
    pub fn selections(self, selections: SelectionSet) -> (r: Field)
        ensures
            r@ == (FieldV { selections: selections@, ..self@ }),
    {
        Field { selections, ..self }
    }
}

/// One subgraph call: the service, the type it starts from, and what to
/// select there.
pub struct Fetch {
    pub name: Option<String>,
    pub arguments: Vec<Argument>,
    pub variables: Vec<VariableDefinition>,
    pub directives: Vec<Directive>,
    pub selection_set: SelectionSet,
    pub representations: Option<SelectionSet>,
    pub type_of: TypeName,
    pub service: Option<Graph>,
}

/// The view of a [`Fetch`].
#[verifier::ext_equal]
pub struct FetchV {
    pub name: Option<Seq<char>>,
    pub arguments: Seq<ArgumentV>,
    pub variables: Seq<VariableDefinitionV>,
    pub directives: Seq<DirectiveV>,
    pub selection_set: Seq<FieldV>,
    pub representations: Option<Seq<FieldV>>,
    pub type_of: Seq<char>,
    pub service: Option<Seq<char>>,
}

impl View for Fetch {
    type V = FetchV;

    open spec fn view(&self) -> FetchV {
        FetchV {
            name: opt_view(self.name),
            arguments: self.arguments@.map_values(|a: Argument| a@),
            variables: self.variables@.map_values(|v: VariableDefinition| v@),
            directives: self.directives@.map_values(|d: Directive| d@),
            selection_set: self.selection_set@,
            representations: match self.representations {
                Option::Some(ref s) => Option::Some(s@),
                Option::None => Option::None,
            },
            type_of: self.type_of@,
            service: match self.service {
                Option::Some(ref g) => Option::Some(g@),
                Option::None => Option::None,
            },
        }
    }
}

/// A query plan: fetches combined with parallel, sequence and flatten
/// nodes.
pub enum QueryPlan {
    Parallel(Vec<QueryPlan>),
    Sequence(Vec<QueryPlan>),
    Fetch(Fetch),
    Flatten { select: Lens, plan: Box<QueryPlan> },
}

/// The view of a [`QueryPlan`].
#[verifier::ext_equal]
pub enum PlanV {
    Parallel(Seq<PlanV>),
    Sequence(Seq<PlanV>),
    Fetch(FetchV),
    Flatten { select: LensV, plan: Box<PlanV> },
}

impl View for QueryPlan {
    type V = PlanV;

    open spec fn view(&self) -> PlanV
        decreases self,
    {
        match self {
            QueryPlan::Parallel(plans) => PlanV::Parallel(plans_view(plans@)),
            QueryPlan::Sequence(plans) => PlanV::Sequence(plans_view(plans@)),
            QueryPlan::Fetch(fetch) => PlanV::Fetch(fetch@),
            QueryPlan::Flatten { select, plan } => PlanV::Flatten {
                select: select@,
                plan: Box::new((&**plan)@),
            },
        }
    }
}

/// The views of every plan in `s`, in order.
pub open spec fn plans_view(s: Seq<QueryPlan>) -> Seq<PlanV>
    decreases s,
{
    if s.len() == 0 {
        Seq::<PlanV>::empty()
    } else {
        seq![s[0]@] + plans_view(s.drop_first())
    }
}

/// `plans_view` views the sequence pointwise.
pub broadcast proof fn lemma_plans_view(s: Seq<QueryPlan>)
    ensures
        (#[trigger] plans_view(s)).len() == s.len(),
        forall|i: int| #![trigger plans_view(s)[i]] #![trigger s[i]]
            0 <= i < s.len() ==> plans_view(s)[i] == s[i]@,
    decreases s.len(),
{
    if s.len() > 0 {
        lemma_plans_view(s.drop_first());
        assert(plans_view(s) == seq![s[0]@] + plans_view(s.drop_first()));
        assert(plans_view(s).len() == s.len());
        assert forall|i: int| 0 <= i < s.len() implies plans_view(s)[i] == s[i]@ by {
            if i > 0 {
                assert(s.drop_first()[i - 1] == s[i]);
            }
        }
    }
}

impl QueryPlan {
    /// The plan of one fetch.
    pub fn fetch(fetch: Fetch) -> (r: QueryPlan)
        ensures
            r@ == PlanV::Fetch(fetch@),
    {
        QueryPlan::Fetch(fetch)
    }

    /// This plan followed by `plan` applied at the location `select`: a
    /// sequence whose second step flattens into the first step's output.
    pub fn and_then(self, select: Lens, plan: QueryPlan) -> (r: QueryPlan)
        ensures
            r@ == PlanV::Sequence(
                seq![
                    self@,
                    PlanV::Flatten { select: select@, plan: Box::new(plan@) },
                ],
            ),
    {
        let mut plans: Vec<QueryPlan> = Vec::new();
        let ghost selfv = self@;
        plans.push(self);
        plans.push(QueryPlan::Flatten { select, plan: Box::new(plan) });
        let r = QueryPlan::Sequence(plans);
        proof {
            lemma_plans_view(plans@);
            assert(plans_view(plans@) =~= seq![
                selfv,
                PlanV::Flatten { select: select@, plan: Box::new(plan@) },
            ]);
        }
        r
    }
}


/// The rendering of a lens, as a constructor-shaped term.
pub open spec fn lens_doc(l: LensV) -> Seq<char>
    decreases l,
{
    match l {
        LensV::Field(key) => "Field(\""@ + key + "\")"@,
        LensV::Index(i) => "Index("@ + int_doc(i) + ")"@,
        LensV::Combine(a, b) => "Combine("@ + lens_doc(*a) + ", "@ + lens_doc(*b) + ")"@,
        LensV::ForEach(inner) => "ForEach("@ + lens_doc(*inner) + ")"@,
        LensV::Empty => "Empty"@,
    }
}

/// The decimal rendering of a non-negative number; anything else renders
/// as zero.
pub open spec fn int_doc(i: int) -> Seq<char>
    decreases i,
{
    if i < 0 {
        "0"@
    } else if i < 10 {
        seq![digit_char(i)]
    } else {
        int_doc(i / 10) + seq![digit_char(i % 10)]
    }
}

/// The character of one decimal digit.
pub open spec fn digit_char(d: int) -> char {
    if d == 0 {
        '0'
    } else if d == 1 {
        '1'
    } else if d == 2 {
        '2'
    } else if d == 3 {
        '3'
    } else if d == 4 {
        '4'
    } else if d == 5 {
        '5'
    } else if d == 6 {
        '6'
    } else if d == 7 {
        '7'
    } else if d == 8 {
        '8'
    } else {
        '9'
    }
}

/// The names of the sub-selections of a field, joined for the rendering.
pub open spec fn names_doc(s: Seq<FieldV>) -> Seq<char>
    decreases s.len(),
{
    if s.len() == 0 {
        Seq::<char>::empty()
    } else if s.len() == 1 {
        s[0].name
    } else {
        s[0].name + "\n    "@ + names_doc(s.drop_first())
    }
}

/// The rendering of one selected field inside a fetch block.
pub open spec fn field_doc(f: FieldV) -> Seq<char> {
    "  "@ + (match f.alias {
        Option::Some(a) => a,
        Option::None => f.name,
    }) + ": "@ + f.name + " {\n    "@ + names_doc(f.selections) + "\n  }\n"@
}

/// The rendering of a fetch's selected fields.
pub open spec fn fields_doc(s: Seq<FieldV>) -> Seq<char>
    decreases s.len(),
{
    if s.len() == 0 {
        Seq::<char>::empty()
    } else {
        field_doc(s[0]) + fields_doc(s.drop_first())
    }
}

/// The rendering of the children of a parallel or sequence block.
pub open spec fn plans_doc(s: Seq<PlanV>) -> Seq<char>
    decreases s,
{
    if s.len() == 0 {
        Seq::<char>::empty()
    } else {
        "  "@ + plan_doc(s[0]) + "\n"@ + plans_doc(s.drop_first())
    }
}

/// The human-readable rendering of a plan.
pub open spec fn plan_doc(p: PlanV) -> Seq<char>
    decreases p,
{
    match p {
        PlanV::Parallel(items) => "Parallel {\n"@ + plans_doc(items) + "}"@,
        PlanV::Sequence(items) => "Sequence {\n"@ + plans_doc(items) + "}"@,
        PlanV::Fetch(fetch) => "Fetch(service: \""@ + (match fetch.service {
            Option::Some(g) => g,
            Option::None => "None"@,
        }) + "\") {\n"@ + fields_doc(fetch.selection_set) + "}"@,
        PlanV::Flatten { select, plan } => "Flatten("@ + lens_doc(select) + ") {\n  "@
            + plan_doc(*plan) + "\n}"@,
    }
}

/// Renders a number for the plan rendering.
#[verifier::loop_isolation(false)]
fn usize_doc(n: usize) -> (r: String)
    ensures
        r@ == int_doc(n as int),
    decreases n,
{
    let d = n % 10;
    let c: &str = if d == 0 {
        "0"
    } else if d == 1 {
        "1"
    } else if d == 2 {
        "2"
    } else if d == 3 {
        "3"
    } else if d == 4 {
        "4"
    } else if d == 5 {
        "5"
    } else if d == 6 {
        "6"
    } else if d == 7 {
        "7"
    } else if d == 8 {
        "8"
    } else {
        "9"
    };
    proof {
        reveal_strlit("0");
        reveal_strlit("1");
        reveal_strlit("2");
        reveal_strlit("3");
        reveal_strlit("4");
        reveal_strlit("5");
        reveal_strlit("6");
        reveal_strlit("7");
        reveal_strlit("8");
        reveal_strlit("9");
        assert(c@ =~= seq![digit_char(d as int)]);
    }
    if n < 10 {
        String::from_str(c)
    } else {
        let prefix = usize_doc(n / 10);
        let r = prefix.concat(c);
        proof {
            assert(r@ =~= int_doc(n as int));
        }
        r
    }
}

impl Lens {
    /// Renders this lens as a constructor-shaped term.
    pub fn to_doc(&self) -> (r: String)
        ensures
            r@ == lens_doc(self@),
        decreases self,
    {
        match self {
            Lens::Field(key) => {
                let r = String::from_str("Field(\"").concat(key.as_str()).concat("\")");
                proof {
                    assert(r@ =~= lens_doc(self@));
                }
                r
            },
            Lens::Index(i) => {
                let r = String::from_str("Index(").concat(usize_doc(*i).as_str()).concat(")");
                proof {
                    assert(r@ =~= lens_doc(self@));
                }
                r
            },
            Lens::Combine(a, b) => {
                let r = String::from_str("Combine(").concat(a.to_doc().as_str()).concat(
                    ", ",
                ).concat(b.to_doc().as_str()).concat(")");
                proof {
                    assert(r@ =~= lens_doc(self@));
                }
                r
            },
            Lens::ForEach(inner) => {
                let r = String::from_str("ForEach(").concat(inner.to_doc().as_str()).concat(")");
                proof {
                    assert(r@ =~= lens_doc(self@));
                }
                r
            },
            Lens::Empty => String::from_str("Empty"),
        }
    }
}

impl QueryPlan {
    /// Renders the plan as indented blocks for diagnostics.
    #[verifier::loop_isolation(false)]
    pub fn to_doc(&self) -> (r: String)
        ensures
            r@ == plan_doc(self@),
        decreases self,
    {
        match self {
            QueryPlan::Parallel(items) => {
                let mut doc = String::from_str("Parallel {\n");
                render_children(&mut doc, items);
                let r = doc.concat("}");
                proof {
                    assert(r@ =~= plan_doc(self@));
                }
                r
            },
            QueryPlan::Sequence(items) => {
                let mut doc = String::from_str("Sequence {\n");
                render_children(&mut doc, items);
                let r = doc.concat("}");
                proof {
                    assert(r@ =~= plan_doc(self@));
                }
                r
            },
            QueryPlan::Fetch(fetch) => {
                let mut doc = String::from_str("Fetch(service: \"");
                match &fetch.service {
                    Some(g) => doc.append(g.as_str()),
                    None => doc.append("None"),
                }
                doc.append("\") {\n");
                let ghost fsv = fetch@.selection_set;
                let ghost base = doc@;
                proof {
                    lemma_fields_view(fetch.selection_set.0@);
                    assert(fsv.take(0) =~= Seq::<FieldV>::empty());
                    assert(fields_doc(fsv.take(0)) =~= Seq::<char>::empty());
                    assert(doc@ =~= base + fields_doc(fsv.take(0)));
                }
                let n = fetch.selection_set.0.len();
                let mut i: usize = 0;
                while i < n
                    invariant
                        i <= n,
                        n == fetch.selection_set.0@.len(),
                        fsv.len() == n,
                        doc@ == base + fields_doc(fsv.take(i as int)),
                    decreases n - i,
                {
                    proof {
                        lemma_fields_view(fetch.selection_set.0@);
                        assert(fsv[i as int] == fetch.selection_set.0@[i as int]@);
                        lemma_fields_doc_take(fsv, i as int);
                    }
                    let field = &fetch.selection_set.0[i];
                    doc.append("  ");
                    match &field.alias {
                        Some(a) => doc.append(a.as_str()),
                        None => doc.append(field.name.as_str()),
                    }
                    doc.append(": ");
                    doc.append(field.name.as_str());
                    doc.append(" {\n    ");
                    render_names(&mut doc, &field.selections.0);
                    doc.append("\n  }\n");
                    proof {
                        assert(doc@ =~= base + fields_doc(fsv.take(i + 1)));
                    }
                    i = i + 1;
                }
                proof {
                    assert(fsv.take(n as int) =~= fsv);
                }
                let r = doc.concat("}");
                proof {
                    assert(r@ =~= plan_doc(self@));
                }
                r
            },
            QueryPlan::Flatten { select, plan } => {
                let mut doc = String::from_str("Flatten(");
                doc.append(select.to_doc().as_str());
                doc.append(") {\n  ");
                doc.append(plan.to_doc().as_str());
                let r = doc.concat("\n}");
                proof {
                    assert(r@ =~= plan_doc(self@));
                }
                r
            },
        }
    }
}

proof fn lemma_fields_doc_take(s: Seq<FieldV>, i: int)
    requires
        0 <= i < s.len(),
    ensures
        fields_doc(s.take(i + 1)) == fields_doc(s.take(i)) + field_doc(s[i]),
    decreases i,
{
    if i == 0 {
        assert(s.take(1)[0] == s[0]);
        assert(s.take(1).drop_first() =~= s.take(0));
        assert(fields_doc(s.take(0)) =~= Seq::<char>::empty());
        assert(fields_doc(s.take(1)) =~= fields_doc(s.take(0)) + field_doc(s[0]));
    } else {
        lemma_fields_doc_take(s.drop_first(), i - 1);
        assert(s.take(i + 1)[0] == s[0]);
        assert(s.take(i + 1).drop_first() =~= s.drop_first().take(i));
        assert(s.take(i)[0] == s[0]);
        assert(s.take(i).drop_first() =~= s.drop_first().take(i - 1));
        assert(s.drop_first()[i - 1] == s[i]);
        assert(fields_doc(s.take(i + 1)) =~= fields_doc(s.take(i)) + field_doc(s[i]));
    }
}

proof fn lemma_plans_doc_take(s: Seq<PlanV>, i: int)
    requires
        0 <= i < s.len(),
    ensures
        plans_doc(s.take(i + 1)) == plans_doc(s.take(i)) + ("  "@ + plan_doc(s[i]) + "\n"@),
    decreases i,
{
    if i == 0 {
        assert(s.take(1)[0] == s[0]);
        assert(s.take(1).drop_first() =~= s.take(0));
        assert(plans_doc(s.take(0)) =~= Seq::<char>::empty());
        assert(plans_doc(s.take(1)) =~= plans_doc(s.take(0)) + ("  "@ + plan_doc(s[0])
            + "\n"@));
    } else {
        lemma_plans_doc_take(s.drop_first(), i - 1);
        assert(s.take(i + 1)[0] == s[0]);
        assert(s.take(i + 1).drop_first() =~= s.drop_first().take(i));
        assert(s.take(i)[0] == s[0]);
        assert(s.take(i).drop_first() =~= s.drop_first().take(i - 1));
        assert(s.drop_first()[i - 1] == s[i]);
        assert(plans_doc(s.take(i + 1)) =~= plans_doc(s.take(i)) + ("  "@ + plan_doc(s[i])
            + "\n"@));
    }
}

/// Appends the rendering of each child plan.
#[verifier::loop_isolation(false)]
fn render_children(doc: &mut String, items: &Vec<QueryPlan>)
    ensures
        final(doc)@ == old(doc)@ + plans_doc(plans_view(items@)),
    decreases items@,
{
    let ghost psv = plans_view(items@);
    let ghost base = doc@;
    proof {
        lemma_plans_view(items@);
        assert(psv.take(0) =~= Seq::<PlanV>::empty());
        assert(plans_doc(psv.take(0)) =~= Seq::<char>::empty());
        assert(doc@ =~= base + plans_doc(psv.take(0)));
    }
    let n = items.len();
    let mut i: usize = 0;
    while i < n
        invariant
            i <= n,
            n == items@.len(),
            psv.len() == n,
            doc@ == base + plans_doc(psv.take(i as int)),
        decreases n - i,
    {
        proof {
            lemma_plans_view(items@);
            assert(psv[i as int] == items@[i as int]@);
            lemma_plans_doc_take(psv, i as int);
        }
        doc.append("  ");
        doc.append(items[i].to_doc().as_str());
        doc.append("\n");
        proof {
            assert(doc@ =~= base + plans_doc(psv.take(i + 1)));
        }
        i = i + 1;
    }
    proof {
        assert(psv.take(n as int) =~= psv);
    }
}

/// Appends the names of the sub-selections, joined for the rendering.
#[verifier::loop_isolation(false)]
fn render_names(doc: &mut String, fields: &Vec<Field>)
    ensures
        final(doc)@ == old(doc)@ + names_doc(fields_view(fields@)),
{
    let ghost fsv = fields_view(fields@);
    let ghost base = doc@;
    proof {
        lemma_fields_view(fields@);
        assert(names_doc(fsv.take(0)) =~= Seq::<char>::empty());
        assert(doc@ =~= base + names_doc(fsv.take(0)));
    }
    let n = fields.len();
    let mut i: usize = 0;
    while i < n
        invariant
            i <= n,
            n == fields@.len(),
            fsv.len() == n,
            doc@ == base + names_doc(fsv.take(i as int)),
        decreases n - i,
    {
        proof {
            lemma_fields_view(fields@);
            assert(fsv[i as int] == fields@[i as int]@);
            lemma_names_doc_take(fsv, i as int);
        }
        if i > 0 {
            doc.append("\n    ");
        }
        doc.append(fields[i].name.as_str());
        proof {
            assert(doc@ =~= base + names_doc(fsv.take(i + 1)));
        }
        i = i + 1;
    }
    proof {
        assert(fsv.take(n as int) =~= fsv);
    }
}

proof fn lemma_names_doc_take(s: Seq<FieldV>, i: int)
    requires
        0 <= i < s.len(),
    ensures
        names_doc(s.take(i + 1)) == (if i == 0 {
            s[0].name
        } else {
            names_doc(s.take(i)) + "\n    "@ + s[i].name
        }),
    decreases i,
{
    if i == 0 {
        assert(s.take(1)[0] == s[0]);
        assert(s.take(1).len() == 1);
    } else {
        lemma_names_doc_take(s.drop_first(), i - 1);
        assert(s.take(i + 1)[0] == s[0]);
        assert(s.take(i + 1).drop_first() =~= s.drop_first().take(i));
        assert(s.take(i)[0] == s[0]);
        assert(s.take(i).drop_first() =~= s.drop_first().take(i - 1));
        assert(s.drop_first()[i - 1] == s[i]);
        if i == 1 {
            assert(s.drop_first().take(1).len() == 1);
            assert(names_doc(s.take(2)) =~= names_doc(s.take(1)) + "\n    "@ + s[1].name);
        } else {
            assert(names_doc(s.take(i + 1)) =~= names_doc(s.take(i)) + "\n    "@ + s[i].name);
        }
    }
}

} // verus!
