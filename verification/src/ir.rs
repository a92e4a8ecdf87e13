//! The Plan IR: the graph of nodes and edges that a goal lowers to, with its
//! models and its JSON form (the shape that `serde` gives the IR's fields:
//! `type` and `$ref` renames, enum names in snake case, absent optional fields
//! and empty constraint lists left out).
use vstd::prelude::*;
use crate::json::{
    JsonValue, SJson, push_member, strings_to_json, str_array, view_elems, view_members,
};

pub mod canonical;
pub mod order;

verus! {

// ---------------------------------------------------------------------------
// Types
// ---------------------------------------------------------------------------

/// The complete Plan IR for one compilation unit.  The maps are held as
/// lists of (key, value) pairs in strictly increasing key order.
#[derive(Debug)]
pub struct PlanIr {
    pub conclave_ir_version: String,
    pub module: Module,
    /// Import alias to the imported Plan IR hash.
    pub imports: Vec<(String, String)>,
    pub types: Vec<(String, TypeDef)>,
    pub goals: Vec<Goal>,
    pub nodes: Vec<Node>,
    pub edges: Vec<Edge>,
    pub constraints: Vec<(String, Constraint)>,
    pub subgraphs: Vec<Subgraph>,
    pub exports: Exports,
}

#[derive(Debug, Clone)]
pub struct Module {
    pub name: String,
    pub source_fingerprint: String,
}

#[derive(Debug, Clone)]
pub struct Exports {
    pub entry_goal: String,
}

/// A node in the Plan IR graph.
#[derive(Debug)]
pub struct Node {
    pub node_id: String,
    pub kind: NodeKind,
    pub op: Op,
    pub inputs: Vec<InputPort>,
    pub outputs: Vec<OutputPort>,
    pub attrs: NodeAttrs,
    pub constraints: Vec<ConstraintRef>,
    /// Present for parsing; excluded from hashing.
    pub meta: Option<JsonValue>,
    /// The plan_ir_hash of the imported module this node came from.
    pub import_subgraph_id: Option<String>,
}

#[derive(Debug, Clone, Copy, PartialEq, Eq, Structural)]
pub enum NodeKind {
    CapabilityCall,
    Intrinsic,
    Control,
    Aggregate,
}

#[derive(Debug, Clone)]
pub struct Op {
    pub name: String,
    pub signature: String,
}

#[derive(Debug, Clone)]
pub struct InputPort {
    pub port: String,
    pub ty_name: String,
    pub source: Option<EdgeRef>,
}

#[derive(Debug, Clone)]
pub struct OutputPort {
    pub port: String,
    pub ty_name: String,
}

#[derive(Debug, Clone)]
pub struct EdgeRef {
    pub edge_id: String,
}

#[derive(Debug, Clone)]
pub struct NodeAttrs {
    pub determinism_profile: DeterminismProfile,
    pub cost_hints: Option<CostHints>,
    /// Position in the expanded list for nodes inside map constructs.
    pub url_index: Option<u32>,
}

#[derive(Debug, Clone, Copy, PartialEq, Eq, Structural)]
pub enum DeterminismProfile {
    Replayable,
    Fixed,
    Nondet,
}

#[derive(Debug, Clone)]
pub struct CostHints {
    pub latency: String,
    pub cpu: String,
}

#[derive(Debug, Clone)]
pub struct ConstraintRef {
    pub ref_path: String,
}

/// A value-dependency edge between two node ports.
#[derive(Debug, Clone)]
pub struct Edge {
    pub edge_id: String,
    pub from: EdgeEndpoint,
    pub to: EdgeEndpoint,
}

#[derive(Debug, Clone)]
pub struct EdgeEndpoint {
    pub node_id: String,
    pub port: String,
}

/// A top-level goal (entry point) in the Plan IR.
#[derive(Debug, Clone)]
pub struct Goal {
    pub goal_id: String,
    pub name: String,
    pub params: Vec<GoalParam>,
    pub returns: Vec<GoalParam>,
    pub constraints: Vec<ConstraintRef>,
    pub accept: Vec<ConstraintRef>,
    pub entry_nodes: Vec<String>,
    pub exit_nodes: Vec<String>,
}

#[derive(Debug, Clone)]
pub struct GoalParam {
    pub name: String,
    pub ty_name: String,
}

/// A declarative constraint attached to a scope.
#[derive(Debug)]
pub struct Constraint {
    pub constraint_id: String,
    pub scope: ConstraintScope,
    pub expr: ConstraintExpr,
}

#[derive(Debug, Clone, Copy, PartialEq, Eq, Structural)]
pub enum ConstraintScope {
    Goal,
    Node,
    Subgraph,
}

#[derive(Debug)]
pub struct ConstraintExpr {
    pub lang: String,
    /// AST-structured constraint expression.
    pub ast: JsonValue,
}

/// A named subgraph (a map, reduce, branch or import construct).
#[derive(Debug, Clone)]
pub struct Subgraph {
    pub subgraph_id: String,
    pub kind: String,
    pub nodes: Vec<String>,
    pub constraints: Vec<ConstraintRef>,
    /// For conditional subgraphs: the `conditional_branch` node that gates them.
    pub gate_node_id: Option<String>,
}

/// A named type definition.
#[derive(Debug, Clone)]
pub struct TypeDef {
    pub kind: String,
    pub of: Option<String>,
    pub fields: Option<Vec<(String, String)>>,
    pub variants: Option<Vec<String>>,
    pub predicates: Option<Vec<Predicate>>,
}

#[derive(Debug, Clone)]
pub struct Predicate {
    pub lang: String,
    pub expr: String,
}

/// Structural faults of a Plan IR.
#[derive(Debug)]
pub enum IrError {
    UnsupportedVersion(String),
    DuplicateNodeId(String),
    DuplicateEdgeId(String),
    EdgeReferencesUnknownNode { edge_id: String, node_id: String },
    UnresolvedConstraintRef { ref_path: String },
}

// ---------------------------------------------------------------------------
// Models
// ---------------------------------------------------------------------------

pub struct EndpointV {
    pub node_id: Seq<char>,
    pub port: Seq<char>,
}

pub struct EdgeV {
    pub edge_id: Seq<char>,
    pub from: EndpointV,
    pub to: EndpointV,
}

pub struct InputPortV {
    pub port: Seq<char>,
    pub ty_name: Seq<char>,
    /// The id of the edge that feeds the port.
    pub source: Option<Seq<char>>,
}

pub struct OutputPortV {
    pub port: Seq<char>,
    pub ty_name: Seq<char>,
}

pub struct NodeAttrsV {
    pub determinism_profile: DeterminismProfile,
    /// (latency, cpu)
    pub cost_hints: Option<(Seq<char>, Seq<char>)>,
    pub url_index: Option<u32>,
}

pub struct NodeV {
    pub node_id: Seq<char>,
    pub kind: NodeKind,
    pub op_name: Seq<char>,
    pub op_signature: Seq<char>,
    pub inputs: Seq<InputPortV>,
    pub outputs: Seq<OutputPortV>,
    pub attrs: NodeAttrsV,
    /// Constraint reference paths.
    pub constraints: Seq<Seq<char>>,
    pub meta: Option<SJson>,
    pub import_subgraph_id: Option<Seq<char>>,
}

pub struct GoalParamV {
    pub name: Seq<char>,
    pub ty_name: Seq<char>,
}

pub struct GoalV {
    pub goal_id: Seq<char>,
    pub name: Seq<char>,
    pub params: Seq<GoalParamV>,
    pub returns: Seq<GoalParamV>,
    pub constraints: Seq<Seq<char>>,
    pub accept: Seq<Seq<char>>,
    pub entry_nodes: Seq<Seq<char>>,
    pub exit_nodes: Seq<Seq<char>>,
}

pub struct ConstraintV {
    pub constraint_id: Seq<char>,
    pub scope: ConstraintScope,
    pub lang: Seq<char>,
    pub ast: SJson,
}

pub struct SubgraphV {
    pub subgraph_id: Seq<char>,
    pub kind: Seq<char>,
    pub nodes: Seq<Seq<char>>,
    pub constraints: Seq<Seq<char>>,
    pub gate_node_id: Option<Seq<char>>,
}

pub struct TypeDefV {
    pub kind: Seq<char>,
    pub of: Option<Seq<char>>,
    pub fields: Option<Seq<(Seq<char>, Seq<char>)>>,
    pub variants: Option<Seq<Seq<char>>>,
    /// (lang, expr) pairs.
    pub predicates: Option<Seq<(Seq<char>, Seq<char>)>>,
}

pub struct PlanIrV {
    pub version: Seq<char>,
    pub module_name: Seq<char>,
    pub source_fingerprint: Seq<char>,
    pub imports: Seq<(Seq<char>, Seq<char>)>,
    pub types: Seq<(Seq<char>, TypeDefV)>,
    pub goals: Seq<GoalV>,
    pub nodes: Seq<NodeV>,
    pub edges: Seq<EdgeV>,
    pub constraints: Seq<(Seq<char>, ConstraintV)>,
    pub subgraphs: Seq<SubgraphV>,
    pub entry_goal: Seq<char>,
}

pub open spec fn refs_view(s: Seq<ConstraintRef>) -> Seq<Seq<char>> {
    s.map_values(|r: ConstraintRef| r.ref_path@)
}

pub open spec fn strs_view(s: Seq<String>) -> Seq<Seq<char>> {
    s.map_values(|x: String| x@)
}

pub open spec fn pairs_view(s: Seq<(String, String)>) -> Seq<(Seq<char>, Seq<char>)> {
    s.map_values(|p: (String, String)| (p.0@, p.1@))
}

impl View for EdgeEndpoint {
    type V = EndpointV;

    open spec fn view(&self) -> EndpointV {
        EndpointV { node_id: self.node_id@, port: self.port@ }
    }
}

impl View for Edge {
    type V = EdgeV;

    open spec fn view(&self) -> EdgeV {
        EdgeV { edge_id: self.edge_id@, from: self.from@, to: self.to@ }
    }
}

impl View for InputPort {
    type V = InputPortV;

    open spec fn view(&self) -> InputPortV {
        InputPortV {
            port: self.port@,
            ty_name: self.ty_name@,
            source: match self.source {
                Some(r) => Some(r.edge_id@),
                None => None,
            },
        }
    }
}

impl View for OutputPort {
    type V = OutputPortV;

    open spec fn view(&self) -> OutputPortV {
        OutputPortV { port: self.port@, ty_name: self.ty_name@ }
    }
}

impl View for NodeAttrs {
    type V = NodeAttrsV;

    open spec fn view(&self) -> NodeAttrsV {
        NodeAttrsV {
            determinism_profile: self.determinism_profile,
            cost_hints: match self.cost_hints {
                Some(c) => Some((c.latency@, c.cpu@)),
                None => None,
            },
            url_index: self.url_index,
        }
    }
}

impl View for Node {
    type V = NodeV;

    open spec fn view(&self) -> NodeV {
        NodeV {
            node_id: self.node_id@,
            kind: self.kind,
            op_name: self.op.name@,
            op_signature: self.op.signature@,
            inputs: self.inputs@.map_values(|p: InputPort| p@),
            outputs: self.outputs@.map_values(|p: OutputPort| p@),
            attrs: self.attrs@,
            constraints: refs_view(self.constraints@),
            meta: match self.meta {
                Some(m) => Some(m@),
                None => None,
            },
            import_subgraph_id: match self.import_subgraph_id {
                Some(s) => Some(s@),
                None => None,
            },
        }
    }
}

impl View for GoalParam {
    type V = GoalParamV;

    open spec fn view(&self) -> GoalParamV {
        GoalParamV { name: self.name@, ty_name: self.ty_name@ }
    }
}

impl View for Goal {
    type V = GoalV;

    open spec fn view(&self) -> GoalV {
        GoalV {
            goal_id: self.goal_id@,
            name: self.name@,
            params: self.params@.map_values(|p: GoalParam| p@),
            returns: self.returns@.map_values(|p: GoalParam| p@),
            constraints: refs_view(self.constraints@),
            accept: refs_view(self.accept@),
            entry_nodes: strs_view(self.entry_nodes@),
            exit_nodes: strs_view(self.exit_nodes@),
        }
    }
}

impl View for Constraint {
    type V = ConstraintV;

    open spec fn view(&self) -> ConstraintV {
        ConstraintV {
            constraint_id: self.constraint_id@,
            scope: self.scope,
            lang: self.expr.lang@,
            ast: self.expr.ast@,
        }
    }
}

impl View for Subgraph {
    type V = SubgraphV;

    open spec fn view(&self) -> SubgraphV {
        SubgraphV {
            subgraph_id: self.subgraph_id@,
            kind: self.kind@,
            nodes: strs_view(self.nodes@),
            constraints: refs_view(self.constraints@),
            gate_node_id: match self.gate_node_id {
                Some(g) => Some(g@),
                None => None,
            },
        }
    }
}

impl View for TypeDef {
    type V = TypeDefV;

    open spec fn view(&self) -> TypeDefV {
        TypeDefV {
            kind: self.kind@,
            of: match self.of {
                Some(o) => Some(o@),
                None => None,
            },
            fields: match self.fields {
                Some(f) => Some(pairs_view(f@)),
                None => None,
            },
            variants: match self.variants {
                Some(v) => Some(strs_view(v@)),
                None => None,
            },
            predicates: match self.predicates {
                Some(p) => Some(p@.map_values(|q: Predicate| (q.lang@, q.expr@))),
                None => None,
            },
        }
    }
}

impl View for PlanIr {
    type V = PlanIrV;

    open spec fn view(&self) -> PlanIrV {
        PlanIrV {
            version: self.conclave_ir_version@,
            module_name: self.module.name@,
            source_fingerprint: self.module.source_fingerprint@,
            imports: pairs_view(self.imports@),
            types: self.types@.map_values(|p: (String, TypeDef)| (p.0@, p.1@)),
            goals: self.goals@.map_values(|g: Goal| g@),
            nodes: self.nodes@.map_values(|n: Node| n@),
            edges: self.edges@.map_values(|e: Edge| e@),
            constraints: self.constraints@.map_values(|p: (String, Constraint)| (p.0@, p.1@)),
            subgraphs: self.subgraphs@.map_values(|s: Subgraph| s@),
            entry_goal: self.exports.entry_goal@,
        }
    }
}

// ---------------------------------------------------------------------------
// JSON form
// ---------------------------------------------------------------------------

pub open spec fn jstr(s: Seq<char>) -> SJson {
    SJson::Str(s)
}

/// A member that is present only when the value is.
pub open spec fn opt_member(k: Seq<char>, v: Option<SJson>) -> Seq<(Seq<char>, SJson)> {
    match v {
        Some(x) => seq![(k, x)],
        None => Seq::empty(),
    }
}

pub open spec fn node_kind_name(k: NodeKind) -> Seq<char> {
    match k {
        NodeKind::CapabilityCall => "capability_call"@,
        NodeKind::Intrinsic => "intrinsic"@,
        NodeKind::Control => "control"@,
        NodeKind::Aggregate => "aggregate"@,
    }
}

pub open spec fn profile_name(p: DeterminismProfile) -> Seq<char> {
    match p {
        DeterminismProfile::Replayable => "replayable"@,
        DeterminismProfile::Fixed => "fixed"@,
        DeterminismProfile::Nondet => "nondet"@,
    }
}

pub open spec fn scope_name(s: ConstraintScope) -> Seq<char> {
    match s {
        ConstraintScope::Goal => "goal"@,
        ConstraintScope::Node => "node"@,
        ConstraintScope::Subgraph => "subgraph"@,
    }
}

pub open spec fn endpoint_json(e: EndpointV) -> SJson {
    SJson::Object(seq![("node_id"@, jstr(e.node_id)), ("port"@, jstr(e.port))])
}

pub open spec fn edge_json(e: EdgeV) -> SJson {
    SJson::Object(seq![("edge_id"@, jstr(e.edge_id)), ("from"@, endpoint_json(e.from)), ("to"@, endpoint_json(e.to))])
}

pub open spec fn ref_json(r: Seq<char>) -> SJson {
    SJson::Object(seq![("$ref"@, jstr(r))])
}

pub open spec fn refs_json(rs: Seq<Seq<char>>) -> SJson {
    SJson::Array(rs.map_values(|r: Seq<char>| ref_json(r)))
}

/// A list of constraint references that is left out when empty.
pub open spec fn refs_member(k: Seq<char>, rs: Seq<Seq<char>>) -> Seq<(Seq<char>, SJson)> {
    if rs.len() == 0 { Seq::empty() } else { seq![(k, refs_json(rs))] }
}

pub open spec fn input_json(p: InputPortV) -> SJson {
    SJson::Object(
        seq![("port"@, jstr(p.port)), ("type"@, jstr(p.ty_name))] + opt_member(
            "source"@,
            match p.source {
                Some(e) => Some(SJson::Object(seq![("edge_id"@, jstr(e))])),
                None => None,
            },
        ),
    )
}

pub open spec fn output_json(p: OutputPortV) -> SJson {
    SJson::Object(seq![("port"@, jstr(p.port)), ("type"@, jstr(p.ty_name))])
}

pub open spec fn attrs_json(a: NodeAttrsV) -> SJson {
    SJson::Object(
        seq![("determinism_profile"@, jstr(profile_name(a.determinism_profile)))] + opt_member(
            "cost_hints"@,
            match a.cost_hints {
                Some(c) => Some(SJson::Object(seq![("latency"@, jstr(c.0)), ("cpu"@, jstr(c.1))])),
                None => None,
            },
        ) + opt_member(
            "url_index"@,
            match a.url_index {
                Some(u) => Some(SJson::Int(u as int)),
                None => None,
            },
        ),
    )
}

pub open spec fn node_json(n: NodeV) -> SJson {
    SJson::Object(
        seq![
            ("node_id"@, jstr(n.node_id)),
            ("kind"@, jstr(node_kind_name(n.kind))),
            ("op"@, SJson::Object(seq![("name"@, jstr(n.op_name)), ("signature"@, jstr(n.op_signature))])),
            ("inputs"@, SJson::Array(n.inputs.map_values(|p: InputPortV| input_json(p)))),
            ("outputs"@, SJson::Array(n.outputs.map_values(|p: OutputPortV| output_json(p)))),
            ("attrs"@, attrs_json(n.attrs)),
        ] + refs_member("constraints"@, n.constraints) + opt_member("meta"@, n.meta) + opt_member(
            "import_subgraph_id"@,
            match n.import_subgraph_id {
                Some(s) => Some(jstr(s)),
                None => None,
            },
        ),
    )
}

pub open spec fn param_json(p: GoalParamV) -> SJson {
    SJson::Object(seq![("name"@, jstr(p.name)), ("type"@, jstr(p.ty_name))])
}

pub open spec fn params_json(ps: Seq<GoalParamV>) -> SJson {
    SJson::Array(ps.map_values(|p: GoalParamV| param_json(p)))
}

pub open spec fn goal_json(g: GoalV) -> SJson {
    SJson::Object(
        seq![
            ("goal_id"@, jstr(g.goal_id)),
            ("name"@, jstr(g.name)),
            ("params"@, params_json(g.params)),
            ("returns"@, params_json(g.returns)),
        ] + refs_member("constraints"@, g.constraints) + refs_member("accept"@, g.accept) + seq![
            ("entry_nodes"@, str_array(g.entry_nodes)),
            ("exit_nodes"@, str_array(g.exit_nodes)),
        ],
    )
}

pub open spec fn constraint_expr_json(c: ConstraintV) -> SJson {
    SJson::Object(seq![("lang"@, jstr(c.lang)), ("ast"@, c.ast)])
}

pub open spec fn constraint_json(c: ConstraintV) -> SJson {
    SJson::Object(
        seq![
            ("constraint_id"@, jstr(c.constraint_id)),
            ("scope"@, jstr(scope_name(c.scope))),
            ("expr"@, constraint_expr_json(c)),
        ],
    )
}

pub open spec fn subgraph_json(s: SubgraphV) -> SJson {
    SJson::Object(
        seq![("subgraph_id"@, jstr(s.subgraph_id)), ("kind"@, jstr(s.kind)), ("nodes"@, str_array(s.nodes))]
            + refs_member("constraints"@, s.constraints) + opt_member(
            "gate_node_id"@,
            match s.gate_node_id {
                Some(g) => Some(jstr(g)),
                None => None,
            },
        ),
    )
}

pub open spec fn string_map_json(m: Seq<(Seq<char>, Seq<char>)>) -> SJson {
    SJson::Object(m.map_values(|p: (Seq<char>, Seq<char>)| (p.0, jstr(p.1))))
}

pub open spec fn typedef_json(t: TypeDefV) -> SJson {
    SJson::Object(
        seq![("kind"@, jstr(t.kind))] + opt_member(
            "of"@,
            match t.of {
                Some(o) => Some(jstr(o)),
                None => None,
            },
        ) + opt_member(
            "fields"@,
            match t.fields {
                Some(f) => Some(string_map_json(f)),
                None => None,
            },
        ) + opt_member(
            "variants"@,
            match t.variants {
                Some(v) => Some(str_array(v)),
                None => None,
            },
        ) + opt_member(
            "predicates"@,
            match t.predicates {
                Some(ps) => Some(
                    SJson::Array(
                        ps.map_values(
                            |q: (Seq<char>, Seq<char>)| SJson::Object(seq![("lang"@, jstr(q.0)), ("expr"@, jstr(q.1))]),
                        ),
                    ),
                ),
                None => None,
            },
        ),
    )
}

/// The JSON form of a Plan IR; `imports` is left out when there are none.
pub open spec fn plan_json(ir: PlanIrV) -> SJson {
    SJson::Object(
        seq![
            ("conclave_ir_version"@, jstr(ir.version)),
            ("module"@, SJson::Object(seq![("name"@, jstr(ir.module_name)), ("source_fingerprint"@, jstr(ir.source_fingerprint))])),
        ] + (if ir.imports.len() == 0 { Seq::empty() } else { seq![("imports"@, string_map_json(ir.imports))] }) + seq![
            ("types"@, SJson::Object(ir.types.map_values(|p: (Seq<char>, TypeDefV)| (p.0, typedef_json(p.1))))),
            ("goals"@, SJson::Array(ir.goals.map_values(|g: GoalV| goal_json(g)))),
            ("nodes"@, SJson::Array(ir.nodes.map_values(|n: NodeV| node_json(n)))),
            ("edges"@, SJson::Array(ir.edges.map_values(|e: EdgeV| edge_json(e)))),
            ("constraints"@, SJson::Object(ir.constraints.map_values(|p: (Seq<char>, ConstraintV)| (p.0, constraint_json(p.1))))),
            ("subgraphs"@, SJson::Array(ir.subgraphs.map_values(|s: SubgraphV| subgraph_json(s)))),
            ("exports"@, SJson::Object(seq![("entry_goal"@, jstr(ir.entry_goal))])),
        ],
    )
}


// ---------------------------------------------------------------------------
// Building the JSON form
// ---------------------------------------------------------------------------

fn string_json(s: &String) -> (j: JsonValue)
    ensures
        j@ == jstr(s@),
{
    JsonValue::Str(s.clone())
}

pub(crate) fn endpoint_to_json(e: &EdgeEndpoint) -> (j: JsonValue)
    ensures
        j@ == endpoint_json(e@),
{
    let mut ps: Vec<(String, JsonValue)> = Vec::new();
    push_member(&mut ps, "node_id", string_json(&e.node_id));
    push_member(&mut ps, "port", string_json(&e.port));
    assert(view_members(ps@) =~= seq![("node_id"@, jstr(e.node_id@)), ("port"@, jstr(e.port@))]);
    JsonValue::Object(ps)
}

pub fn edge_to_json(e: &Edge) -> (j: JsonValue)
    ensures
        j@ == edge_json(e@),
{
    let mut ps: Vec<(String, JsonValue)> = Vec::new();
    push_member(&mut ps, "edge_id", string_json(&e.edge_id));
    push_member(&mut ps, "from", endpoint_to_json(&e.from));
    push_member(&mut ps, "to", endpoint_to_json(&e.to));
    assert(view_members(ps@) =~= seq![
        ("edge_id"@, jstr(e.edge_id@)),
        ("from"@, endpoint_json(e.from@)),
        ("to"@, endpoint_json(e.to@)),
    ]);
    JsonValue::Object(ps)
}

fn ref_to_json(r: &ConstraintRef) -> (j: JsonValue)
    ensures
        j@ == ref_json(r.ref_path@),
{
    let mut ps: Vec<(String, JsonValue)> = Vec::new();
    push_member(&mut ps, "$ref", string_json(&r.ref_path));
    assert(view_members(ps@) =~= seq![("$ref"@, jstr(r.ref_path@))]);
    JsonValue::Object(ps)
}

pub(crate) fn refs_to_json(v: &Vec<ConstraintRef>) -> (j: JsonValue)
    ensures
        j@ == refs_json(refs_view(v@)),
{
    let mut out: Vec<JsonValue> = Vec::new();
    let mut i: usize = 0;
    while i < v.len()
        invariant
            i <= v@.len(),
            view_elems(out@) == refs_view(v@.take(i as int)).map_values(|r: Seq<char>| ref_json(r)),
        decreases v@.len() - i,
    {
        let ghost before = out@;
        let e = ref_to_json(&v[i]);
        let ghost ge = e;
        out.push(e);
        proof {
            assert(out@.drop_last() =~= before);
            assert(out@.last() == ge);
            assert(refs_view(v@.take(i + 1)).map_values(|r: Seq<char>| ref_json(r))
                =~= refs_view(v@.take(i as int)).map_values(|r: Seq<char>| ref_json(r)).push(ref_json(v@[i as int].ref_path@)));
        }
        i += 1;
    }
    assert(v@.take(v@.len() as int) =~= v@);
    JsonValue::Array(out)
}

fn input_to_json(p: &InputPort) -> (j: JsonValue)
    ensures
        j@ == input_json(p@),
{
    let mut ps: Vec<(String, JsonValue)> = Vec::new();
    push_member(&mut ps, "port", string_json(&p.port));
    push_member(&mut ps, "type", string_json(&p.ty_name));
    match &p.source {
        Some(r) => {
            let mut src: Vec<(String, JsonValue)> = Vec::new();
            push_member(&mut src, "edge_id", string_json(&r.edge_id));
            assert(view_members(src@) =~= seq![("edge_id"@, jstr(r.edge_id@))]);
            push_member(&mut ps, "source", JsonValue::Object(src));
        },
        None => {},
    }
    assert(view_members(ps@) =~= input_json(p@)->Object_0);
    JsonValue::Object(ps)
}

fn output_to_json(p: &OutputPort) -> (j: JsonValue)
    ensures
        j@ == output_json(p@),
{
    let mut ps: Vec<(String, JsonValue)> = Vec::new();
    push_member(&mut ps, "port", string_json(&p.port));
    push_member(&mut ps, "type", string_json(&p.ty_name));
    assert(view_members(ps@) =~= output_json(p@)->Object_0);
    JsonValue::Object(ps)
}

fn inputs_to_json(v: &Vec<InputPort>) -> (j: JsonValue)
    ensures
        j@ == SJson::Array(v@.map_values(|p: InputPort| p@).map_values(|p: InputPortV| input_json(p))),
{
    let mut out: Vec<JsonValue> = Vec::new();
    let mut i: usize = 0;
    while i < v.len()
        invariant
            i <= v@.len(),
            view_elems(out@) == v@.take(i as int).map_values(|p: InputPort| p@).map_values(|p: InputPortV| input_json(p)),
        decreases v@.len() - i,
    {
        let ghost before = out@;
        let e = input_to_json(&v[i]);
        let ghost ge = e;
        out.push(e);
        proof {
            assert(out@.drop_last() =~= before);
            assert(out@.last() == ge);
            assert(v@.take(i + 1).map_values(|p: InputPort| p@).map_values(|p: InputPortV| input_json(p))
                =~= v@.take(i as int).map_values(|p: InputPort| p@).map_values(|p: InputPortV| input_json(p)).push(input_json(v@[i as int]@)));
        }
        i += 1;
    }
    assert(v@.take(v@.len() as int) =~= v@);
    JsonValue::Array(out)
}

pub(crate) fn outputs_to_json(v: &Vec<OutputPort>) -> (j: JsonValue)
    ensures
        j@ == SJson::Array(v@.map_values(|p: OutputPort| p@).map_values(|p: OutputPortV| output_json(p))),
{
    let mut out: Vec<JsonValue> = Vec::new();
    let mut i: usize = 0;
    while i < v.len()
        invariant
            i <= v@.len(),
            view_elems(out@) == v@.take(i as int).map_values(|p: OutputPort| p@).map_values(|p: OutputPortV| output_json(p)),
        decreases v@.len() - i,
    {
        let ghost before = out@;
        let e = output_to_json(&v[i]);
        let ghost ge = e;
        out.push(e);
        proof {
            assert(out@.drop_last() =~= before);
            assert(out@.last() == ge);
            assert(v@.take(i + 1).map_values(|p: OutputPort| p@).map_values(|p: OutputPortV| output_json(p))
                =~= v@.take(i as int).map_values(|p: OutputPort| p@).map_values(|p: OutputPortV| output_json(p)).push(output_json(v@[i as int]@)));
        }
        i += 1;
    }
    assert(v@.take(v@.len() as int) =~= v@);
    JsonValue::Array(out)
}

pub(crate) fn kind_to_json(k: NodeKind) -> (j: JsonValue)
    ensures
        j@ == jstr(node_kind_name(k)),
{
    match k {
        NodeKind::CapabilityCall => JsonValue::Str(String::from_str("capability_call")),
        NodeKind::Intrinsic => JsonValue::Str(String::from_str("intrinsic")),
        NodeKind::Control => JsonValue::Str(String::from_str("control")),
        NodeKind::Aggregate => JsonValue::Str(String::from_str("aggregate")),
    }
}

fn profile_to_json(p: DeterminismProfile) -> (j: JsonValue)
    ensures
        j@ == jstr(profile_name(p)),
{
    match p {
        DeterminismProfile::Replayable => JsonValue::Str(String::from_str("replayable")),
        DeterminismProfile::Fixed => JsonValue::Str(String::from_str("fixed")),
        DeterminismProfile::Nondet => JsonValue::Str(String::from_str("nondet")),
    }
}

pub(crate) fn scope_to_json(s: ConstraintScope) -> (j: JsonValue)
    ensures
        j@ == jstr(scope_name(s)),
{
    match s {
        ConstraintScope::Goal => JsonValue::Str(String::from_str("goal")),
        ConstraintScope::Node => JsonValue::Str(String::from_str("node")),
        ConstraintScope::Subgraph => JsonValue::Str(String::from_str("subgraph")),
    }
}

pub(crate) fn attrs_to_json(a: &NodeAttrs) -> (j: JsonValue)
    ensures
        j@ == attrs_json(a@),
{
    let mut ps: Vec<(String, JsonValue)> = Vec::new();
    push_member(&mut ps, "determinism_profile", profile_to_json(a.determinism_profile));
    match &a.cost_hints {
        Some(c) => {
            let mut cs: Vec<(String, JsonValue)> = Vec::new();
            push_member(&mut cs, "latency", string_json(&c.latency));
            push_member(&mut cs, "cpu", string_json(&c.cpu));
            assert(view_members(cs@) =~= seq![("latency"@, jstr(c.latency@)), ("cpu"@, jstr(c.cpu@))]);
            push_member(&mut ps, "cost_hints", JsonValue::Object(cs));
        },
        None => {},
    }
    match a.url_index {
        Some(u) => {
            push_member(&mut ps, "url_index", JsonValue::Int(u as i128));
        },
        None => {},
    }
    assert(view_members(ps@) =~= attrs_json(a@)->Object_0);
    JsonValue::Object(ps)
}

pub fn node_to_json(n: &Node) -> (j: JsonValue)
    ensures
        j@ == node_json(n@),
{
    let mut ps: Vec<(String, JsonValue)> = Vec::new();
    push_member(&mut ps, "node_id", string_json(&n.node_id));
    push_member(&mut ps, "kind", kind_to_json(n.kind));
    let mut op: Vec<(String, JsonValue)> = Vec::new();
    push_member(&mut op, "name", string_json(&n.op.name));
    push_member(&mut op, "signature", string_json(&n.op.signature));
    assert(view_members(op@) =~= seq![("name"@, jstr(n.op.name@)), ("signature"@, jstr(n.op.signature@))]);
    push_member(&mut ps, "op", JsonValue::Object(op));
    push_member(&mut ps, "inputs", inputs_to_json(&n.inputs));
    push_member(&mut ps, "outputs", outputs_to_json(&n.outputs));
    push_member(&mut ps, "attrs", attrs_to_json(&n.attrs));
    if n.constraints.len() > 0 {
        push_member(&mut ps, "constraints", refs_to_json(&n.constraints));
    }
    match &n.meta {
        Some(m) => {
            push_member(&mut ps, "meta", m.clone());
        },
        None => {},
    }
    match &n.import_subgraph_id {
        Some(s) => {
            push_member(&mut ps, "import_subgraph_id", string_json(s));
        },
        None => {},
    }
    assert(view_members(ps@) =~= node_json(n@)->Object_0);
    JsonValue::Object(ps)
}

pub(crate) fn params_to_json(v: &Vec<GoalParam>) -> (j: JsonValue)
    ensures
        j@ == params_json(v@.map_values(|p: GoalParam| p@)),
{
    let mut out: Vec<JsonValue> = Vec::new();
    let mut i: usize = 0;
    while i < v.len()
        invariant
            i <= v@.len(),
            view_elems(out@) == v@.take(i as int).map_values(|p: GoalParam| p@).map_values(|p: GoalParamV| param_json(p)),
        decreases v@.len() - i,
    {
        let ghost before = out@;
        let mut ps: Vec<(String, JsonValue)> = Vec::new();
        push_member(&mut ps, "name", string_json(&v[i].name));
        push_member(&mut ps, "type", string_json(&v[i].ty_name));
        assert(view_members(ps@) =~= param_json(v@[i as int]@)->Object_0);
        let e = JsonValue::Object(ps);
        assert(e@ == param_json(v@[i as int]@));
        let ghost ge = e;
        out.push(e);
        proof {
            assert(out@.drop_last() =~= before);
            assert(out@.last() == ge);
            assert(v@.take(i + 1).map_values(|p: GoalParam| p@).map_values(|p: GoalParamV| param_json(p))
                =~= v@.take(i as int).map_values(|p: GoalParam| p@).map_values(|p: GoalParamV| param_json(p)).push(param_json(v@[i as int]@)));
        }
        i += 1;
    }
    assert(v@.take(v@.len() as int) =~= v@);
    JsonValue::Array(out)
}

pub fn goal_to_json(g: &Goal) -> (j: JsonValue)
    ensures
        j@ == goal_json(g@),
{
    let mut ps: Vec<(String, JsonValue)> = Vec::new();
    push_member(&mut ps, "goal_id", string_json(&g.goal_id));
    push_member(&mut ps, "name", string_json(&g.name));
    push_member(&mut ps, "params", params_to_json(&g.params));
    push_member(&mut ps, "returns", params_to_json(&g.returns));
    if g.constraints.len() > 0 {
        push_member(&mut ps, "constraints", refs_to_json(&g.constraints));
    }
    if g.accept.len() > 0 {
        push_member(&mut ps, "accept", refs_to_json(&g.accept));
    }
    push_member(&mut ps, "entry_nodes", strings_to_json(&g.entry_nodes));
    push_member(&mut ps, "exit_nodes", strings_to_json(&g.exit_nodes));
    assert(view_members(ps@) =~= goal_json(g@)->Object_0);
    JsonValue::Object(ps)
}

pub fn constraint_to_json(c: &Constraint) -> (j: JsonValue)
    ensures
        j@ == constraint_json(c@),
{
    let mut ex: Vec<(String, JsonValue)> = Vec::new();
    push_member(&mut ex, "lang", string_json(&c.expr.lang));
    push_member(&mut ex, "ast", c.expr.ast.clone());
    assert(view_members(ex@) =~= constraint_expr_json(c@)->Object_0);
    let mut ps: Vec<(String, JsonValue)> = Vec::new();
    push_member(&mut ps, "constraint_id", string_json(&c.constraint_id));
    push_member(&mut ps, "scope", scope_to_json(c.scope));
    push_member(&mut ps, "expr", JsonValue::Object(ex));
    assert(view_members(ps@) =~= constraint_json(c@)->Object_0);
    JsonValue::Object(ps)
}

pub fn subgraph_to_json(s: &Subgraph) -> (j: JsonValue)
    ensures
        j@ == subgraph_json(s@),
{
    let mut ps: Vec<(String, JsonValue)> = Vec::new();
    push_member(&mut ps, "subgraph_id", string_json(&s.subgraph_id));
    push_member(&mut ps, "kind", string_json(&s.kind));
    push_member(&mut ps, "nodes", strings_to_json(&s.nodes));
    if s.constraints.len() > 0 {
        push_member(&mut ps, "constraints", refs_to_json(&s.constraints));
    }
    match &s.gate_node_id {
        Some(g) => {
            push_member(&mut ps, "gate_node_id", string_json(g));
        },
        None => {},
    }
    assert(view_members(ps@) =~= subgraph_json(s@)->Object_0);
    JsonValue::Object(ps)
}

fn string_map_to_json(m: &Vec<(String, String)>) -> (j: JsonValue)
    ensures
        j@ == string_map_json(pairs_view(m@)),
{
    let mut ps: Vec<(String, JsonValue)> = Vec::new();
    let mut i: usize = 0;
    while i < m.len()
        invariant
            i <= m@.len(),
            view_members(ps@) == pairs_view(m@.take(i as int)).map_values(|p: (Seq<char>, Seq<char>)| (p.0, jstr(p.1))),
        decreases m@.len() - i,
    {
        let ghost before = view_members(ps@);
        push_member(&mut ps, m[i].0.as_str(), string_json(&m[i].1));
        proof {
            assert(pairs_view(m@.take(i + 1)).map_values(|p: (Seq<char>, Seq<char>)| (p.0, jstr(p.1)))
                =~= before.push((m@[i as int].0@, jstr(m@[i as int].1@))));
        }
        i += 1;
    }
    assert(m@.take(m@.len() as int) =~= m@);
    JsonValue::Object(ps)
}

fn predicates_to_json(v: &Vec<Predicate>) -> (j: JsonValue)
    ensures
        j@ == SJson::Array(v@.map_values(|q: Predicate| (q.lang@, q.expr@)).map_values(
            |q: (Seq<char>, Seq<char>)| SJson::Object(seq![("lang"@, jstr(q.0)), ("expr"@, jstr(q.1))]),
        )),
{
    let mut out: Vec<JsonValue> = Vec::new();
    let mut i: usize = 0;
    while i < v.len()
        invariant
            i <= v@.len(),
            view_elems(out@) == v@.take(i as int).map_values(|q: Predicate| (q.lang@, q.expr@)).map_values(
                |q: (Seq<char>, Seq<char>)| SJson::Object(seq![("lang"@, jstr(q.0)), ("expr"@, jstr(q.1))]),
            ),
        decreases v@.len() - i,
    {
        let ghost before = out@;
        let mut ps: Vec<(String, JsonValue)> = Vec::new();
        push_member(&mut ps, "lang", string_json(&v[i].lang));
        push_member(&mut ps, "expr", string_json(&v[i].expr));
        assert(view_members(ps@) =~= seq![("lang"@, jstr(v@[i as int].lang@)), ("expr"@, jstr(v@[i as int].expr@))]);
        let e = JsonValue::Object(ps);
        assert(e@ == SJson::Object(seq![("lang"@, jstr(v@[i as int].lang@)), ("expr"@, jstr(v@[i as int].expr@))]));
        let ghost ge = e;
        out.push(e);
        proof {
            assert(out@.drop_last() =~= before);
            assert(out@.last() == ge);
            assert(v@.take(i + 1).map_values(|q: Predicate| (q.lang@, q.expr@)).map_values(
                |q: (Seq<char>, Seq<char>)| SJson::Object(seq![("lang"@, jstr(q.0)), ("expr"@, jstr(q.1))]),
            ) =~= v@.take(i as int).map_values(|q: Predicate| (q.lang@, q.expr@)).map_values(
                |q: (Seq<char>, Seq<char>)| SJson::Object(seq![("lang"@, jstr(q.0)), ("expr"@, jstr(q.1))]),
            ).push(SJson::Object(seq![("lang"@, jstr(v@[i as int].lang@)), ("expr"@, jstr(v@[i as int].expr@))])));
        }
        i += 1;
    }
    assert(v@.take(v@.len() as int) =~= v@);
    JsonValue::Array(out)
}

fn typedef_to_json(t: &TypeDef) -> (j: JsonValue)
    ensures
        j@ == typedef_json(t@),
{
    let mut ps: Vec<(String, JsonValue)> = Vec::new();
    push_member(&mut ps, "kind", string_json(&t.kind));
    match &t.of {
        Some(o) => {
            push_member(&mut ps, "of", string_json(o));
        },
        None => {},
    }
    match &t.fields {
        Some(f) => {
            push_member(&mut ps, "fields", string_map_to_json(f));
        },
        None => {},
    }
    match &t.variants {
        Some(v) => {
            push_member(&mut ps, "variants", strings_to_json(v));
        },
        None => {},
    }
    match &t.predicates {
        Some(p) => {
            push_member(&mut ps, "predicates", predicates_to_json(p));
        },
        None => {},
    }
    assert(view_members(ps@) =~= typedef_json(t@)->Object_0);
    JsonValue::Object(ps)
}


fn goals_to_json(v: &Vec<Goal>) -> (j: JsonValue)
    ensures
        j@ == SJson::Array(v@.map_values(|x: Goal| goal_json(x@))),
{
    let mut out: Vec<JsonValue> = Vec::new();
    let mut i: usize = 0;
    while i < v.len()
        invariant
            i <= v@.len(),
            view_elems(out@) == v@.take(i as int).map_values(|x: Goal| goal_json(x@)),
        decreases v@.len() - i,
    {
        let ghost before = out@;
        let e = goal_to_json(&v[i]);
        let ghost ge = e;
        out.push(e);
        proof {
            assert(out@.drop_last() =~= before);
            assert(out@.last() == ge);
            assert(v@.take(i + 1).map_values(|x: Goal| goal_json(x@))
                =~= v@.take(i as int).map_values(|x: Goal| goal_json(x@)).push(ge@));
        }
        i += 1;
    }
    assert(v@.take(v@.len() as int) =~= v@);
    JsonValue::Array(out)
}

fn nodes_to_json(v: &Vec<Node>) -> (j: JsonValue)
    ensures
        j@ == SJson::Array(v@.map_values(|x: Node| node_json(x@))),
{
    let mut out: Vec<JsonValue> = Vec::new();
    let mut i: usize = 0;
    while i < v.len()
        invariant
            i <= v@.len(),
            view_elems(out@) == v@.take(i as int).map_values(|x: Node| node_json(x@)),
        decreases v@.len() - i,
    {
        let ghost before = out@;
        let e = node_to_json(&v[i]);
        let ghost ge = e;
        out.push(e);
        proof {
            assert(out@.drop_last() =~= before);
            assert(out@.last() == ge);
            assert(v@.take(i + 1).map_values(|x: Node| node_json(x@))
                =~= v@.take(i as int).map_values(|x: Node| node_json(x@)).push(ge@));
        }
        i += 1;
    }
    assert(v@.take(v@.len() as int) =~= v@);
    JsonValue::Array(out)
}

fn edges_to_json(v: &Vec<Edge>) -> (j: JsonValue)
    ensures
        j@ == SJson::Array(v@.map_values(|x: Edge| edge_json(x@))),
{
    let mut out: Vec<JsonValue> = Vec::new();
    let mut i: usize = 0;
    while i < v.len()
        invariant
            i <= v@.len(),
            view_elems(out@) == v@.take(i as int).map_values(|x: Edge| edge_json(x@)),
        decreases v@.len() - i,
    {
        let ghost before = out@;
        let e = edge_to_json(&v[i]);
        let ghost ge = e;
        out.push(e);
        proof {
            assert(out@.drop_last() =~= before);
            assert(out@.last() == ge);
            assert(v@.take(i + 1).map_values(|x: Edge| edge_json(x@))
                =~= v@.take(i as int).map_values(|x: Edge| edge_json(x@)).push(ge@));
        }
        i += 1;
    }
    assert(v@.take(v@.len() as int) =~= v@);
    JsonValue::Array(out)
}

fn subgraphs_to_json(v: &Vec<Subgraph>) -> (j: JsonValue)
    ensures
        j@ == SJson::Array(v@.map_values(|x: Subgraph| subgraph_json(x@))),
{
    let mut out: Vec<JsonValue> = Vec::new();
    let mut i: usize = 0;
    while i < v.len()
        invariant
            i <= v@.len(),
            view_elems(out@) == v@.take(i as int).map_values(|x: Subgraph| subgraph_json(x@)),
        decreases v@.len() - i,
    {
        let ghost before = out@;
        let e = subgraph_to_json(&v[i]);
        let ghost ge = e;
        out.push(e);
        proof {
            assert(out@.drop_last() =~= before);
            assert(out@.last() == ge);
            assert(v@.take(i + 1).map_values(|x: Subgraph| subgraph_json(x@))
                =~= v@.take(i as int).map_values(|x: Subgraph| subgraph_json(x@)).push(ge@));
        }
        i += 1;
    }
    assert(v@.take(v@.len() as int) =~= v@);
    JsonValue::Array(out)
}

fn types_to_json(m: &Vec<(String, TypeDef)>) -> (j: JsonValue)
    ensures
        j@ == SJson::Object(m@.map_values(|p: (String, TypeDef)| (p.0@, p.1@)).map_values(
            |p: (Seq<char>, TypeDefV)| (p.0, typedef_json(p.1)),
        )),
{
    let mut ps: Vec<(String, JsonValue)> = Vec::new();
    let mut i: usize = 0;
    while i < m.len()
        invariant
            i <= m@.len(),
            view_members(ps@) == m@.take(i as int).map_values(|p: (String, TypeDef)| (p.0@, p.1@)).map_values(
                |p: (Seq<char>, TypeDefV)| (p.0, typedef_json(p.1)),
            ),
        decreases m@.len() - i,
    {
        let ghost before = view_members(ps@);
        push_member(&mut ps, m[i].0.as_str(), typedef_to_json(&m[i].1));
        proof {
            assert(m@.take(i + 1).map_values(|p: (String, TypeDef)| (p.0@, p.1@)).map_values(
                |p: (Seq<char>, TypeDefV)| (p.0, typedef_json(p.1)),
            ) =~= before.push((m@[i as int].0@, typedef_json(m@[i as int].1@))));
        }
        i += 1;
    }
    assert(m@.take(m@.len() as int) =~= m@);
    JsonValue::Object(ps)
}

fn constraints_to_json(m: &Vec<(String, Constraint)>) -> (j: JsonValue)
    ensures
        j@ == SJson::Object(m@.map_values(|p: (String, Constraint)| (p.0@, p.1@)).map_values(
            |p: (Seq<char>, ConstraintV)| (p.0, constraint_json(p.1)),
        )),
{
    let mut ps: Vec<(String, JsonValue)> = Vec::new();
    let mut i: usize = 0;
    while i < m.len()
        invariant
            i <= m@.len(),
            view_members(ps@) == m@.take(i as int).map_values(|p: (String, Constraint)| (p.0@, p.1@)).map_values(
                |p: (Seq<char>, ConstraintV)| (p.0, constraint_json(p.1)),
            ),
        decreases m@.len() - i,
    {
        let ghost before = view_members(ps@);
        push_member(&mut ps, m[i].0.as_str(), constraint_to_json(&m[i].1));
        proof {
            assert(m@.take(i + 1).map_values(|p: (String, Constraint)| (p.0@, p.1@)).map_values(
                |p: (Seq<char>, ConstraintV)| (p.0, constraint_json(p.1)),
            ) =~= before.push((m@[i as int].0@, constraint_json(m@[i as int].1@))));
        }
        i += 1;
    }
    assert(m@.take(m@.len() as int) =~= m@);
    JsonValue::Object(ps)
}

/// The JSON form of a Plan IR.
pub fn plan_to_json(ir: &PlanIr) -> (j: JsonValue)
    ensures
        j@ == plan_json(ir@),
{
    let mut ps: Vec<(String, JsonValue)> = Vec::new();
    push_member(&mut ps, "conclave_ir_version", string_json(&ir.conclave_ir_version));
    let mut md: Vec<(String, JsonValue)> = Vec::new();
    push_member(&mut md, "name", string_json(&ir.module.name));
    push_member(&mut md, "source_fingerprint", string_json(&ir.module.source_fingerprint));
    assert(view_members(md@) =~= seq![("name"@, jstr(ir.module.name@)), ("source_fingerprint"@, jstr(ir.module.source_fingerprint@))]);
    push_member(&mut ps, "module", JsonValue::Object(md));
    if ir.imports.len() > 0 {
        push_member(&mut ps, "imports", string_map_to_json(&ir.imports));
    }
    push_member(&mut ps, "types", types_to_json(&ir.types));
    push_member(&mut ps, "goals", goals_to_json(&ir.goals));
    push_member(&mut ps, "nodes", nodes_to_json(&ir.nodes));
    push_member(&mut ps, "edges", edges_to_json(&ir.edges));
    push_member(&mut ps, "constraints", constraints_to_json(&ir.constraints));
    push_member(&mut ps, "subgraphs", subgraphs_to_json(&ir.subgraphs));
    let mut ex: Vec<(String, JsonValue)> = Vec::new();
    push_member(&mut ex, "entry_goal", string_json(&ir.exports.entry_goal));
    assert(view_members(ex@) =~= seq![("entry_goal"@, jstr(ir.exports.entry_goal@))]);
    push_member(&mut ps, "exports", JsonValue::Object(ex));
    proof {
        assert(ir@.goals.map_values(|g: GoalV| goal_json(g)) =~= ir.goals@.map_values(|x: Goal| goal_json(x@)));
        assert(ir@.nodes.map_values(|n: NodeV| node_json(n)) =~= ir.nodes@.map_values(|x: Node| node_json(x@)));
        assert(ir@.edges.map_values(|e: EdgeV| edge_json(e)) =~= ir.edges@.map_values(|x: Edge| edge_json(x@)));
        assert(ir@.subgraphs.map_values(|s: SubgraphV| subgraph_json(s)) =~= ir.subgraphs@.map_values(|x: Subgraph| subgraph_json(x@)));
    }
    assert(view_members(ps@) =~= plan_json(ir@)->Object_0);
    JsonValue::Object(ps)
}

} // verus!
