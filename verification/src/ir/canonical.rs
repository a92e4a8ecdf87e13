//! Canonical JSON, hashes and stable ids of Plan IR values, and the
//! structural validation of a Plan IR.
use vstd::prelude::*;
use crate::hash::{compute_stable_id, sha256_str, stable_id_text, hash_text};
use crate::ir::{
    Constraint, ConstraintV, Edge, EdgeV, Goal, GoalV, IrError, Node, NodeV, PlanIr, PlanIrV,
    Subgraph, SubgraphV, attrs_json, constraint_expr_json, edge_json, endpoint_json, goal_json,
    jstr, node_kind_name, output_json, params_json, plan_json, plan_to_json, refs_json, scope_name,
    InputPortV, OutputPortV, node_json, input_json, refs_member, opt_member, string_map_json,
    typedef_json, subgraph_json, constraint_json, TypeDefV, NodeAttrsV, profile_name,
};
use crate::json::{
    JsonValue, SJson, canon, canonical_text, canonicalize, json_view, push_member,
    remove_field_recursive, str_array, strip_key, strip_members, strip_elems, to_canonical_json,
    view_elems, view_members, lemma_view_elems, lemma_view_members, lemma_strip_members_append,
    lemma_strip_elems_index, lacks_key, is_canonical, lemma_strip_key_lacks, lemma_canon_keeps_lack,
    lemma_canon_is_canonical, lemma_members_lack_index, lemma_elems_lack_index, members_lack_key,
};
use crate::text::{push_str, seq_lt, str_eq, str_lt, first_repeat};
use vstd::utf8::encode_utf8;

verus! {

// ---------------------------------------------------------------------------
// Sorting arrays of objects by an id field
// ---------------------------------------------------------------------------

/// The value of the last member with key `k`.
pub open spec fn obj_lookup(ps: Seq<(Seq<char>, SJson)>, k: Seq<char>) -> Option<SJson>
    decreases ps.len(),
{
    if ps.len() == 0 {
        None
    } else if ps.last().0 == k {
        Some(ps.last().1)
    } else {
        obj_lookup(ps.drop_last(), k)
    }
}

/// The string under key `f` of an object, or the empty string.
pub open spec fn id_of(e: SJson, f: Seq<char>) -> Seq<char> {
    match e {
        SJson::Object(ps) => match obj_lookup(ps, f) {
            Some(SJson::Str(s)) => s,
            _ => Seq::empty(),
        },
        _ => Seq::empty(),
    }
}

/// `x` inserted into `a` after every element whose id is not greater.
pub open spec fn ins_sorted(a: Seq<SJson>, x: SJson, f: Seq<char>) -> Seq<SJson>
    decreases a.len(),
{
    if a.len() == 0 {
        seq![x]
    } else if seq_lt(id_of(x, f), id_of(a.last(), f)) {
        ins_sorted(a.drop_last(), x, f).push(a.last())
    } else {
        a.push(x)
    }
}

/// The stable sort of `a` by the id under key `f`.
pub open spec fn sort_by_id(a: Seq<SJson>, f: Seq<char>) -> Seq<SJson>
    decreases a.len(),
{
    if a.len() == 0 {
        Seq::empty()
    } else {
        ins_sorted(sort_by_id(a.drop_last(), f), a.last(), f)
    }
}

/// An object whose array member `arr` is sorted by the id under key `f`.
pub open spec fn sort_field(j: SJson, arr: Seq<char>, f: Seq<char>) -> SJson {
    match j {
        SJson::Object(ps) => SJson::Object(
            ps.map_values(
                |p: (Seq<char>, SJson)|
                    if p.0 == arr && p.1 is Array {
                        (p.0, SJson::Array(sort_by_id(p.1->Array_0, f)))
                    } else {
                        p
                    },
            ),
        ),
        _ => j,
    }
}

/// The canonical JSON value of a Plan IR: `meta` removed everywhere, nodes,
/// edges, goals and subgraphs sorted by their ids, object keys sorted.
pub open spec fn canonical_plan(ir: PlanIrV) -> SJson {
    canon(
        sort_field(
            sort_field(
                sort_field(
                    sort_field(strip_key(plan_json(ir), "meta"@), "nodes"@, "node_id"@),
                    "edges"@,
                    "edge_id"@,
                ),
                "goals"@,
                "goal_id"@,
            ),
            "subgraphs"@,
            "subgraph_id"@,
        ),
    )
}

/// `plan_ir_hash = sha256(canonical_plan_ir_json)`.
pub open spec fn plan_hash(ir: PlanIrV) -> Seq<char> {
    hash_text(encode_utf8(canonical_text(canonical_plan(ir))))
}

proof fn lemma_ins_at(a: Seq<SJson>, x: SJson, f: Seq<char>, j: int)
    requires
        0 <= j <= a.len(),
        forall|k: int| j <= k < a.len() ==> seq_lt(id_of(x, f), #[trigger] id_of(a[k], f)),
        j > 0 ==> !seq_lt(id_of(x, f), id_of(a[j - 1], f)),
    ensures
        ins_sorted(a, x, f) == a.take(j).push(x) + a.skip(j),
    decreases a.len(),
{
    if a.len() == 0 {
        assert(a.take(j).push(x) + a.skip(j) =~= seq![x]);
    } else if j == a.len() {
        assert(a.take(j).push(x) + a.skip(j) =~= a.push(x));
    } else {
        assert(seq_lt(id_of(x, f), id_of(a[a.len() - 1], f)));
        let b = a.drop_last();
        assert forall|k: int| j <= k < b.len() implies seq_lt(id_of(x, f), #[trigger] id_of(b[k], f)) by {
            assert(b[k] == a[k]);
        }
        lemma_ins_at(b, x, f, j);
        assert(b.take(j).push(x) + b.skip(j) + seq![a.last()] =~= a.take(j).push(x) + a.skip(j));
    }
}

/// The id string of an array element.
fn id_text(e: &JsonValue, f: &str) -> (s: String)
    ensures
        s@ == id_of(e@, f@),
{
    match e {
        JsonValue::Object(ps) => {
            proof {
                lemma_view_members(ps@);
            }
            assert(e@ == SJson::Object(view_members(ps@)));
            let mut i: usize = ps.len();
            assert(view_members(ps@).take(i as int) =~= view_members(ps@));
            while i > 0
                invariant
                    i <= ps@.len(),
                    view_members(ps@).len() == ps@.len(),
                    forall|k: int| 0 <= k < ps@.len() ==> #[trigger] view_members(ps@)[k] == (ps@[k].0@, json_view(ps@[k].1)),
                    obj_lookup(view_members(ps@), f@) == obj_lookup(view_members(ps@).take(i as int), f@),
                    e@ == SJson::Object(view_members(ps@)),
                decreases i,
            {
                let ghost t = view_members(ps@).take(i as int);
                assert(t.drop_last() =~= view_members(ps@).take(i - 1));
                assert(t.last() == view_members(ps@)[i - 1]);
                if str_eq(ps[i - 1].0.as_str(), f) {
                    assert(obj_lookup(view_members(ps@), f@) == Some(json_view(ps@[i - 1].1)));
                    match &ps[i - 1].1 {
                        JsonValue::Str(s) => {
                            return s.clone();
                        },
                        other => {
                            assert(!(json_view(*other) is Str));
                            return String::new();
                        },
                    }
                }
                i -= 1;
            }
            String::new()
        },
        _ => String::new(),
    }
}

/// The stable sort of an array by the id under key `f`.
fn sorted_by_id(a: &Vec<JsonValue>, f: &str) -> (r: Vec<JsonValue>)
    ensures
        view_elems(r@) == sort_by_id(view_elems(a@), f@),
{
    let mut out: Vec<JsonValue> = Vec::new();
    let mut i: usize = 0;
    while i < a.len()
        invariant
            i <= a@.len(),
            view_elems(out@) == sort_by_id(view_elems(a@.take(i as int)), f@),
        decreases a@.len() - i,
    {
        let x = a[i].clone();
        let xid = id_text(&x, f);
        proof {
            lemma_view_elems(out@);
        }
        let ghost vo = view_elems(out@);
        let mut j: usize = out.len();
        while j > 0 && str_lt(xid.as_str(), id_text(&out[j - 1], f).as_str())
            invariant
                j <= out@.len(),
                vo == view_elems(out@),
                vo.len() == out@.len(),
                forall|k: int| 0 <= k < out@.len() ==> #[trigger] vo[k] == json_view(out@[k]),
                forall|k: int| j <= k < vo.len() ==> seq_lt(xid@, #[trigger] id_of(vo[k], f@)),
                xid@ == id_of(x@, f@),
            decreases j,
        {
            j -= 1;
        }
        proof {
            lemma_ins_at(vo, x@, f@, j as int);
        }
        let ghost gx = x;
        out.insert(j, x);
        proof {
            lemma_view_elems(out@);
            assert(view_elems(out@) =~= vo.take(j as int).push(gx@) + vo.skip(j as int));
            assert(a@.take(i + 1).drop_last() =~= a@.take(i as int));
            lemma_view_elems(a@.take(i + 1));
            assert(view_elems(a@.take(i + 1)).drop_last() =~= view_elems(a@.take(i as int)));
        }
        i += 1;
    }
    assert(a@.take(a@.len() as int) =~= a@);
    out
}

/// Sorts the array member `arr` of an object by the id under key `f`.
fn sort_array_by_field(root: &JsonValue, arr: &str, f: &str) -> (r: JsonValue)
    ensures
        r@ == sort_field(root@, arr@, f@),
{
    match root {
        JsonValue::Object(ps) => {
            let mut out: Vec<(String, JsonValue)> = Vec::new();
            let mut i: usize = 0;
            proof {
                lemma_view_members(ps@);
            }
            while i < ps.len()
                invariant
                    i <= ps@.len(),
                    view_members(ps@).len() == ps@.len(),
                    forall|k: int| 0 <= k < ps@.len() ==> #[trigger] view_members(ps@)[k] == (ps@[k].0@, json_view(ps@[k].1)),
                    view_members(out@) == view_members(ps@).take(i as int).map_values(
                        |p: (Seq<char>, SJson)|
                            if p.0 == arr@ && p.1 is Array {
                                (p.0, SJson::Array(sort_by_id(p.1->Array_0, f@)))
                            } else {
                                p
                            },
                    ),
                decreases ps@.len() - i,
            {
                let ghost before = view_members(out@);
                let v = if str_eq(ps[i].0.as_str(), arr) {
                    match &ps[i].1 {
                        JsonValue::Array(a) => JsonValue::Array(sorted_by_id(a, f)),
                        other => other.clone(),
                    }
                } else {
                    ps[i].1.clone()
                };
                push_member(&mut out, ps[i].0.as_str(), v);
                proof {
                    assert(view_members(ps@).take(i + 1) =~= view_members(ps@).take(i as int).push(view_members(ps@)[i as int]));
                }
                i += 1;
            }
            assert(view_members(ps@).take(ps@.len() as int) =~= view_members(ps@));
            JsonValue::Object(out)
        },
        _ => root.clone(),
    }
}

/// The canonical JSON value of a Plan IR, suitable for hashing: `meta`
/// removed at every depth, nodes, edges, goals and subgraphs sorted by their
/// ids, object keys sorted.
pub fn canonicalize_plan_ir(ir: &PlanIr) -> (r: JsonValue)
    ensures
        r@ == canonical_plan(ir@),
{
    let mut v = plan_to_json(ir);
    remove_field_recursive(&mut v, "meta");
    let v = sort_array_by_field(&v, "nodes", "node_id");
    let v = sort_array_by_field(&v, "edges", "edge_id");
    let v = sort_array_by_field(&v, "goals", "goal_id");
    let v = sort_array_by_field(&v, "subgraphs", "subgraph_id");
    canonicalize(&v)
}

/// `sha256(canonical_plan_ir_json)` of a Plan IR.
pub fn compute_plan_ir_hash(ir: &PlanIr) -> (h: crate::hash::Hash)
    ensures
        h@ == plan_hash(ir@),
{
    let canonical = canonicalize_plan_ir(ir);
    let text = to_canonical_json(&canonical);
    sha256_str(text.as_str())
}

// ---------------------------------------------------------------------------
// Stable ids
// ---------------------------------------------------------------------------

pub open spec fn port_body(p: InputPortV) -> SJson {
    SJson::Object(seq![("port"@, jstr(p.port)), ("type"@, jstr(p.ty_name))])
}

/// The body a node id is computed from: everything but the id, the meta and
/// the edge references of the inputs.
pub open spec fn node_id_body(n: NodeV) -> SJson {
    SJson::Object(
        seq![
            ("attrs"@, attrs_json(n.attrs)),
            ("constraints"@, refs_json(n.constraints)),
            ("inputs"@, SJson::Array(n.inputs.map_values(|p: InputPortV| port_body(p)))),
            ("kind"@, jstr(node_kind_name(n.kind))),
            ("op"@, SJson::Object(seq![("name"@, jstr(n.op_name)), ("signature"@, jstr(n.op_signature))])),
            ("outputs"@, SJson::Array(n.outputs.map_values(|p: OutputPortV| output_json(p)))),
        ],
    )
}

pub open spec fn edge_id_body(e: EdgeV) -> SJson {
    SJson::Object(seq![("from"@, endpoint_json(e.from)), ("to"@, endpoint_json(e.to))])
}

pub open spec fn goal_id_body(g: GoalV) -> SJson {
    SJson::Object(
        seq![
            ("accept"@, refs_json(g.accept)),
            ("constraints"@, refs_json(g.constraints)),
            ("entry_nodes"@, str_array(g.entry_nodes)),
            ("exit_nodes"@, str_array(g.exit_nodes)),
            ("name"@, jstr(g.name)),
            ("params"@, params_json(g.params)),
            ("returns"@, params_json(g.returns)),
        ],
    )
}

pub open spec fn constraint_id_body(c: ConstraintV) -> SJson {
    SJson::Object(seq![("expr"@, constraint_expr_json(c)), ("scope"@, jstr(scope_name(c.scope)))])
}

pub open spec fn subgraph_id_body(s: SubgraphV) -> SJson {
    SJson::Object(seq![("constraints"@, refs_json(s.constraints)), ("kind"@, jstr(s.kind)), ("nodes"@, str_array(s.nodes))])
}

/// The stable id of an entity of the given kind from its id body.
pub open spec fn entity_id(kind: Seq<char>, body: SJson) -> Seq<char> {
    stable_id_text(kind, canonical_text(body))
}

/// Compute a stable `node_id` from the node's kind, op, ports (without edge
/// references), attributes and constraint references.
pub fn compute_node_id(node: &Node) -> (h: crate::hash::Hash)
    ensures
        h@ == entity_id("node"@, node_id_body(node@)),
{
    let mut inputs: Vec<JsonValue> = Vec::new();
    let mut i: usize = 0;
    while i < node.inputs.len()
        invariant
            i <= node.inputs@.len(),
            view_elems(inputs@) == node.inputs@.take(i as int).map_values(|p: crate::ir::InputPort| port_body(p@)),
        decreases node.inputs@.len() - i,
    {
        let ghost before = inputs@;
        let mut ps: Vec<(String, JsonValue)> = Vec::new();
        push_member(&mut ps, "port", JsonValue::Str(node.inputs[i].port.clone()));
        push_member(&mut ps, "type", JsonValue::Str(node.inputs[i].ty_name.clone()));
        assert(view_members(ps@) =~= port_body(node.inputs@[i as int]@)->Object_0);
        let e = JsonValue::Object(ps);
        assert(e@ == port_body(node.inputs@[i as int]@));
        let ghost ge = e;
        inputs.push(e);
        proof {
            assert(inputs@.drop_last() =~= before);
            assert(inputs@.last() == ge);
            assert(node.inputs@.take(i + 1).map_values(|p: crate::ir::InputPort| port_body(p@))
                =~= node.inputs@.take(i as int).map_values(|p: crate::ir::InputPort| port_body(p@)).push(port_body(node.inputs@[i as int]@)));
        }
        i += 1;
    }
    assert(node.inputs@.take(node.inputs@.len() as int) =~= node.inputs@);
    assert(node@.inputs.map_values(|p: InputPortV| port_body(p)) =~= node.inputs@.map_values(|p: crate::ir::InputPort| port_body(p@)));
    let mut op: Vec<(String, JsonValue)> = Vec::new();
    push_member(&mut op, "name", JsonValue::Str(node.op.name.clone()));
    push_member(&mut op, "signature", JsonValue::Str(node.op.signature.clone()));
    assert(view_members(op@) =~= seq![("name"@, jstr(node.op.name@)), ("signature"@, jstr(node.op.signature@))]);
    let outs = crate::ir::outputs_to_json(&node.outputs);
    assert(node@.outputs.map_values(|p: OutputPortV| output_json(p)) =~= node.outputs@.map_values(|p: crate::ir::OutputPort| p@).map_values(|p: OutputPortV| output_json(p)));
    let mut body: Vec<(String, JsonValue)> = Vec::new();
    push_member(&mut body, "attrs", crate::ir::attrs_to_json(&node.attrs));
    push_member(&mut body, "constraints", crate::ir::refs_to_json(&node.constraints));
    push_member(&mut body, "inputs", JsonValue::Array(inputs));
    push_member(&mut body, "kind", crate::ir::kind_to_json(node.kind));
    push_member(&mut body, "op", JsonValue::Object(op));
    push_member(&mut body, "outputs", outs);
    assert(view_members(body@) =~= node_id_body(node@)->Object_0);
    let b = JsonValue::Object(body);
    let text = to_canonical_json(&b);
    compute_stable_id("node", text.as_str())
}

/// Compute a stable `edge_id` from its two endpoints.
pub fn compute_edge_id(edge: &Edge) -> (h: crate::hash::Hash)
    ensures
        h@ == entity_id("edge"@, edge_id_body(edge@)),
{
    let mut body: Vec<(String, JsonValue)> = Vec::new();
    push_member(&mut body, "from", crate::ir::endpoint_to_json(&edge.from));
    push_member(&mut body, "to", crate::ir::endpoint_to_json(&edge.to));
    assert(view_members(body@) =~= edge_id_body(edge@)->Object_0);
    let b = JsonValue::Object(body);
    let text = to_canonical_json(&b);
    compute_stable_id("edge", text.as_str())
}

/// Compute a stable `goal_id` from everything in the goal but the id.
pub fn compute_goal_id(goal: &Goal) -> (h: crate::hash::Hash)
    ensures
        h@ == entity_id("goal"@, goal_id_body(goal@)),
{
    let mut body: Vec<(String, JsonValue)> = Vec::new();
    push_member(&mut body, "accept", crate::ir::refs_to_json(&goal.accept));
    push_member(&mut body, "constraints", crate::ir::refs_to_json(&goal.constraints));
    push_member(&mut body, "entry_nodes", crate::json::strings_to_json(&goal.entry_nodes));
    push_member(&mut body, "exit_nodes", crate::json::strings_to_json(&goal.exit_nodes));
    push_member(&mut body, "name", JsonValue::Str(goal.name.clone()));
    push_member(&mut body, "params", crate::ir::params_to_json(&goal.params));
    push_member(&mut body, "returns", crate::ir::params_to_json(&goal.returns));
    assert(view_members(body@) =~= goal_id_body(goal@)->Object_0);
    let b = JsonValue::Object(body);
    let text = to_canonical_json(&b);
    compute_stable_id("goal", text.as_str())
}

/// Compute a stable `constraint_id` from its scope and expression.
pub fn compute_constraint_id(constraint: &Constraint) -> (h: crate::hash::Hash)
    ensures
        h@ == entity_id("constraint"@, constraint_id_body(constraint@)),
{
    let mut ex: Vec<(String, JsonValue)> = Vec::new();
    push_member(&mut ex, "lang", JsonValue::Str(constraint.expr.lang.clone()));
    push_member(&mut ex, "ast", constraint.expr.ast.clone());
    assert(view_members(ex@) =~= constraint_expr_json(constraint@)->Object_0);
    let mut body: Vec<(String, JsonValue)> = Vec::new();
    push_member(&mut body, "expr", JsonValue::Object(ex));
    push_member(&mut body, "scope", crate::ir::scope_to_json(constraint.scope));
    assert(view_members(body@) =~= constraint_id_body(constraint@)->Object_0);
    let b = JsonValue::Object(body);
    let text = to_canonical_json(&b);
    compute_stable_id("constraint", text.as_str())
}

/// Compute a stable `subgraph_id` from its kind, member nodes and constraints.
pub fn compute_subgraph_id(subgraph: &Subgraph) -> (h: crate::hash::Hash)
    ensures
        h@ == entity_id("subgraph"@, subgraph_id_body(subgraph@)),
{
    let mut body: Vec<(String, JsonValue)> = Vec::new();
    push_member(&mut body, "constraints", crate::ir::refs_to_json(&subgraph.constraints));
    push_member(&mut body, "kind", JsonValue::Str(subgraph.kind.clone()));
    push_member(&mut body, "nodes", crate::json::strings_to_json(&subgraph.nodes));
    assert(view_members(body@) =~= subgraph_id_body(subgraph@)->Object_0);
    let b = JsonValue::Object(body);
    let text = to_canonical_json(&b);
    compute_stable_id("subgraph", text.as_str())
}


// ---------------------------------------------------------------------------
// Validation
// ---------------------------------------------------------------------------

/// The model of an IR fault.
pub enum IrErrorV {
    UnsupportedVersion(Seq<char>),
    DuplicateNodeId(Seq<char>),
    DuplicateEdgeId(Seq<char>),
    EdgeReferencesUnknownNode { edge_id: Seq<char>, node_id: Seq<char> },
    UnresolvedConstraintRef { ref_path: Seq<char> },
}

impl View for IrError {
    type V = IrErrorV;

    open spec fn view(&self) -> IrErrorV {
        match self {
            IrError::UnsupportedVersion(v) => IrErrorV::UnsupportedVersion(v@),
            IrError::DuplicateNodeId(n) => IrErrorV::DuplicateNodeId(n@),
            IrError::DuplicateEdgeId(e) => IrErrorV::DuplicateEdgeId(e@),
            IrError::EdgeReferencesUnknownNode { edge_id, node_id } =>
                IrErrorV::EdgeReferencesUnknownNode { edge_id: edge_id@, node_id: node_id@ },
            IrError::UnresolvedConstraintRef { ref_path } => IrErrorV::UnresolvedConstraintRef { ref_path: ref_path@ },
        }
    }
}

pub open spec fn node_ids(ir: PlanIrV) -> Seq<Seq<char>> {
    ir.nodes.map_values(|n: NodeV| n.node_id)
}

pub open spec fn edge_ids(ir: PlanIrV) -> Seq<Seq<char>> {
    ir.edges.map_values(|e: EdgeV| e.edge_id)
}

/// The check of the edges from position `i` on: ids unique, both endpoints known.
pub open spec fn check_edges(ir: PlanIrV, i: int) -> Result<(), IrErrorV>
    decreases ir.edges.len() - i,
{
    if i < 0 || i >= ir.edges.len() {
        Ok(())
    } else {
        let e = ir.edges[i];
        if edge_ids(ir).take(i).contains(e.edge_id) {
            Err(IrErrorV::DuplicateEdgeId(e.edge_id))
        } else if !node_ids(ir).contains(e.from.node_id) {
            Err(IrErrorV::EdgeReferencesUnknownNode { edge_id: e.edge_id, node_id: e.from.node_id })
        } else if !node_ids(ir).contains(e.to.node_id) {
            Err(IrErrorV::EdgeReferencesUnknownNode { edge_id: e.edge_id, node_id: e.to.node_id })
        } else {
            check_edges(ir, i + 1)
        }
    }
}

/// The structural invariants of a Plan IR: version `0.1`, node ids unique,
/// edge ids unique, every edge endpoint a known node; the first fault found.
pub open spec fn validate_spec(ir: PlanIrV) -> Result<(), IrErrorV> {
    if ir.version != "0.1"@ {
        Err(IrErrorV::UnsupportedVersion(ir.version))
    } else {
        match first_repeat(node_ids(ir), 0) {
            Some(i) => Err(IrErrorV::DuplicateNodeId(node_ids(ir)[i])),
            None => check_edges(ir, 0),
        }
    }
}

/// Whether `x` occurs among the first `n` node ids.
fn node_id_among(nodes: &Vec<Node>, n: usize, x: &str) -> (r: bool)
    requires
        n <= nodes@.len(),
    ensures
        r == nodes@.map_values(|m: Node| m@.node_id).take(n as int).contains(x@),
{
    let ghost ids = nodes@.map_values(|m: Node| m@.node_id).take(n as int);
    let mut k: usize = 0;
    while k < n
        invariant
            k <= n,
            n <= nodes@.len(),
            ids == nodes@.map_values(|m: Node| m@.node_id).take(n as int),
            forall|j: int| 0 <= j < k ==> ids[j] != x@,
        decreases n - k,
    {
        if str_eq(nodes[k].node_id.as_str(), x) {
            assert(ids[k as int] == x@);
            return true;
        }
        k += 1;
    }
    false
}

/// Whether `x` occurs among the first `n` edge ids.
fn edge_id_among(edges: &Vec<Edge>, n: usize, x: &str) -> (r: bool)
    requires
        n <= edges@.len(),
    ensures
        r == edges@.map_values(|m: Edge| m@.edge_id).take(n as int).contains(x@),
{
    let ghost ids = edges@.map_values(|m: Edge| m@.edge_id).take(n as int);
    let mut k: usize = 0;
    while k < n
        invariant
            k <= n,
            n <= edges@.len(),
            ids == edges@.map_values(|m: Edge| m@.edge_id).take(n as int),
            forall|j: int| 0 <= j < k ==> ids[j] != x@,
        decreases n - k,
    {
        if str_eq(edges[k].edge_id.as_str(), x) {
            assert(ids[k as int] == x@);
            return true;
        }
        k += 1;
    }
    false
}

/// Validate the structural invariants of a Plan IR: the version is `0.1`,
/// node ids and edge ids are unique, and every edge joins known nodes.
pub fn validate_plan_ir(ir: &PlanIr) -> (r: Result<(), IrError>)
    ensures
        match validate_spec(ir@) {
            Ok(()) => r is Ok,
            Err(e) => r matches Err(x) && x@ == e,
        },
{
    if !str_eq(ir.conclave_ir_version.as_str(), "0.1") {
        return Err(IrError::UnsupportedVersion(ir.conclave_ir_version.clone()));
    }
    assert(ir@.version == "0.1"@);
    let ghost ids = node_ids(ir@);
    assert(ids =~= ir.nodes@.map_values(|m: Node| m@.node_id));
    let mut i: usize = 0;
    while i < ir.nodes.len()
        invariant
            i <= ir.nodes@.len(),
            ids == ir.nodes@.map_values(|m: Node| m@.node_id),
            ids == node_ids(ir@),
            ir@.version == "0.1"@,
            first_repeat(ids, 0) == first_repeat(ids, i as int),
        decreases ir.nodes@.len() - i,
    {
        if node_id_among(&ir.nodes, i, ir.nodes[i].node_id.as_str()) {
            return Err(IrError::DuplicateNodeId(ir.nodes[i].node_id.clone()));
        }
        i += 1;
    }
    assert(ids.take(ids.len() as int) =~= ids);
    let ghost eids = edge_ids(ir@);
    assert(eids =~= ir.edges@.map_values(|m: Edge| m@.edge_id));
    let mut j: usize = 0;
    while j < ir.edges.len()
        invariant
            j <= ir.edges@.len(),
            ids == ir.nodes@.map_values(|m: Node| m@.node_id),
            ids.take(ids.len() as int) == ids,
            eids == ir.edges@.map_values(|m: Edge| m@.edge_id),
            ids == node_ids(ir@),
            eids == edge_ids(ir@),
            validate_spec(ir@) == check_edges(ir@, j as int),
        decreases ir.edges@.len() - j,
    {
        let e = &ir.edges[j];
        if edge_id_among(&ir.edges, j, e.edge_id.as_str()) {
            return Err(IrError::DuplicateEdgeId(e.edge_id.clone()));
        }
        if !node_id_among(&ir.nodes, ir.nodes.len(), e.from.node_id.as_str()) {
            return Err(IrError::EdgeReferencesUnknownNode { edge_id: e.edge_id.clone(), node_id: e.from.node_id.clone() });
        }
        if !node_id_among(&ir.nodes, ir.nodes.len(), e.to.node_id.as_str()) {
            return Err(IrError::EdgeReferencesUnknownNode { edge_id: e.edge_id.clone(), node_id: e.to.node_id.clone() });
        }
        j += 1;
    }
    Ok(())
}

/// A node id is computed from the node's content alone: its current id,
/// its meta, the import it came from and the edges that feed its inputs do
/// not count.
pub proof fn lemma_node_id_ignores_id_and_meta(
    n: NodeV,
    id: Seq<char>,
    meta: Option<SJson>,
    import_id: Option<Seq<char>>,
    sources: Seq<Option<Seq<char>>>,
)
    requires
        sources.len() == n.inputs.len(),
    ensures
        entity_id("node"@, node_id_body(NodeV {
            node_id: id,
            meta,
            import_subgraph_id: import_id,
            inputs: Seq::new(n.inputs.len(), |i: int| InputPortV { source: sources[i], ..n.inputs[i] }),
            ..n
        })) == entity_id("node"@, node_id_body(n)),
{
    let ins = Seq::new(n.inputs.len(), |i: int| InputPortV { source: sources[i], ..n.inputs[i] });
    assert(ins.map_values(|p: InputPortV| port_body(p)) =~= n.inputs.map_values(|p: InputPortV| port_body(p)));
}

/// An edge id is computed from its endpoints alone.
pub proof fn lemma_edge_id_ignores_id(e: EdgeV, id: Seq<char>)
    ensures
        entity_id("edge"@, edge_id_body(EdgeV { edge_id: id, ..e })) == entity_id("edge"@, edge_id_body(e)),
{
}

/// A node without its meta.
pub open spec fn without_meta(n: NodeV) -> NodeV {
    NodeV { meta: None, ..n }
}

pub(crate) proof fn lemma_node_meta_stripped(n: NodeV)
    ensures
        strip_key(node_json(n), "meta"@) == strip_key(node_json(without_meta(n)), "meta"@),
{
    let a = seq![
        ("node_id"@, jstr(n.node_id)),
        ("kind"@, jstr(node_kind_name(n.kind))),
        ("op"@, SJson::Object(seq![("name"@, jstr(n.op_name)), ("signature"@, jstr(n.op_signature))])),
        ("inputs"@, SJson::Array(n.inputs.map_values(|p: InputPortV| input_json(p)))),
        ("outputs"@, SJson::Array(n.outputs.map_values(|p: OutputPortV| output_json(p)))),
        ("attrs"@, attrs_json(n.attrs)),
    ] + refs_member("constraints"@, n.constraints);
    let m = opt_member("meta"@, n.meta);
    let b = opt_member(
        "import_subgraph_id"@,
        match n.import_subgraph_id {
            Some(s) => Some(jstr(s)),
            None => None,
        },
    );
    assert(node_json(n)->Object_0 =~= a + m + b);
    assert(node_json(without_meta(n))->Object_0 =~= a + b);
    lemma_strip_members_append(a + m, b, "meta"@);
    lemma_strip_members_append(a, m, "meta"@);
    lemma_strip_members_append(a, b, "meta"@);
    assert(strip_members(m, "meta"@) =~= Seq::<(Seq<char>, SJson)>::empty()) by {
        match n.meta {
            Some(x) => {
                assert(m.last().0 == "meta"@);
                assert(m.drop_last() =~= Seq::<(Seq<char>, SJson)>::empty());
                assert(strip_members(m.drop_last(), "meta"@) =~= Seq::<(Seq<char>, SJson)>::empty());
            },
            None => {
                assert(m =~= Seq::<(Seq<char>, SJson)>::empty());
            },
        }
    }
    assert(strip_members(a, "meta"@) + Seq::<(Seq<char>, SJson)>::empty() =~= strip_members(a, "meta"@));
}

/// The Plan IR hash does not depend on the nodes' meta: meta is for
/// tooling and is removed before hashing.
pub proof fn lemma_plan_hash_ignores_meta(ir: PlanIrV)
    ensures
        plan_hash(PlanIrV { nodes: ir.nodes.map_values(|n: NodeV| without_meta(n)), ..ir }) == plan_hash(ir),
{
    let ir2 = PlanIrV { nodes: ir.nodes.map_values(|n: NodeV| without_meta(n)), ..ir };
    let k = "meta"@;
    let head = seq![
        ("conclave_ir_version"@, jstr(ir.version)),
        ("module"@, SJson::Object(seq![("name"@, jstr(ir.module_name)), ("source_fingerprint"@, jstr(ir.source_fingerprint))])),
    ] + (if ir.imports.len() == 0 { Seq::empty() } else { seq![("imports"@, string_map_json(ir.imports))] }) + seq![
        ("types"@, SJson::Object(ir.types.map_values(|p: (Seq<char>, TypeDefV)| (p.0, typedef_json(p.1))))),
        ("goals"@, SJson::Array(ir.goals.map_values(|g: GoalV| goal_json(g)))),
    ];
    let tail = seq![
        ("edges"@, SJson::Array(ir.edges.map_values(|e: EdgeV| edge_json(e)))),
        ("constraints"@, SJson::Object(ir.constraints.map_values(|p: (Seq<char>, ConstraintV)| (p.0, constraint_json(p.1))))),
        ("subgraphs"@, SJson::Array(ir.subgraphs.map_values(|s: SubgraphV| subgraph_json(s)))),
        ("exports"@, SJson::Object(seq![("entry_goal"@, jstr(ir.entry_goal))])),
    ];
    let n1 = SJson::Array(ir.nodes.map_values(|n: NodeV| node_json(n)));
    let n2 = SJson::Array(ir2.nodes.map_values(|n: NodeV| node_json(n)));
    assert(plan_json(ir)->Object_0 =~= head + seq![("nodes"@, n1)] + tail);
    assert(plan_json(ir2)->Object_0 =~= head + seq![("nodes"@, n2)] + tail);
    let e1 = ir.nodes.map_values(|n: NodeV| node_json(n));
    let e2 = ir2.nodes.map_values(|n: NodeV| node_json(n));
    lemma_strip_elems_index(e1, k);
    lemma_strip_elems_index(e2, k);
    assert forall|i: int| 0 <= i < e1.len() implies strip_elems(e1, k)[i] == strip_elems(e2, k)[i] by {
        lemma_node_meta_stripped(ir.nodes[i]);
    }
    assert(strip_elems(e1, k) =~= strip_elems(e2, k));
    assert(strip_key(n1, k) == strip_key(n2, k));
    let one1 = seq![("nodes"@, n1)];
    let one2 = seq![("nodes"@, n2)];
    assert(strip_members(one1, k) == strip_members(one2, k)) by {
        reveal_strlit("nodes");
        reveal_strlit("meta");
        assert(one1.drop_last() =~= Seq::<(Seq<char>, SJson)>::empty());
        assert(one2.drop_last() =~= Seq::<(Seq<char>, SJson)>::empty());
        assert("nodes"@.len() != "meta"@.len());
    }
    lemma_strip_members_append(head + one1, tail, k);
    lemma_strip_members_append(head, one1, k);
    lemma_strip_members_append(head + one2, tail, k);
    lemma_strip_members_append(head, one2, k);
    assert(strip_key(plan_json(ir), k) == strip_key(plan_json(ir2), k));
}

/// No text occurs twice in the list.
pub open spec fn all_distinct(s: Seq<Seq<char>>) -> bool {
    forall|a: int, b: int| 0 <= a < b < s.len() ==> #[trigger] s[a] != #[trigger] s[b]
}

proof fn lemma_first_repeat_none(s: Seq<Seq<char>>, i: int)
    requires
        0 <= i <= s.len(),
    ensures
        first_repeat(s, i) is None <==> forall|a: int, b: int| 0 <= a < b < s.len() && i <= b ==> s[a] != s[b],
    decreases s.len() - i,
{
    if i < s.len() {
        lemma_first_repeat_none(s, i + 1);
        if s.take(i).contains(s[i]) {
            let a = choose|a: int| 0 <= a < s.take(i).len() && s.take(i)[a] == s[i];
            assert(s[a] == s[i]);
        } else {
            assert forall|a: int, b: int| 0 <= a < b < s.len() && i <= b && first_repeat(s, i + 1) is None implies s[a] != s[b] by {
                if b == i {
                    assert(s.take(i)[a] == s[a]);
                }
            }
        }
    }
}

/// Edge `j` has a new id and runs between known nodes.
pub open spec fn edge_ok(ir: PlanIrV, j: int) -> bool {
    &&& !edge_ids(ir).take(j).contains(ir.edges[j].edge_id)
    &&& node_ids(ir).contains(ir.edges[j].from.node_id)
    &&& node_ids(ir).contains(ir.edges[j].to.node_id)
}

proof fn lemma_check_edges_ok(ir: PlanIrV, i: int)
    requires
        0 <= i <= ir.edges.len(),
    ensures
        check_edges(ir, i) is Ok <==> forall|j: int| i <= j < ir.edges.len() ==> #[trigger] edge_ok(ir, j),
    decreases ir.edges.len() - i,
{
    if i < ir.edges.len() {
        lemma_check_edges_ok(ir, i + 1);
        if check_edges(ir, i) is Ok {
            assert forall|j: int| i <= j < ir.edges.len() implies #[trigger] edge_ok(ir, j) by {
                if j > i {
                    assert(check_edges(ir, i + 1) is Ok);
                }
            }
        }
        if forall|j: int| i <= j < ir.edges.len() ==> #[trigger] edge_ok(ir, j) {
            assert(edge_ok(ir, i));
            assert forall|j: int| i + 1 <= j < ir.edges.len() implies #[trigger] edge_ok(ir, j) by {
                assert(edge_ok(ir, j));
            }
        }
    }
}

/// A Plan IR is valid exactly when its version is `0.1`, no node id and no
/// edge id occurs twice, and every edge runs between known nodes.
pub proof fn lemma_validate_meaning(ir: PlanIrV)
    ensures
        validate_spec(ir) is Ok <==> {
            &&& ir.version == "0.1"@
            &&& all_distinct(node_ids(ir))
            &&& all_distinct(edge_ids(ir))
            &&& forall|j: int| 0 <= j < ir.edges.len() ==> node_ids(ir).contains(#[trigger] ir.edges[j].from.node_id)
                && node_ids(ir).contains(ir.edges[j].to.node_id)
        },
{
    let ns = node_ids(ir);
    let es = edge_ids(ir);
    lemma_first_repeat_none(ns, 0);
    lemma_check_edges_ok(ir, 0);
    assert(es.len() == ir.edges.len());
    let ends = forall|j: int| 0 <= j < ir.edges.len() ==> node_ids(ir).contains(#[trigger] ir.edges[j].from.node_id)
        && node_ids(ir).contains(ir.edges[j].to.node_id);
    assert(all_distinct(ns) <==> first_repeat(ns, 0) is None) by {
        if all_distinct(ns) {
            assert forall|a: int, b: int| 0 <= a < b < ns.len() && 0 <= b implies ns[a] != ns[b] by {
                assert(ns[a] != ns[b]);
            }
        }
        if first_repeat(ns, 0) is None {
            assert forall|a: int, b: int| 0 <= a < b < ns.len() implies #[trigger] ns[a] != #[trigger] ns[b] by {}
        }
    }
    if forall|j: int| 0 <= j < ir.edges.len() ==> #[trigger] edge_ok(ir, j) {
        assert forall|a: int, b: int| 0 <= a < b < es.len() implies #[trigger] es[a] != #[trigger] es[b] by {
            assert(edge_ok(ir, b));
            assert(es.take(b)[a] == es[a]);
            assert(es[b] == ir.edges[b].edge_id);
            if es[a] == es[b] {
                assert(es.take(b).contains(es[a]));
            }
        }
        assert forall|j: int| 0 <= j < ir.edges.len() implies node_ids(ir).contains(#[trigger] ir.edges[j].from.node_id)
            && node_ids(ir).contains(ir.edges[j].to.node_id) by {
            assert(edge_ok(ir, j));
        }
    }
    if all_distinct(es) && ends {
        assert forall|j: int| 0 <= j < ir.edges.len() implies #[trigger] edge_ok(ir, j) by {
            assert(es[j] == ir.edges[j].edge_id);
            if es.take(j).contains(ir.edges[j].edge_id) {
                let a = choose|a: int| 0 <= a < es.take(j).len() && es.take(j)[a] == ir.edges[j].edge_id;
                assert(es[a] == es[j]);
            }
            assert(node_ids(ir).contains(ir.edges[j].from.node_id));
        }
    }
    if validate_spec(ir) is Ok {
        assert(ir.version == "0.1"@);
        assert(first_repeat(ns, 0) is None);
        assert(check_edges(ir, 0) is Ok);
        assert(all_distinct(es) && ends);
    }
    if ir.version == "0.1"@ && all_distinct(ns) && all_distinct(es) && ends {
        assert(first_repeat(ns, 0) is None);
        assert(forall|j: int| 0 <= j < ir.edges.len() ==> #[trigger] edge_ok(ir, j));
        assert(check_edges(ir, 0) is Ok);
    }
}

proof fn lemma_ins_sorted_subset(a: Seq<SJson>, x: SJson, f: Seq<char>)
    ensures
        forall|i: int| 0 <= i < ins_sorted(a, x, f).len() ==> #[trigger] ins_sorted(a, x, f)[i] == x || a.contains(ins_sorted(a, x, f)[i]),
    decreases a.len(),
{
    let r = ins_sorted(a, x, f);
    if a.len() > 0 {
        if seq_lt(id_of(x, f), id_of(a.last(), f)) {
            let b = a.drop_last();
            lemma_ins_sorted_subset(b, x, f);
            let rb = ins_sorted(b, x, f);
            assert forall|i: int| 0 <= i < r.len() implies #[trigger] r[i] == x || a.contains(r[i]) by {
                if i < rb.len() {
                    assert(r[i] == rb[i]);
                    if rb[i] != x {
                        let m = choose|m: int| 0 <= m < b.len() && b[m] == rb[i];
                        assert(a[m] == r[i]);
                    }
                } else {
                    assert(a[a.len() - 1] == r[i]);
                }
            }
        } else {
            assert forall|i: int| 0 <= i < r.len() implies #[trigger] r[i] == x || a.contains(r[i]) by {
                if i < a.len() {
                    assert(a[i] == r[i]);
                }
            }
        }
    }
}

proof fn lemma_sort_by_id_subset(a: Seq<SJson>, f: Seq<char>)
    ensures
        forall|i: int| 0 <= i < sort_by_id(a, f).len() ==> a.contains(#[trigger] sort_by_id(a, f)[i]),
    decreases a.len(),
{
    if a.len() > 0 {
        let b = a.drop_last();
        lemma_sort_by_id_subset(b, f);
        let sb = sort_by_id(b, f);
        lemma_ins_sorted_subset(sb, a.last(), f);
        let r = sort_by_id(a, f);
        assert forall|i: int| 0 <= i < r.len() implies a.contains(#[trigger] r[i]) by {
            if r[i] == a.last() {
                assert(a[a.len() - 1] == r[i]);
            } else {
                let j = choose|j: int| 0 <= j < sb.len() && sb[j] == r[i];
                assert(b.contains(sb[j]));
                let m = choose|m: int| 0 <= m < b.len() && b[m] == sb[j];
                assert(a[m] == r[i]);
            }
        }
    }
}

proof fn lemma_sort_field_lack(j: SJson, arr: Seq<char>, f: Seq<char>, k: Seq<char>)
    requires
        lacks_key(j, k),
    ensures
        lacks_key(sort_field(j, arr, f), k),
{
    match j {
        SJson::Object(ps) => {
            assert(members_lack_key(ps, k));
            lemma_members_lack_index(ps, k);
            let r = sort_field(j, arr, f)->Object_0;
            assert forall|i: int| 0 <= i < r.len() implies #[trigger] r[i].0 != k && lacks_key(r[i].1, k) by {
                assert(ps[i].0 != k && lacks_key(ps[i].1, k));
                if ps[i].0 == arr && ps[i].1 is Array {
                    let a = ps[i].1->Array_0;
                    lemma_elems_lack_index(a, k);
                    lemma_sort_by_id_subset(a, f);
                    let sa = sort_by_id(a, f);
                    assert forall|x: int| 0 <= x < sa.len() implies lacks_key(#[trigger] sa[x], k) by {
                        assert(a.contains(sa[x]));
                        let m = choose|m: int| 0 <= m < a.len() && a[m] == sa[x];
                        assert(lacks_key(a[m], k));
                    }
                    lemma_elems_lack_index(sa, k);
                }
            }
            lemma_members_lack_index(r, k);
        },
        _ => {},
    }
}

/// The canonical JSON of a Plan IR has its object keys sorted, strictly, at
/// every depth, and holds no `meta` key at any depth.
pub proof fn lemma_canonical_plan_shape(ir: PlanIrV)
    ensures
        is_canonical(canonical_plan(ir)),
        lacks_key(canonical_plan(ir), "meta"@),
{
    let k = "meta"@;
    let j0 = strip_key(plan_json(ir), k);
    lemma_strip_key_lacks(plan_json(ir), k);
    let j1 = sort_field(j0, "nodes"@, "node_id"@);
    lemma_sort_field_lack(j0, "nodes"@, "node_id"@, k);
    let j2 = sort_field(j1, "edges"@, "edge_id"@);
    lemma_sort_field_lack(j1, "edges"@, "edge_id"@, k);
    let j3 = sort_field(j2, "goals"@, "goal_id"@);
    lemma_sort_field_lack(j2, "goals"@, "goal_id"@, k);
    let j4 = sort_field(j3, "subgraphs"@, "subgraph_id"@);
    lemma_sort_field_lack(j3, "subgraphs"@, "subgraph_id"@, k);
    lemma_canon_keeps_lack(j4, k);
    lemma_canon_is_canonical(j4);
}

/// The message of an IrError value.
pub open spec fn ir_message(e: IrErrorV) -> Seq<char> {
    match e {
        IrErrorV::UnsupportedVersion(x) => "unsupported conclave_ir_version: expected \"0.1\", got \""@ + x + "\""@,
        IrErrorV::DuplicateNodeId(x) => "duplicate node_id: "@ + x,
        IrErrorV::DuplicateEdgeId(x) => "duplicate edge_id: "@ + x,
        IrErrorV::EdgeReferencesUnknownNode { edge_id, node_id } => "edge "@ + edge_id + " references unknown node_id: "@ + node_id,
        IrErrorV::UnresolvedConstraintRef { ref_path } => "constraint ref "@ + ref_path + " does not resolve"@,
    }
}

impl IrError {
    /// The message of the error.
    pub fn to_string(&self) -> (s: String)
        ensures
            s@ == ir_message(self@),
    {
        match self {
            IrError::UnsupportedVersion(x) => {
                let mut s = String::from_str("unsupported conclave_ir_version: expected \"0.1\", got \"");
                push_str(&mut s, x.as_str());
                push_str(&mut s, "\"");
                s
            },
            IrError::DuplicateNodeId(x) => {
                let mut s = String::from_str("duplicate node_id: ");
                push_str(&mut s, x.as_str());
                s
            },
            IrError::DuplicateEdgeId(x) => {
                let mut s = String::from_str("duplicate edge_id: ");
                push_str(&mut s, x.as_str());
                s
            },
            IrError::EdgeReferencesUnknownNode { edge_id, node_id } => {
                let mut s = String::from_str("edge ");
                push_str(&mut s, edge_id.as_str());
                push_str(&mut s, " references unknown node_id: ");
                push_str(&mut s, node_id.as_str());
                s
            },
            IrError::UnresolvedConstraintRef { ref_path } => {
                let mut s = String::from_str("constraint ref ");
                push_str(&mut s, ref_path.as_str());
                push_str(&mut s, " does not resolve");
                s
            },
        }
    }
}

// ---------------------------------------------------------------------------
// Node ids depend on the node's attributes
// ---------------------------------------------------------------------------

/// The JSON of a node's attributes determines them: determinism profile,
/// cost hints and the position in a map expansion.
pub proof fn lemma_attrs_json_injective(a: NodeAttrsV, b: NodeAttrsV)
    requires
        attrs_json(a) == attrs_json(b),
    ensures
        a == b,
{
    reveal_strlit("replayable");
    reveal_strlit("fixed");
    reveal_strlit("nondet");
    reveal_strlit("cost_hints");
    reveal_strlit("url_index");
    reveal_strlit("determinism_profile");
    let pa = attrs_json(a)->Object_0;
    let pb = attrs_json(b)->Object_0;
    assert(pa.len() == pb.len());
    assert(pa[0] == pb[0]);
    assert(profile_name(a.determinism_profile).len() == profile_name(b.determinism_profile).len());
    let last = pa.len() - 1;
    assert(pa[last] == pb[last]);
    assert("cost_hints"@.len() != "url_index"@.len());
    assert("determinism_profile"@.len() != "url_index"@.len());
    assert("determinism_profile"@.len() != "cost_hints"@.len());
    if a.url_index is Some {
        assert(pa[last].0 == "url_index"@);
        assert(b.url_index is Some);
        if a.cost_hints is Some {
            assert(pa[1] == pb[1]);
            assert(pa[1].0 == "cost_hints"@);
            assert(b.cost_hints is Some);
        } else {
            assert(pa.len() == 2);
            assert(b.cost_hints is None);
        }
    } else {
        assert(b.url_index is None);
        if a.cost_hints is Some {
            assert(pa[last].0 == "cost_hints"@);
            assert(b.cost_hints is Some);
        } else {
            assert(b.cost_hints is None);
        }
    }
}

/// The body a node id is computed from determines the node's attributes:
/// nodes that differ in their attributes (such as the position of a map
/// expansion) have different id bodies.
pub proof fn lemma_node_id_body_determines_attrs(n1: NodeV, n2: NodeV)
    requires
        node_id_body(n1) == node_id_body(n2),
    ensures
        n1.attrs == n2.attrs,
{
    let p1 = node_id_body(n1)->Object_0;
    let p2 = node_id_body(n2)->Object_0;
    assert(p1[0] == p2[0]);
    lemma_attrs_json_injective(n1.attrs, n2.attrs);
}

} // verus!
