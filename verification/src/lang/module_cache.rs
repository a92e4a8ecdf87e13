//! A content-addressed store of Plan IRs, keyed by the 64 hexadecimal digits
//! of their `plan_ir_hash`.
//!
//! A stored Plan IR is held in the form that reading its canonical JSON back
//! yields: `meta` removed, nodes, edges, goals and subgraphs ordered by id,
//! constraint expressions key-sorted.  Reading and writing the files under
//! `root` is the caller's part.
use vstd::prelude::*;
use crate::ir::{
    Constraint, ConstraintV, Edge, EdgeV, Goal, GoalV, Node, NodeV, PlanIr, PlanIrV, Subgraph, SubgraphV,
};
use crate::ir::{
    node_json, edge_json, goal_json, subgraph_json, constraint_json, constraint_expr_json, plan_json, jstr,
    string_map_json, typedef_json, TypeDefV,
};
use crate::ir::canonical::{
    compute_plan_ir_hash, plan_hash, canonical_plan, id_of, sort_field, without_meta, lemma_node_meta_stripped,
};
use crate::ir::order::{
    lemma_presorted_array, lemma_strip_members_no_key, lemma_node_json_id, lemma_edge_json_id, lemma_goal_json_id,
    lemma_subgraph_json_id,
};
use crate::json::{
    SJson, canon, canonicalize, remove_field_recursive, strip_key, strip_members, lemma_strip_key_lacks,
    lemma_canon_keeps_lack, lemma_strip_lacking, lemma_canon_idempotent, lemma_canon_members_congruent,
    lemma_strip_members_congruent, lemma_strip_members_append,
};
use crate::lang::lowering::{cache_lookup, hash_key, lemma_lookup_after_store};
use crate::text::{lemma_ins_key_at, seq_lt, sort_key, str_eq, str_lt};

verus! {

// ---------------------------------------------------------------------------
// Ordering values by id
// ---------------------------------------------------------------------------

/// A value that carries a string id.
pub trait HasId: View + Sized {
    spec fn id_view(v: Self::V) -> Seq<char>;

    fn id(&self) -> (r: &str)
        ensures
            r@ == Self::id_view(self@),
    ;
}

/// The id of a model, as a key function.
pub open spec fn id_key<T: HasId>() -> spec_fn(T::V) -> Seq<char> {
    |v: T::V| T::id_view(v)
}

impl HasId for Node {
    open spec fn id_view(v: NodeV) -> Seq<char> {
        v.node_id
    }

    fn id(&self) -> (r: &str) {
        self.node_id.as_str()
    }
}

impl HasId for Edge {
    open spec fn id_view(v: EdgeV) -> Seq<char> {
        v.edge_id
    }

    fn id(&self) -> (r: &str) {
        self.edge_id.as_str()
    }
}

impl HasId for Goal {
    open spec fn id_view(v: GoalV) -> Seq<char> {
        v.goal_id
    }

    fn id(&self) -> (r: &str) {
        self.goal_id.as_str()
    }
}

impl HasId for Subgraph {
    open spec fn id_view(v: SubgraphV) -> Seq<char> {
        v.subgraph_id
    }

    fn id(&self) -> (r: &str) {
        self.subgraph_id.as_str()
    }
}

impl HasId for (String, String) {
    open spec fn id_view(v: (Seq<char>, Seq<char>)) -> Seq<char> {
        v.0
    }

    fn id(&self) -> (r: &str) {
        self.0.as_str()
    }
}

/// The stable sort of a list by id.
pub fn sort_by_id_exec<T: HasId>(v: Vec<T>) -> (r: Vec<T>)
    ensures
        r@.map_values(|x: T| x@) == sort_key(v@.map_values(|x: T| x@), id_key::<T>()),
{
    let ghost orig = v@.map_values(|x: T| x@);
    let mut rest = v;
    let mut out: Vec<T> = Vec::new();
    let ghost mut i: int = 0;
    assert(orig.skip(0) =~= orig);
    assert(out@.map_values(|x: T| x@) =~= sort_key(orig.take(0), id_key::<T>()));
    while rest.len() > 0
        invariant
            0 <= i <= orig.len(),
            rest@.map_values(|x: T| x@) == orig.skip(i),
            out@.map_values(|x: T| x@) == sort_key(orig.take(i), id_key::<T>()),
        decreases rest@.len(),
    {
        let ghost ov = out@.map_values(|x: T| x@);
        assert(rest@.map_values(|x: T| x@).len() == rest@.len());
        assert(orig.skip(i)[0] == rest@[0]@);
        let ghost x0 = rest@[0]@;
        let ghost old_rest = rest@;
        let x = rest.remove(0);
        assert(rest@ =~= old_rest.subrange(1, old_rest.len() as int));
        assert(orig[i] == x0);
        let mut j: usize = out.len();
        while j > 0 && str_lt(x.id(), out[j - 1].id())
            invariant
                j <= out@.len(),
                ov == out@.map_values(|x: T| x@),
                x@ == x0,
                forall|k: int| j <= k < ov.len() ==> seq_lt(T::id_view(x0), #[trigger] id_key::<T>()(ov[k])),
            decreases j,
        {
            assert(ov[j - 1] == out@[j - 1]@);
            j -= 1;
        }
        proof {
            if j > 0 {
                assert(ov[j - 1] == out@[j - 1]@);
            }
            assert(id_key::<T>()(x0) == T::id_view(x0));
            lemma_ins_key_at(ov, x0, id_key::<T>(), j as int);
            assert(orig.take(i + 1).drop_last() =~= orig.take(i));
            assert(orig.take(i + 1).last() == x0);
        }
        out.insert(j, x);
        proof {
            assert(out@.map_values(|x: T| x@) =~= ov.take(j as int).push(x0) + ov.skip(j as int));
            assert forall|k: int| 0 <= k < rest@.len() implies rest@.map_values(|x: T| x@)[k] == #[trigger] orig.skip(i + 1)[k] by {
                assert(old_rest.map_values(|x: T| x@)[k + 1] == orig.skip(i)[k + 1]);
            }
            assert(rest@.map_values(|x: T| x@) =~= orig.skip(i + 1));
            i = i + 1;
        }
    }
    assert(orig.take(i) =~= orig);
    out
}

// ---------------------------------------------------------------------------
// The stored form of a Plan IR
// ---------------------------------------------------------------------------

/// A node as read back from canonical JSON: without `meta`.
pub open spec fn stored_node(n: NodeV) -> NodeV {
    NodeV { meta: None, ..n }
}

/// A constraint as read back from canonical JSON: its expression without
/// `meta` members and with sorted keys.
pub open spec fn stored_constraint(c: ConstraintV) -> ConstraintV {
    ConstraintV { ast: canon(strip_key(c.ast, "meta"@)), ..c }
}

/// A Plan IR as read back from its canonical JSON.
pub open spec fn stored_form(ir: PlanIrV) -> PlanIrV {
    PlanIrV {
        goals: sort_key(ir.goals, id_key::<Goal>()),
        nodes: sort_key(ir.nodes.map_values(|n: NodeV| stored_node(n)), id_key::<Node>()),
        edges: sort_key(ir.edges, id_key::<Edge>()),
        constraints: ir.constraints.map_values(|p: (Seq<char>, ConstraintV)| (p.0, stored_constraint(p.1))),
        subgraphs: sort_key(ir.subgraphs, id_key::<Subgraph>()),
        ..ir
    }
}

proof fn lemma_stored_constraint_canon(c: ConstraintV)
    ensures
        canon(strip_key(constraint_json(stored_constraint(c)), "meta"@))
            == canon(strip_key(constraint_json(c), "meta"@)),
{
    let k = "meta"@;
    reveal_strlit("meta");
    reveal_strlit("constraint_id");
    reveal_strlit("scope");
    reveal_strlit("expr");
    reveal_strlit("lang");
    reveal_strlit("ast");
    let sc = stored_constraint(c);
    let y = strip_key(c.ast, k);
    lemma_strip_key_lacks(c.ast, k);
    lemma_canon_keeps_lack(y, k);
    lemma_strip_lacking(canon(y), k);
    lemma_canon_idempotent(y);
    assert("expr"@[0] != "meta"@[0] && "lang"@[0] != "meta"@[0] && "ast"@.len() != "meta"@.len());
    assert("scope"@.len() != "meta"@.len() && "constraint_id"@.len() != "meta"@.len());
    // The expression objects.
    let e1 = constraint_expr_json(sc)->Object_0;
    let e2 = constraint_expr_json(c)->Object_0;
    lemma_strip_members_no_key(e1, k);
    lemma_strip_members_no_key(e2, k);
    lemma_canon_members_congruent(strip_members(e1, k), strip_members(e2, k));
    // The constraint objects.
    let m1 = constraint_json(sc)->Object_0;
    let m2 = constraint_json(c)->Object_0;
    lemma_strip_members_no_key(m1, k);
    lemma_strip_members_no_key(m2, k);
    assert(strip_key(constraint_expr_json(sc), k) == SJson::Object(strip_members(e1, k)));
    assert(strip_key(constraint_expr_json(c), k) == SJson::Object(strip_members(e2, k)));
    lemma_canon_members_congruent(strip_members(m1, k), strip_members(m2, k));
}

/// What the cache stores of a Plan IR has that Plan IR's hash: reading a
/// module back under the hash that `put` returned gives a Plan IR with that
/// very hash.
pub proof fn lemma_stored_form_keeps_hash(ir: PlanIrV)
    ensures
        plan_hash(stored_form(ir)) == plan_hash(ir),
{
    let st = stored_form(ir);
    let k = "meta"@;
    reveal_strlit("meta");
    reveal_strlit("goals");
    reveal_strlit("nodes");
    reveal_strlit("edges");
    reveal_strlit("constraints");
    reveal_strlit("subgraphs");
    reveal_strlit("exports");
    reveal_strlit("node_id");
    reveal_strlit("edge_id");
    reveal_strlit("goal_id");
    reveal_strlit("subgraph_id");
    // The four sorted lists.
    assert forall|n: NodeV| #[trigger] id_of(strip_key(node_json(n), k), "node_id"@) == (id_key::<Node>())(n) by {
        lemma_node_json_id(n);
    }
    assert forall|e: EdgeV| #[trigger] id_of(strip_key(edge_json(e), k), "edge_id"@) == (id_key::<Edge>())(e) by {
        lemma_edge_json_id(e);
    }
    assert forall|g: GoalV| #[trigger] id_of(strip_key(goal_json(g), k), "goal_id"@) == (id_key::<Goal>())(g) by {
        lemma_goal_json_id(g);
    }
    assert forall|x: SubgraphV| #[trigger] id_of(strip_key(subgraph_json(x), k), "subgraph_id"@) == (id_key::<Subgraph>())(x) by {
        lemma_subgraph_json_id(x);
    }
    let sn = ir.nodes.map_values(|n: NodeV| stored_node(n));
    assert forall|i: int| 0 <= i < ir.nodes.len() implies #[trigger] strip_key(node_json(sn[i]), k) == strip_key(node_json(ir.nodes[i]), k) by {
        lemma_node_meta_stripped(ir.nodes[i]);
        assert(sn[i] == without_meta(ir.nodes[i]));
    }
    lemma_presorted_array(ir.nodes, sn, id_key::<Node>(), |n: NodeV| node_json(n), "node_id"@);
    lemma_presorted_array(ir.edges, ir.edges, id_key::<Edge>(), |e: EdgeV| edge_json(e), "edge_id"@);
    lemma_presorted_array(ir.goals, ir.goals, id_key::<Goal>(), |g: GoalV| goal_json(g), "goal_id"@);
    lemma_presorted_array(ir.subgraphs, ir.subgraphs, id_key::<Subgraph>(), |x: SubgraphV| subgraph_json(x), "subgraph_id"@);
    // The constraint maps.
    let cm1 = st.constraints.map_values(|p: (Seq<char>, ConstraintV)| (p.0, constraint_json(p.1)));
    let cm2 = ir.constraints.map_values(|p: (Seq<char>, ConstraintV)| (p.0, constraint_json(p.1)));
    assert forall|i: int| #![trigger cm1[i]] #![trigger cm2[i]] 0 <= i < cm1.len() implies cm1[i].0 == cm2[i].0
        && canon(strip_key(cm1[i].1, k)) == canon(strip_key(cm2[i].1, k)) by {
        lemma_stored_constraint_canon(ir.constraints[i].1);
    }
    lemma_strip_members_congruent(cm1, cm2, k);
    lemma_canon_members_congruent(strip_members(cm1, k), strip_members(cm2, k));
    // The members of the two plans.
    let h0 = seq![
        ("conclave_ir_version"@, jstr(ir.version)),
        ("module"@, SJson::Object(seq![("name"@, jstr(ir.module_name)), ("source_fingerprint"@, jstr(ir.source_fingerprint))])),
    ] + (if ir.imports.len() == 0 { Seq::empty() } else { seq![("imports"@, string_map_json(ir.imports))] }) + seq![
        ("types"@, SJson::Object(ir.types.map_values(|p: (Seq<char>, TypeDefV)| (p.0, typedef_json(p.1))))),
    ];
    let exps = ("exports"@, SJson::Object(seq![("entry_goal"@, jstr(ir.entry_goal))]));
    let t1 = seq![
        ("goals"@, SJson::Array(st.goals.map_values(|g: GoalV| goal_json(g)))),
        ("nodes"@, SJson::Array(st.nodes.map_values(|n: NodeV| node_json(n)))),
        ("edges"@, SJson::Array(st.edges.map_values(|e: EdgeV| edge_json(e)))),
        ("constraints"@, SJson::Object(cm1)),
        ("subgraphs"@, SJson::Array(st.subgraphs.map_values(|x: SubgraphV| subgraph_json(x)))),
        exps,
    ];
    let t2 = seq![
        ("goals"@, SJson::Array(ir.goals.map_values(|g: GoalV| goal_json(g)))),
        ("nodes"@, SJson::Array(ir.nodes.map_values(|n: NodeV| node_json(n)))),
        ("edges"@, SJson::Array(ir.edges.map_values(|e: EdgeV| edge_json(e)))),
        ("constraints"@, SJson::Object(cm2)),
        ("subgraphs"@, SJson::Array(ir.subgraphs.map_values(|x: SubgraphV| subgraph_json(x)))),
        exps,
    ];
    assert(plan_json(st)->Object_0 =~= h0 + t1);
    assert(plan_json(ir)->Object_0 =~= h0 + t2);
    lemma_strip_members_append(h0, t1, k);
    lemma_strip_members_append(h0, t2, k);
    assert("goals"@[0] != "meta"@[0] && "nodes"@[0] != "meta"@[0] && "edges"@[0] != "meta"@[0]);
    assert("constraints"@[0] != "meta"@[0] && "subgraphs"@[0] != "meta"@[0] && "exports"@[0] != "meta"@[0]);
    lemma_strip_members_no_key(t1, k);
    lemma_strip_members_no_key(t2, k);
    let s0 = strip_members(h0, k);
    let p1 = s0 + strip_members(t1, k);
    let p2 = s0 + strip_members(t2, k);
    assert(strip_key(plan_json(st), k) == SJson::Object(p1));
    assert(strip_key(plan_json(ir), k) == SJson::Object(p2));
    assert("goals"@[0] != "nodes"@[0] && "goals"@[0] != "edges"@[0] && "nodes"@[0] != "edges"@[0]);
    assert("subgraphs"@.len() != "nodes"@.len() && "subgraphs"@.len() != "edges"@.len() && "subgraphs"@.len() != "goals"@.len());
    assert("constraints"@.len() != "nodes"@.len() && "constraints"@.len() != "edges"@.len());
    assert("constraints"@.len() != "goals"@.len() && "constraints"@.len() != "subgraphs"@.len());
    assert("exports"@.len() != "nodes"@.len() && "exports"@.len() != "edges"@.len());
    assert("exports"@.len() != "goals"@.len() && "exports"@.len() != "subgraphs"@.len());
    let r1 = sort_field(sort_field(sort_field(sort_field(SJson::Object(p1), "nodes"@, "node_id"@), "edges"@, "edge_id"@), "goals"@, "goal_id"@), "subgraphs"@, "subgraph_id"@);
    let r2 = sort_field(sort_field(sort_field(sort_field(SJson::Object(p2), "nodes"@, "node_id"@), "edges"@, "edge_id"@), "goals"@, "goal_id"@), "subgraphs"@, "subgraph_id"@);
    let q1 = r1->Object_0;
    let q2 = r2->Object_0;
    assert(q1.len() == q2.len());
    assert forall|i: int| #![trigger q1[i]] #![trigger q2[i]] 0 <= i < q1.len() implies q1[i].0 == q2[i].0 && canon(q1[i].1) == canon(q2[i].1) by {
        if i >= s0.len() {
            let t = i - s0.len();
            assert(p1[i] == strip_members(t1, k)[t]);
            assert(p2[i] == strip_members(t2, k)[t]);
        } else {
            assert(p1[i] == p2[i]);
        }
    }
    lemma_canon_members_congruent(q1, q2);
    assert(canonical_plan(st) == canonical_plan(ir));
}

/// Putting a Plan IR into the cache and then getting it under the hash that
/// `put` returned gives a Plan IR whose hash is that hash.
pub proof fn lemma_put_then_get(entries: Seq<(Seq<char>, PlanIrV)>, ir: PlanIrV)
    ensures
        cache_lookup(entries.push((hash_key(plan_hash(ir)), stored_form(ir))), hash_key(plan_hash(ir)))
            == Some(stored_form(ir)),
        plan_hash(stored_form(ir)) == plan_hash(ir),
{
    lemma_lookup_after_store(entries, plan_hash(ir), stored_form(ir));
    lemma_stored_form_keeps_hash(ir);
}

fn stored_nodes(nodes: Vec<Node>) -> (r: Vec<Node>)
    ensures
        r@.map_values(|n: Node| n@) == nodes@.map_values(|n: Node| n@).map_values(|n: NodeV| stored_node(n)),
{
    let ghost orig = nodes@.map_values(|n: Node| n@).map_values(|n: NodeV| stored_node(n));
    let ghost all = nodes@;
    let mut rest = nodes;
    let mut out: Vec<Node> = Vec::new();
    let ghost mut i: int = 0;
    assert(all.skip(0) =~= all);
    while rest.len() > 0
        invariant
            0 <= i <= all.len(),
            orig.len() == all.len(),
            forall|k: int| 0 <= k < all.len() ==> #[trigger] orig[k] == stored_node(all[k]@),
            rest@ == all.skip(i),
            out@.map_values(|n: Node| n@) == orig.take(i),
        decreases rest@.len(),
    {
        let ghost old_rest = rest@;
        let mut n = rest.remove(0);
        assert(rest@ =~= all.skip(i + 1));
        assert(n == all[i]);
        n.meta = None;
        let ghost before = out@.map_values(|n: Node| n@);
        let ghost nv = n@;
        out.push(n);
        proof {
            assert(nv == orig[i]);
            assert(out@.map_values(|n: Node| n@) =~= before.push(nv));
            assert(orig.take(i + 1) =~= orig.take(i).push(orig[i]));
            i = i + 1;
        }
    }
    assert(orig.take(i) =~= orig);
    out
}

fn stored_constraints(cs: Vec<(String, Constraint)>) -> (r: Vec<(String, Constraint)>)
    ensures
        r@.map_values(|p: (String, Constraint)| (p.0@, p.1@)) == cs@.map_values(|p: (String, Constraint)| (p.0@, p.1@)).map_values(
            |p: (Seq<char>, ConstraintV)| (p.0, stored_constraint(p.1)),
        ),
{
    let ghost orig = cs@.map_values(|p: (String, Constraint)| (p.0@, p.1@)).map_values(
        |p: (Seq<char>, ConstraintV)| (p.0, stored_constraint(p.1)),
    );
    let ghost all = cs@;
    let mut rest = cs;
    let mut out: Vec<(String, Constraint)> = Vec::new();
    let ghost mut i: int = 0;
    assert(all.skip(0) =~= all);
    while rest.len() > 0
        invariant
            0 <= i <= all.len(),
            orig.len() == all.len(),
            forall|k: int| 0 <= k < all.len() ==> #[trigger] orig[k] == (all[k].0@, stored_constraint(all[k].1@)),
            rest@ == all.skip(i),
            out@.map_values(|p: (String, Constraint)| (p.0@, p.1@)) == orig.take(i),
        decreases rest@.len(),
    {
        let (k, mut c) = rest.remove(0);
        assert(rest@ =~= all.skip(i + 1));
        assert(k == all[i].0 && c == all[i].1);
        remove_field_recursive(&mut c.expr.ast, "meta");
        c.expr.ast = canonicalize(&c.expr.ast);
        let ghost before = out@.map_values(|p: (String, Constraint)| (p.0@, p.1@));
        let ghost pv = (k@, c@);
        out.push((k, c));
        proof {
            assert(pv == orig[i]);
            assert(out@.map_values(|p: (String, Constraint)| (p.0@, p.1@)) =~= before.push(pv));
            assert(orig.take(i + 1) =~= orig.take(i).push(orig[i]));
            i = i + 1;
        }
    }
    assert(orig.take(i) =~= orig);
    out
}

/// The Plan IR in the form that reading back its canonical JSON yields.
pub fn stored_plan(ir: PlanIr) -> (r: PlanIr)
    ensures
        r@ == stored_form(ir@),
{
    let ghost iv = ir@;
    let PlanIr { conclave_ir_version, module, imports, types, goals, nodes, edges, constraints, subgraphs, exports } = ir;
    let nodes = stored_nodes(nodes);
    let r = PlanIr {
        conclave_ir_version,
        module,
        imports,
        types,
        goals: sort_by_id_exec(goals),
        nodes: sort_by_id_exec(nodes),
        edges: sort_by_id_exec(edges),
        constraints: stored_constraints(constraints),
        subgraphs: sort_by_id_exec(subgraphs),
        exports,
    };
    assert(r@ == stored_form(iv));
    r
}

// ---------------------------------------------------------------------------
// The cache
// ---------------------------------------------------------------------------

/// Faults of the module cache.  Reading and writing files is the caller's
/// part; it reports its faults as `Io` and `Json` with their messages.
#[derive(Debug, Clone, PartialEq, Eq)]
pub enum ModuleCacheError {
    Io(String),
    Json(String),
    NotFound(String),
}

impl ModuleCacheError {
    /// The message of the error.
    pub fn to_string(&self) -> (s: String)
        ensures
            s@ == match self {
                ModuleCacheError::Io(m) => "IO error: "@ + m@,
                ModuleCacheError::Json(m) => "JSON parse error: "@ + m@,
                ModuleCacheError::NotFound(h) => "module not found in cache: "@ + h@,
            },
    {
        let (head, tail) = match self {
            ModuleCacheError::Io(m) => ("IO error: ", m),
            ModuleCacheError::Json(m) => ("JSON parse error: ", m),
            ModuleCacheError::NotFound(h) => ("module not found in cache: ", h),
        };
        let mut s = String::from_str(head);
        crate::text::push_str(&mut s, tail.as_str());
        s
    }
}

/// The hexadecimal part of a hash text: `sha256:<hex>` or a bare `<hex>`.
pub fn hash_hex(hash: &str) -> (r: String)
    ensures
        r@ == hash_key(hash@),
{
    let n = hash.unicode_len();
    if n >= 7 {
        let head = hash.substring_char(0, 7);
        if str_eq(head, "sha256:") {
            assert(hash@.take(7) =~= hash@.subrange(0, 7));
            let tail = hash.substring_char(7, n);
            assert(tail@ =~= hash@.skip(7));
            return String::from_str(tail);
        }
        assert(hash@.take(7) =~= hash@.subrange(0, 7));
    }
    String::from_str(hash)
}

/// Plan IRs by the hexadecimal digits of their `plan_ir_hash`; `root` is
/// the directory whose `<hex>.json` files hold them.
pub struct ModuleCache {
    pub root: String,
    pub entries: Vec<(String, PlanIr)>,
}

impl ModuleCache {
    /// The stored (hex, Plan IR) pairs, oldest first; a later pair of the same
    /// hex replaces an earlier one.
    pub open spec fn entries(&self) -> Seq<(Seq<char>, PlanIrV)> {
        self.entries@.map_values(|p: (String, PlanIr)| (p.0@, p.1@))
    }

    /// An empty cache over `root`.
    pub fn new(root: String) -> (c: ModuleCache)
        ensures
            c.root == root,
            c.entries() == Seq::<(Seq<char>, PlanIrV)>::empty(),
    {
        let c = ModuleCache { root, entries: Vec::new() };
        assert(c.entries() =~= Seq::<(Seq<char>, PlanIrV)>::empty());
        c
    }

    /// Records a Plan IR read from `<root>/<hex>.json`.
    pub fn insert(&mut self, hex: String, plan_ir: PlanIr)
        ensures
            final(self).root == old(self).root,
            final(self).entries() == old(self).entries().push((hex@, plan_ir@)),
    {
        let ghost before = self.entries();
        let ghost pv = (hex@, plan_ir@);
        self.entries.push((hex, plan_ir));
        assert(self.entries() =~= before.push(pv));
    }

    /// The Plan IR stored under a hash (`sha256:<hex>` or bare `<hex>`).
    pub fn get(&self, hash: &str) -> (r: Option<&PlanIr>)
        ensures
            match cache_lookup(self.entries(), hash_key(hash@)) {
                Some(ir) => r matches Some(x) && x@ == ir,
                None => r is None,
            },
    {
        let hex = hash_hex(hash);
        let ghost v = self.entries();
        let mut i: usize = self.entries.len();
        assert(v.take(i as int) =~= v);
        while i > 0
            invariant
                i <= self.entries@.len(),
                v == self.entries(),
                v.len() == self.entries@.len(),
                hex@ == hash_key(hash@),
                cache_lookup(v, hex@) == cache_lookup(v.take(i as int), hex@),
            decreases i,
        {
            assert(v.take(i as int).drop_last() =~= v.take(i - 1));
            assert(v.take(i as int).last() == (self.entries@[i - 1].0@, self.entries@[i - 1].1@));
            if str_eq(self.entries[i - 1].0.as_str(), hex.as_str()) {
                return Some(&self.entries[i - 1].1);
            }
            i -= 1;
        }
        None
    }

    /// The Plan IR stored under a hash, or `NotFound(hash)`.
    pub fn require(&self, hash: &str) -> (r: Result<&PlanIr, ModuleCacheError>)
        ensures
            match cache_lookup(self.entries(), hash_key(hash@)) {
                Some(ir) => r matches Ok(x) && x@ == ir,
                None => r matches Err(ModuleCacheError::NotFound(h)) && h@ == hash@,
            },
    {
        match self.get(hash) {
            Some(ir) => Ok(ir),
            None => Err(ModuleCacheError::NotFound(String::from_str(hash))),
        }
    }

    /// Stores a Plan IR under its `plan_ir_hash` and returns that hash
    /// (`sha256:<hex>`).
    pub fn put(&mut self, plan_ir: PlanIr) -> (r: String)
        ensures
            r@ == plan_hash(plan_ir@),
            final(self).root == old(self).root,
            final(self).entries() == old(self).entries().push((hash_key(r@), stored_form(plan_ir@))),
    {
        let hash = compute_plan_ir_hash(&plan_ir).to_string();
        let hex = hash_hex(hash.as_str());
        let stored = stored_plan(plan_ir);
        self.insert(hex, stored);
        hash
    }
}

// ---------------------------------------------------------------------------
// Listing
// ---------------------------------------------------------------------------

/// The listing entry of a cached file `<stem>.json` holding `text`: its
/// hash and the first 60 characters of its text.
pub open spec fn listing_entry(stem: Seq<char>, text: Seq<char>) -> (Seq<char>, Seq<char>) {
    ("sha256:"@ + stem, if text.len() <= 60 { text } else { text.take(60) })
}

/// The listing of the cached files, given as (stem, text) pairs: one entry
/// per file, ordered by hash (files of equal hash keep their order).
pub fn module_listing(files: &Vec<(String, String)>) -> (r: Vec<(String, String)>)
    ensures
        r@.map_values(|e: (String, String)| e@) == sort_key(
            files@.map_values(|f: (String, String)| listing_entry(f.0@, f.1@)),
            id_key::<(String, String)>(),
        ),
{
    let ghost target = files@.map_values(|f: (String, String)| listing_entry(f.0@, f.1@));
    let mut entries: Vec<(String, String)> = Vec::new();
    let mut i: usize = 0;
    while i < files.len()
        invariant
            i <= files@.len(),
            target == files@.map_values(|f: (String, String)| listing_entry(f.0@, f.1@)),
            entries@.map_values(|e: (String, String)| e@) == target.take(i as int),
        decreases files@.len() - i,
    {
        let mut hash = String::from_str("sha256:");
        crate::text::push_str(&mut hash, files[i].0.as_str());
        let text = files[i].1.as_str();
        let n = text.unicode_len();
        let preview = if n <= 60 { String::from_str(text) } else { String::from_str(text.substring_char(0, 60)) };
        let ghost before = entries@.map_values(|e: (String, String)| e@);
        proof {
            reveal_strlit("sha256:");
            assert(text@.subrange(0, 60) =~= text@.take(60));
        }
        assert((hash@, preview@) == target[i as int]);
        entries.push((hash, preview));
        assert(entries@.map_values(|e: (String, String)| e@) =~= before.push(target[i as int]));
        assert(target.take(i + 1) =~= target.take(i as int).push(target[i as int]));
        i += 1;
    }
    assert(target.take(target.len() as int) =~= target);
    sort_by_id_exec(entries)
}

} // verus!
