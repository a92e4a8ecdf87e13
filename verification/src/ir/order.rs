//! The plan hash does not depend on the order in which nodes, edges, goals
//! and subgraphs are listed: canonicalization sorts them by their ids.
use vstd::prelude::*;
use crate::ir::canonical::{id_of, ins_sorted, sort_by_id, sort_field, obj_lookup, canonical_plan, plan_hash};
use crate::ir::{
    NodeV, EdgeV, GoalV, SubgraphV, PlanIrV, TypeDefV, ConstraintV, node_json, edge_json, goal_json,
    subgraph_json, plan_json, jstr, string_map_json, typedef_json, constraint_json,
};
use crate::json::{SJson, canon, strip_key, strip_members, strip_elems, lemma_strip_members_append, lemma_strip_elems_index};
use crate::text::{
    seq_lt, lemma_seq_lt_irreflexive, lemma_seq_lt_transitive, lemma_seq_lt_total, ins_key, sort_key,
    lemma_sort_key_sorted, lemma_sort_key_sorted_id,
};

verus! {

/// No two elements share an id under key `f`.
pub open spec fn ids_distinct(a: Seq<SJson>, f: Seq<char>) -> bool {
    forall|i: int, j: int| 0 <= i < j < a.len() ==> #[trigger] id_of(a[i], f) != #[trigger] id_of(a[j], f)
}

/// Ids under key `f` strictly increase along the list.
pub open spec fn ids_increasing(a: Seq<SJson>, f: Seq<char>) -> bool {
    forall|i: int, j: int| 0 <= i < j < a.len() ==> seq_lt(#[trigger] id_of(a[i], f), #[trigger] id_of(a[j], f))
}

/// The two lists hold the same elements.
pub open spec fn same_elements(a: Seq<SJson>, b: Seq<SJson>) -> bool {
    forall|m: SJson| #![trigger a.contains(m)] #![trigger b.contains(m)] a.contains(m) <==> b.contains(m)
}

proof fn lemma_ins_sorted(a: Seq<SJson>, x: SJson, f: Seq<char>)
    requires
        ids_increasing(a, f),
        forall|k: int| 0 <= k < a.len() ==> #[trigger] id_of(a[k], f) != id_of(x, f),
    ensures
        ids_increasing(ins_sorted(a, x, f), f),
        forall|m: SJson| #[trigger] ins_sorted(a, x, f).contains(m) <==> (a.contains(m) || m == x),
    decreases a.len(),
{
    let r = ins_sorted(a, x, f);
    if a.len() == 0 {
        assert(r =~= seq![x]);
        assert forall|m: SJson| #[trigger] r.contains(m) <==> (a.contains(m) || m == x) by {
            if r.contains(m) {
                let i = choose|i: int| 0 <= i < r.len() && r[i] == m;
            }
            if m == x {
                assert(r[0] == m);
            }
        }
    } else if seq_lt(id_of(x, f), id_of(a.last(), f)) {
        let b = a.drop_last();
        assert(ids_increasing(b, f)) by {
            assert forall|i: int, j: int| 0 <= i < j < b.len() implies seq_lt(#[trigger] id_of(b[i], f), #[trigger] id_of(b[j], f)) by {
                assert(b[i] == a[i] && b[j] == a[j]);
            }
        }
        assert forall|k: int| 0 <= k < b.len() implies #[trigger] id_of(b[k], f) != id_of(x, f) by {
            assert(b[k] == a[k]);
        }
        lemma_ins_sorted(b, x, f);
        let rb = ins_sorted(b, x, f);
        assert(r == rb.push(a.last()));
        assert forall|i: int, j: int| 0 <= i < j < r.len() implies seq_lt(#[trigger] id_of(r[i], f), #[trigger] id_of(r[j], f)) by {
            if j == r.len() - 1 {
                assert(r[j] == a.last());
                assert(r[i] == rb[i]);
                assert(rb.contains(rb[i]));
                if rb[i] == x {
                } else {
                    let k = choose|k: int| 0 <= k < b.len() && b[k] == rb[i];
                    assert(a[k] == b[k]);
                    assert(seq_lt(id_of(a[k], f), id_of(a[a.len() - 1], f)));
                }
            } else {
                assert(r[i] == rb[i] && r[j] == rb[j]);
            }
        }
        assert forall|m: SJson| #[trigger] r.contains(m) <==> (a.contains(m) || m == x) by {
            if r.contains(m) {
                let i = choose|i: int| 0 <= i < r.len() && r[i] == m;
                if i < rb.len() {
                    assert(rb[i] == m);
                    assert(rb.contains(m));
                    if b.contains(m) {
                        let k = choose|k: int| 0 <= k < b.len() && b[k] == m;
                        assert(a[k] == m);
                    }
                } else {
                    assert(a[a.len() - 1] == m);
                }
            }
            if a.contains(m) {
                let k = choose|k: int| 0 <= k < a.len() && a[k] == m;
                if k < b.len() {
                    assert(b[k] == m);
                    assert(b.contains(m));
                    assert(rb.contains(m));
                    let i = choose|i: int| 0 <= i < rb.len() && rb[i] == m;
                    assert(r[i] == m);
                } else {
                    assert(r[r.len() - 1] == m);
                }
            }
            if m == x {
                assert(rb.contains(m));
                let i = choose|i: int| 0 <= i < rb.len() && rb[i] == m;
                assert(r[i] == m);
            }
        }
    } else {
        assert(r == a.push(x));
        assert(id_of(a.last(), f) != id_of(x, f));
        lemma_seq_lt_total(id_of(a.last(), f), id_of(x, f));
        assert forall|i: int, j: int| 0 <= i < j < r.len() implies seq_lt(#[trigger] id_of(r[i], f), #[trigger] id_of(r[j], f)) by {
            if j == r.len() - 1 {
                assert(r[i] == a[i]);
                if i < a.len() - 1 {
                    lemma_seq_lt_transitive(id_of(a[i], f), id_of(a[a.len() - 1], f), id_of(x, f));
                }
            } else {
                assert(r[i] == a[i] && r[j] == a[j]);
            }
        }
        assert forall|m: SJson| #[trigger] r.contains(m) <==> (a.contains(m) || m == x) by {
            if r.contains(m) {
                let i = choose|i: int| 0 <= i < r.len() && r[i] == m;
                if i < a.len() {
                    assert(a[i] == m);
                }
            }
            if a.contains(m) {
                let k = choose|k: int| 0 <= k < a.len() && a[k] == m;
                assert(r[k] == m);
            }
            if m == x {
                assert(r[a.len() as int] == m);
            }
        }
    }
}

proof fn lemma_sort_by_id(a: Seq<SJson>, f: Seq<char>)
    requires
        ids_distinct(a, f),
    ensures
        ids_increasing(sort_by_id(a, f), f),
        forall|m: SJson| #[trigger] sort_by_id(a, f).contains(m) <==> a.contains(m),
    decreases a.len(),
{
    if a.len() > 0 {
        let b = a.drop_last();
        let x = a.last();
        assert(ids_distinct(b, f)) by {
            assert forall|i: int, j: int| 0 <= i < j < b.len() implies #[trigger] id_of(b[i], f) != #[trigger] id_of(b[j], f) by {
                assert(b[i] == a[i] && b[j] == a[j]);
            }
        }
        lemma_sort_by_id(b, f);
        let sb = sort_by_id(b, f);
        assert forall|k: int| 0 <= k < sb.len() implies #[trigger] id_of(sb[k], f) != id_of(x, f) by {
            assert(sb.contains(sb[k]));
            assert(b.contains(sb[k]));
            let j = choose|j: int| 0 <= j < b.len() && b[j] == sb[k];
            assert(a[j] == b[j]);
            assert(id_of(a[j], f) != id_of(a[a.len() - 1], f));
        }
        lemma_ins_sorted(sb, x, f);
        assert forall|m: SJson| #[trigger] sort_by_id(a, f).contains(m) <==> a.contains(m) by {
            if a.contains(m) {
                let k = choose|k: int| 0 <= k < a.len() && a[k] == m;
                if k < b.len() {
                    assert(b[k] == m);
                    assert(b.contains(m));
                }
            }
            if b.contains(m) {
                let k = choose|k: int| 0 <= k < b.len() && b[k] == m;
                assert(a[k] == m);
            }
        }
    }
}

proof fn lemma_increasing_unique(a: Seq<SJson>, b: Seq<SJson>, f: Seq<char>)
    requires
        ids_increasing(a, f),
        ids_increasing(b, f),
        same_elements(a, b),
    ensures
        a == b,
    decreases a.len() + b.len(),
{
    if a.len() == 0 {
        if b.len() > 0 {
            assert(b.contains(b[0]));
        }
        assert(a =~= b);
    } else if b.len() == 0 {
        assert(a.contains(a[0]));
    } else {
        assert(a.contains(a[0]));
        assert(b.contains(b[0]));
        let j = choose|j: int| 0 <= j < b.len() && b[j] == a[0];
        let i = choose|i: int| 0 <= i < a.len() && a[i] == b[0];
        if j > 0 && i > 0 {
            assert(seq_lt(id_of(a[0], f), id_of(a[i], f)));
            assert(seq_lt(id_of(b[0], f), id_of(b[j], f)));
            lemma_seq_lt_transitive(id_of(a[0], f), id_of(b[0], f), id_of(a[0], f));
            lemma_seq_lt_irreflexive(id_of(a[0], f));
        }
        assert(a[0] == b[0]);
        let ta = a.drop_first();
        let tb = b.drop_first();
        assert(ids_increasing(ta, f)) by {
            assert forall|x: int, y: int| 0 <= x < y < ta.len() implies seq_lt(#[trigger] id_of(ta[x], f), #[trigger] id_of(ta[y], f)) by {
                assert(ta[x] == a[x + 1] && ta[y] == a[y + 1]);
            }
        }
        assert(ids_increasing(tb, f)) by {
            assert forall|x: int, y: int| 0 <= x < y < tb.len() implies seq_lt(#[trigger] id_of(tb[x], f), #[trigger] id_of(tb[y], f)) by {
                assert(tb[x] == b[x + 1] && tb[y] == b[y + 1]);
            }
        }
        assert forall|m: SJson| #![trigger ta.contains(m)] #![trigger tb.contains(m)] ta.contains(m) <==> tb.contains(m) by {
            if ta.contains(m) {
                let x = choose|x: int| 0 <= x < ta.len() && ta[x] == m;
                assert(a[x + 1] == m);
                assert(a.contains(m));
                assert(b.contains(m));
                let y = choose|y: int| 0 <= y < b.len() && b[y] == m;
                if y == 0 {
                    assert(seq_lt(id_of(a[0], f), id_of(a[x + 1], f)));
                    lemma_seq_lt_irreflexive(id_of(a[0], f));
                } else {
                    assert(tb[y - 1] == m);
                }
            }
            if tb.contains(m) {
                let x = choose|x: int| 0 <= x < tb.len() && tb[x] == m;
                assert(b[x + 1] == m);
                assert(b.contains(m));
                assert(a.contains(m));
                let y = choose|y: int| 0 <= y < a.len() && a[y] == m;
                if y == 0 {
                    assert(seq_lt(id_of(b[0], f), id_of(b[x + 1], f)));
                    lemma_seq_lt_irreflexive(id_of(b[0], f));
                } else {
                    assert(ta[y - 1] == m);
                }
            }
        }
        lemma_increasing_unique(ta, tb, f);
        assert(a =~= seq![a[0]] + ta);
        assert(b =~= seq![b[0]] + tb);
    }
}

/// Sorting by id forgets the order of a list whose ids are distinct.
pub proof fn lemma_sort_by_id_ignores_order(a: Seq<SJson>, b: Seq<SJson>, f: Seq<char>)
    requires
        ids_distinct(a, f),
        ids_distinct(b, f),
        same_elements(a, b),
    ensures
        sort_by_id(a, f) == sort_by_id(b, f),
{
    lemma_sort_by_id(a, f);
    lemma_sort_by_id(b, f);
    lemma_increasing_unique(sort_by_id(a, f), sort_by_id(b, f), f);
}

proof fn lemma_strip_keys(ps: Seq<(Seq<char>, SJson)>, k: Seq<char>)
    ensures
        forall|i: int| 0 <= i < strip_members(ps, k).len() ==>
            exists|j: int| 0 <= j < ps.len() && ps[j].0 == #[trigger] strip_members(ps, k)[i].0,
    decreases ps.len(),
{
    if ps.len() > 0 {
        let d = ps.drop_last();
        lemma_strip_keys(d, k);
        let sd = strip_members(d, k);
        let r = strip_members(ps, k);
        assert forall|i: int| 0 <= i < r.len() implies exists|j: int| 0 <= j < ps.len() && ps[j].0 == #[trigger] r[i].0 by {
            if i < sd.len() {
                assert(r[i] == sd[i]);
                let j = choose|j: int| 0 <= j < d.len() && d[j].0 == sd[i].0;
                assert(ps[j] == d[j]);
            } else {
                assert(r[i].0 == ps[ps.len() - 1].0);
            }
        }
    }
}

proof fn lemma_lookup_first(v: SJson, f: Seq<char>, rest: Seq<(Seq<char>, SJson)>)
    requires
        forall|i: int| 0 <= i < rest.len() ==> #[trigger] rest[i].0 != f,
    ensures
        obj_lookup(seq![(f, v)] + rest, f) == Some(v),
    decreases rest.len(),
{
    let q = seq![(f, v)] + rest;
    if rest.len() > 0 {
        assert(q.last() == rest.last());
        assert(q.drop_last() =~= seq![(f, v)] + rest.drop_last());
        lemma_lookup_first(v, f, rest.drop_last());
    }
}

/// The id of an object whose first member is the id and whose other keys differ.
proof fn lemma_id_first(ps: Seq<(Seq<char>, SJson)>, f: Seq<char>, s: Seq<char>)
    requires
        ps.len() > 0,
        ps[0] == (f, SJson::Str(s)),
        f != "meta"@,
        forall|i: int| 1 <= i < ps.len() ==> #[trigger] ps[i].0 != f,
    ensures
        id_of(strip_key(SJson::Object(ps), "meta"@), f) == s,
{
    let k = "meta"@;
    let t = ps.drop_first();
    assert(ps =~= seq![ps[0]] + t);
    lemma_strip_members_append(seq![ps[0]], t, k);
    let one = seq![ps[0]];
    assert(one.drop_last() =~= Seq::<(Seq<char>, SJson)>::empty());
    assert(one.last() == ps[0]);
    assert(strip_members(one.drop_last(), k) =~= Seq::<(Seq<char>, SJson)>::empty());
    assert(one.last().0 != k);
    assert(strip_key(SJson::Str(s), k) == SJson::Str(s));
    assert(strip_members(one, k) == strip_members(one.drop_last(), k).push((one.last().0, strip_key(one.last().1, k))));
    assert(strip_members(one, k) =~= seq![(f, SJson::Str(s))]);
    lemma_strip_keys(t, k);
    let r = strip_members(t, k);
    assert forall|i: int| 0 <= i < r.len() implies #[trigger] r[i].0 != f by {
        let j = choose|j: int| 0 <= j < t.len() && t[j].0 == r[i].0;
        assert(t[j] == ps[j + 1]);
    }
    lemma_lookup_first(SJson::Str(s), f, r);
}

pub(crate) proof fn lemma_node_json_id(n: NodeV)
    ensures
        id_of(strip_key(node_json(n), "meta"@), "node_id"@) == n.node_id,
{
    reveal_strlit("meta");
    reveal_strlit("node_id");
    reveal_strlit("kind");
    reveal_strlit("op");
    reveal_strlit("inputs");
    reveal_strlit("outputs");
    reveal_strlit("attrs");
    reveal_strlit("constraints");
    reveal_strlit("import_subgraph_id");
    let ps = node_json(n)->Object_0;
    assert forall|i: int| 1 <= i < ps.len() implies #[trigger] ps[i].0 != "node_id"@ by {
        let k = ps[i].0;
        assert(k == "kind"@ || k == "op"@ || k == "inputs"@ || k == "outputs"@ || k == "attrs"@
            || k == "constraints"@ || k == "meta"@ || k == "import_subgraph_id"@);
        assert("outputs"@[0] != "node_id"@[0]);
    }
    assert("node_id"@.len() != "meta"@.len());
    lemma_id_first(ps, "node_id"@, n.node_id);
}

pub(crate) proof fn lemma_edge_json_id(e: EdgeV)
    ensures
        id_of(strip_key(edge_json(e), "meta"@), "edge_id"@) == e.edge_id,
{
    reveal_strlit("meta");
    reveal_strlit("edge_id");
    reveal_strlit("from");
    reveal_strlit("to");
    let ps = edge_json(e)->Object_0;
    assert("edge_id"@.len() != "meta"@.len());
    assert("from"@[0] != "edge_id"@[0]);
    assert("to"@.len() != "edge_id"@.len());
    lemma_id_first(ps, "edge_id"@, e.edge_id);
}

pub(crate) proof fn lemma_goal_json_id(g: GoalV)
    ensures
        id_of(strip_key(goal_json(g), "meta"@), "goal_id"@) == g.goal_id,
{
    reveal_strlit("meta");
    reveal_strlit("goal_id");
    reveal_strlit("name");
    reveal_strlit("params");
    reveal_strlit("returns");
    reveal_strlit("constraints");
    reveal_strlit("accept");
    reveal_strlit("entry_nodes");
    reveal_strlit("exit_nodes");
    let ps = goal_json(g)->Object_0;
    assert forall|i: int| 1 <= i < ps.len() implies #[trigger] ps[i].0 != "goal_id"@ by {
        let k = ps[i].0;
        assert(k == "name"@ || k == "params"@ || k == "returns"@ || k == "constraints"@ || k == "accept"@
            || k == "entry_nodes"@ || k == "exit_nodes"@);
        assert("returns"@[0] != "goal_id"@[0]);
    }
    assert("goal_id"@.len() != "meta"@.len());
    lemma_id_first(ps, "goal_id"@, g.goal_id);
}

pub(crate) proof fn lemma_subgraph_json_id(s: SubgraphV)
    ensures
        id_of(strip_key(subgraph_json(s), "meta"@), "subgraph_id"@) == s.subgraph_id,
{
    reveal_strlit("meta");
    reveal_strlit("subgraph_id");
    reveal_strlit("kind");
    reveal_strlit("nodes");
    reveal_strlit("constraints");
    reveal_strlit("gate_node_id");
    let ps = subgraph_json(s)->Object_0;
    assert forall|i: int| 1 <= i < ps.len() implies #[trigger] ps[i].0 != "subgraph_id"@ by {
        let k = ps[i].0;
        assert(k == "kind"@ || k == "nodes"@ || k == "constraints"@ || k == "gate_node_id"@);
        assert("subgraph_id"@.len() == 11);
        assert("kind"@.len() == 4 && "nodes"@.len() == 5 && "gate_node_id"@.len() == 12);
        assert("constraints"@[0] != "subgraph_id"@[0]);
    }
    assert("subgraph_id"@.len() != "meta"@.len());
    lemma_id_first(ps, "subgraph_id"@, s.subgraph_id);
}

/// The two lists hold the same items.
pub open spec fn same_items<T>(a: Seq<T>, b: Seq<T>) -> bool {
    forall|x: T| #![trigger a.contains(x)] #![trigger b.contains(x)] a.contains(x) <==> b.contains(x)
}

/// No id occurs twice.
pub open spec fn distinct_ids(s: Seq<Seq<char>>) -> bool {
    forall|i: int, j: int| 0 <= i < j < s.len() ==> #[trigger] s[i] != #[trigger] s[j]
}

proof fn lemma_items_sorted<T>(
    a: Seq<T>,
    b: Seq<T>,
    json: spec_fn(T) -> SJson,
    id: spec_fn(T) -> Seq<char>,
    f: Seq<char>,
)
    requires
        same_items(a, b),
        distinct_ids(a.map_values(id)),
        distinct_ids(b.map_values(id)),
        forall|x: T| #[trigger] id_of(strip_key(json(x), "meta"@), f) == id(x),
    ensures
        sort_by_id(strip_elems(a.map_values(json), "meta"@), f) == sort_by_id(strip_elems(b.map_values(json), "meta"@), f),
{
    let k = "meta"@;
    let e1 = a.map_values(json);
    let e2 = b.map_values(json);
    lemma_strip_elems_index(e1, k);
    lemma_strip_elems_index(e2, k);
    let s1 = strip_elems(e1, k);
    let s2 = strip_elems(e2, k);
    assert forall|i: int| 0 <= i < s1.len() implies #[trigger] s1[i] == strip_key(json(a[i]), k) by {
        assert(e1[i] == json(a[i]));
    }
    assert forall|i: int| 0 <= i < s2.len() implies #[trigger] s2[i] == strip_key(json(b[i]), k) by {
        assert(e2[i] == json(b[i]));
    }
    assert(ids_distinct(s1, f)) by {
        assert forall|i: int, j: int| 0 <= i < j < s1.len() implies #[trigger] id_of(s1[i], f) != #[trigger] id_of(s1[j], f) by {
            assert(id_of(s1[i], f) == id(a[i]));
            assert(id_of(s1[j], f) == id(a[j]));
            assert(a.map_values(id)[i] != a.map_values(id)[j]);
        }
    }
    assert(ids_distinct(s2, f)) by {
        assert forall|i: int, j: int| 0 <= i < j < s2.len() implies #[trigger] id_of(s2[i], f) != #[trigger] id_of(s2[j], f) by {
            assert(id_of(s2[i], f) == id(b[i]));
            assert(id_of(s2[j], f) == id(b[j]));
            assert(b.map_values(id)[i] != b.map_values(id)[j]);
        }
    }
    assert(same_elements(s1, s2)) by {
        assert forall|m: SJson| #![trigger s1.contains(m)] #![trigger s2.contains(m)] s1.contains(m) <==> s2.contains(m) by {
            if s1.contains(m) {
                let i = choose|i: int| 0 <= i < s1.len() && s1[i] == m;
                assert(a.contains(a[i]));
                assert(b.contains(a[i]));
                let j = choose|j: int| 0 <= j < b.len() && b[j] == a[i];
                assert(s2[j] == m);
            }
            if s2.contains(m) {
                let i = choose|i: int| 0 <= i < s2.len() && s2[i] == m;
                assert(b.contains(b[i]));
                assert(a.contains(b[i]));
                let j = choose|j: int| 0 <= j < a.len() && a[j] == b[i];
                assert(s1[j] == m);
            }
        }
    }
    lemma_sort_by_id_ignores_order(s1, s2, f);
}

pub(crate) proof fn lemma_strip_members_no_key(ps: Seq<(Seq<char>, SJson)>, k: Seq<char>)
    requires
        forall|i: int| 0 <= i < ps.len() ==> #[trigger] ps[i].0 != k,
    ensures
        strip_members(ps, k).len() == ps.len(),
        forall|i: int| 0 <= i < ps.len() ==> #[trigger] strip_members(ps, k)[i] == (ps[i].0, strip_key(ps[i].1, k)),
    decreases ps.len(),
{
    if ps.len() > 0 {
        let d = ps.drop_last();
        assert forall|i: int| 0 <= i < d.len() implies #[trigger] d[i].0 != k by {
            assert(d[i] == ps[i]);
        }
        lemma_strip_members_no_key(d, k);
        assert(ps.last().0 != k);
    }
}

/// The plan hash does not depend on the order in which nodes, edges, goals
/// and subgraphs are listed: two Plan IRs that differ only in that order,
/// with the ids of each kind distinct, have the same hash.
pub proof fn lemma_plan_hash_ignores_order(
    ir: PlanIrV,
    nodes: Seq<NodeV>,
    edges: Seq<EdgeV>,
    goals: Seq<GoalV>,
    subgraphs: Seq<SubgraphV>,
)
    requires
        same_items(ir.nodes, nodes),
        same_items(ir.edges, edges),
        same_items(ir.goals, goals),
        same_items(ir.subgraphs, subgraphs),
        distinct_ids(ir.nodes.map_values(|n: NodeV| n.node_id)),
        distinct_ids(nodes.map_values(|n: NodeV| n.node_id)),
        distinct_ids(ir.edges.map_values(|e: EdgeV| e.edge_id)),
        distinct_ids(edges.map_values(|e: EdgeV| e.edge_id)),
        distinct_ids(ir.goals.map_values(|g: GoalV| g.goal_id)),
        distinct_ids(goals.map_values(|g: GoalV| g.goal_id)),
        distinct_ids(ir.subgraphs.map_values(|s: SubgraphV| s.subgraph_id)),
        distinct_ids(subgraphs.map_values(|s: SubgraphV| s.subgraph_id)),
    ensures
        plan_hash(PlanIrV { nodes, edges, goals, subgraphs, ..ir }) == plan_hash(ir),
{
    let ir2 = PlanIrV { nodes, edges, goals, subgraphs, ..ir };
    let k = "meta"@;
    reveal_strlit("meta");
    reveal_strlit("goals");
    reveal_strlit("nodes");
    reveal_strlit("edges");
    reveal_strlit("constraints");
    reveal_strlit("subgraphs");
    reveal_strlit("exports");
    reveal_strlit("node_id");
    reveal_strlit("edge_id");
    reveal_strlit("goal_id");
    reveal_strlit("subgraph_id");
    // The four sorted lists agree.
    assert forall|n: NodeV| #[trigger] id_of(strip_key(node_json(n), k), "node_id"@) == n.node_id by {
        lemma_node_json_id(n);
    }
    assert forall|e: EdgeV| #[trigger] id_of(strip_key(edge_json(e), k), "edge_id"@) == e.edge_id by {
        lemma_edge_json_id(e);
    }
    assert forall|g: GoalV| #[trigger] id_of(strip_key(goal_json(g), k), "goal_id"@) == g.goal_id by {
        lemma_goal_json_id(g);
    }
    assert forall|x: SubgraphV| #[trigger] id_of(strip_key(subgraph_json(x), k), "subgraph_id"@) == x.subgraph_id by {
        lemma_subgraph_json_id(x);
    }
    lemma_items_sorted(ir.nodes, nodes, |n: NodeV| node_json(n), |n: NodeV| n.node_id, "node_id"@);
    lemma_items_sorted(ir.edges, edges, |e: EdgeV| edge_json(e), |e: EdgeV| e.edge_id, "edge_id"@);
    lemma_items_sorted(ir.goals, goals, |g: GoalV| goal_json(g), |g: GoalV| g.goal_id, "goal_id"@);
    lemma_items_sorted(ir.subgraphs, subgraphs, |x: SubgraphV| subgraph_json(x), |x: SubgraphV| x.subgraph_id, "subgraph_id"@);
    // The members of the two plans.
    let h0 = seq![
        ("conclave_ir_version"@, jstr(ir.version)),
        ("module"@, SJson::Object(seq![("name"@, jstr(ir.module_name)), ("source_fingerprint"@, jstr(ir.source_fingerprint))])),
    ] + (if ir.imports.len() == 0 { Seq::empty() } else { seq![("imports"@, string_map_json(ir.imports))] }) + seq![
        ("types"@, SJson::Object(ir.types.map_values(|p: (Seq<char>, TypeDefV)| (p.0, typedef_json(p.1))))),
    ];
    let cons = ("constraints"@, SJson::Object(ir.constraints.map_values(|p: (Seq<char>, ConstraintV)| (p.0, constraint_json(p.1)))));
    let exps = ("exports"@, SJson::Object(seq![("entry_goal"@, jstr(ir.entry_goal))]));
    let t1 = seq![
        ("goals"@, SJson::Array(ir.goals.map_values(|g: GoalV| goal_json(g)))),
        ("nodes"@, SJson::Array(ir.nodes.map_values(|n: NodeV| node_json(n)))),
        ("edges"@, SJson::Array(ir.edges.map_values(|e: EdgeV| edge_json(e)))),
        cons,
        ("subgraphs"@, SJson::Array(ir.subgraphs.map_values(|x: SubgraphV| subgraph_json(x)))),
        exps,
    ];
    let t2 = seq![
        ("goals"@, SJson::Array(goals.map_values(|g: GoalV| goal_json(g)))),
        ("nodes"@, SJson::Array(nodes.map_values(|n: NodeV| node_json(n)))),
        ("edges"@, SJson::Array(edges.map_values(|e: EdgeV| edge_json(e)))),
        cons,
        ("subgraphs"@, SJson::Array(subgraphs.map_values(|x: SubgraphV| subgraph_json(x)))),
        exps,
    ];
    assert(plan_json(ir)->Object_0 =~= h0 + t1);
    assert(plan_json(ir2)->Object_0 =~= h0 + t2);
    lemma_strip_members_append(h0, t1, k);
    lemma_strip_members_append(h0, t2, k);
    assert("goals"@[0] != "meta"@[0] && "nodes"@[0] != "meta"@[0] && "edges"@[0] != "meta"@[0]);
    assert("constraints"@[0] != "meta"@[0] && "subgraphs"@[0] != "meta"@[0] && "exports"@[0] != "meta"@[0]);
    lemma_strip_members_no_key(t1, k);
    lemma_strip_members_no_key(t2, k);
    let s0 = strip_members(h0, k);
    let p1 = s0 + strip_members(t1, k);
    let p2 = s0 + strip_members(t2, k);
    assert(strip_key(plan_json(ir), k) == SJson::Object(p1));
    assert(strip_key(plan_json(ir2), k) == SJson::Object(p2));
    // The keys of the six members differ from one another.
    assert("goals"@[0] != "nodes"@[0] && "goals"@[0] != "edges"@[0] && "nodes"@[0] != "edges"@[0]);
    assert("subgraphs"@.len() != "nodes"@.len() && "subgraphs"@.len() != "edges"@.len() && "subgraphs"@.len() != "goals"@.len());
    assert("constraints"@.len() != "nodes"@.len() && "constraints"@.len() != "edges"@.len());
    assert("constraints"@.len() != "goals"@.len() && "constraints"@.len() != "subgraphs"@.len());
    assert("exports"@.len() != "nodes"@.len() && "exports"@.len() != "edges"@.len());
    assert("exports"@.len() != "goals"@.len() && "exports"@.len() != "subgraphs"@.len());
    let r1 = sort_field(sort_field(sort_field(sort_field(SJson::Object(p1), "nodes"@, "node_id"@), "edges"@, "edge_id"@), "goals"@, "goal_id"@), "subgraphs"@, "subgraph_id"@);
    let r2 = sort_field(sort_field(sort_field(sort_field(SJson::Object(p2), "nodes"@, "node_id"@), "edges"@, "edge_id"@), "goals"@, "goal_id"@), "subgraphs"@, "subgraph_id"@);
    let q1 = r1->Object_0;
    let q2 = r2->Object_0;
    assert(q1.len() == q2.len());
    assert forall|i: int| 0 <= i < q1.len() implies q1[i] == q2[i] by {
        if i >= s0.len() {
            let t = i - s0.len();
            assert(p1[i] == strip_members(t1, k)[t]);
            assert(p2[i] == strip_members(t2, k)[t]);
        } else {
            assert(p1[i] == p2[i]);
        }
    }
    assert(q1 =~= q2);
    assert(canonical_plan(ir) == canonical_plan(ir2));
}

proof fn lemma_ins_key_to_id<T>(a: Seq<T>, x: T, key: spec_fn(T) -> Seq<char>, g: spec_fn(T) -> SJson, f: Seq<char>)
    requires
        forall|y: T| #[trigger] id_of(g(y), f) == key(y),
    ensures
        ins_key(a, x, key).map_values(g) == ins_sorted(a.map_values(g), g(x), f),
    decreases a.len(),
{
    let am = a.map_values(g);
    assert(id_of(g(x), f) == key(x));
    if a.len() == 0 {
        assert(ins_key(a, x, key).map_values(g) =~= seq![g(x)]);
    } else {
        let d = a.drop_last();
        assert(am.drop_last() =~= d.map_values(g));
        assert(am.last() == g(a.last()));
        assert(id_of(g(a.last()), f) == key(a.last()));
        if seq_lt(key(x), key(a.last())) {
            lemma_ins_key_to_id(d, x, key, g, f);
            assert(ins_key(a, x, key).map_values(g) =~= ins_key(d, x, key).map_values(g).push(g(a.last())));
        } else {
            assert(ins_key(a, x, key).map_values(g) =~= am.push(g(x)));
        }
    }
}

/// Sorting by a key and then taking the JSON is sorting the JSON by the id
/// that gives that key.
pub(crate) proof fn lemma_sort_key_to_id<T>(a: Seq<T>, key: spec_fn(T) -> Seq<char>, g: spec_fn(T) -> SJson, f: Seq<char>)
    requires
        forall|y: T| #[trigger] id_of(g(y), f) == key(y),
    ensures
        sort_key(a, key).map_values(g) == sort_by_id(a.map_values(g), f),
    decreases a.len(),
{
    if a.len() > 0 {
        let d = a.drop_last();
        lemma_sort_key_to_id(d, key, g, f);
        lemma_ins_key_to_id(sort_key(d, key), a.last(), key, g, f);
        assert(a.map_values(g).drop_last() =~= d.map_values(g));
    }
}

/// A list sorted beforehand by the id sorts to what the list itself sorts to.
pub(crate) proof fn lemma_presorted_array<T>(
    a: Seq<T>,
    c: Seq<T>,
    key: spec_fn(T) -> Seq<char>,
    json: spec_fn(T) -> SJson,
    f: Seq<char>,
)
    requires
        forall|y: T| #[trigger] id_of(strip_key(json(y), "meta"@), f) == key(y),
        c.len() == a.len(),
        forall|i: int| 0 <= i < a.len() ==> #[trigger] strip_key(json(c[i]), "meta"@) == strip_key(json(a[i]), "meta"@),
    ensures
        sort_by_id(strip_elems(sort_key(c, key).map_values(json), "meta"@), f)
            == sort_by_id(strip_elems(a.map_values(json), "meta"@), f),
{
    let k = "meta"@;
    let g = |y: T| strip_key(json(y), k);
    assert forall|y: T| #[trigger] id_of(g(y), f) == key(y) by {
        assert(id_of(strip_key(json(y), k), f) == key(y));
    }
    let sc = sort_key(c, key);
    lemma_sort_key_sorted(c, key);
    lemma_strip_elems_index(sc.map_values(json), k);
    lemma_strip_elems_index(a.map_values(json), k);
    assert(strip_elems(sc.map_values(json), k) =~= sc.map_values(g));
    assert(strip_elems(a.map_values(json), k) =~= a.map_values(g));
    assert(c.map_values(g) =~= a.map_values(g));
    lemma_sort_key_to_id(sc, key, g, f);
    lemma_sort_key_sorted_id(sc, key);
    lemma_sort_key_to_id(c, key, g, f);
}

// ---------------------------------------------------------------------------
// The four lists of the canonical form
// ---------------------------------------------------------------------------

/// The Plan IR's JSON with `meta` removed and its nodes, edges, goals and
/// subgraphs sorted by id, before object keys are sorted.
pub open spec fn sorted_plan(ir: PlanIrV) -> SJson {
    sort_field(
        sort_field(
            sort_field(sort_field(strip_key(plan_json(ir), "meta"@), "nodes"@, "node_id"@), "edges"@, "edge_id"@),
            "goals"@,
            "goal_id"@,
        ),
        "subgraphs"@,
        "subgraph_id"@,
    )
}

/// The elements of `items`, `meta` removed from each, sorted by the id under `f`.
pub open spec fn sorted_list(items: Seq<SJson>, f: Seq<char>) -> Seq<SJson> {
    sort_by_id(strip_elems(items, "meta"@), f)
}

/// `s` lists the elements of `from`, each once, with ids under `f` strictly
/// increasing.
pub open spec fn sorted_permutation(s: Seq<SJson>, from: Seq<SJson>, f: Seq<char>) -> bool {
    &&& s.len() == from.len()
    &&& ids_increasing(s, f)
    &&& ids_distinct(from, f)
    &&& same_elements(s, from)
}

proof fn lemma_ins_sorted_len(a: Seq<SJson>, x: SJson, f: Seq<char>)
    ensures
        ins_sorted(a, x, f).len() == a.len() + 1,
    decreases a.len(),
{
    if a.len() > 0 && seq_lt(id_of(x, f), id_of(a.last(), f)) {
        lemma_ins_sorted_len(a.drop_last(), x, f);
    }
}

proof fn lemma_sort_by_id_len(a: Seq<SJson>, f: Seq<char>)
    ensures
        sort_by_id(a, f).len() == a.len(),
    decreases a.len(),
{
    if a.len() > 0 {
        lemma_sort_by_id_len(a.drop_last(), f);
        lemma_ins_sorted_len(sort_by_id(a.drop_last(), f), a.last(), f);
    }
}

proof fn lemma_sorted_list<T>(a: Seq<T>, json: spec_fn(T) -> SJson, id: spec_fn(T) -> Seq<char>, f: Seq<char>)
    requires
        distinct_ids(a.map_values(id)),
        forall|x: T| #[trigger] id_of(strip_key(json(x), "meta"@), f) == id(x),
    ensures
        sorted_permutation(sorted_list(a.map_values(json), f), strip_elems(a.map_values(json), "meta"@), f),
{
    let k = "meta"@;
    let e = a.map_values(json);
    lemma_strip_elems_index(e, k);
    let s = strip_elems(e, k);
    assert(ids_distinct(s, f)) by {
        assert forall|i: int, j: int| 0 <= i < j < s.len() implies #[trigger] id_of(s[i], f) != #[trigger] id_of(s[j], f) by {
            assert(e[i] == json(a[i]) && e[j] == json(a[j]));
            assert(id_of(s[i], f) == id(a[i]));
            assert(id_of(s[j], f) == id(a[j]));
            assert(a.map_values(id)[i] != a.map_values(id)[j]);
        }
    }
    lemma_sort_by_id(s, f);
    lemma_sort_by_id_len(s, f);
}

proof fn lemma_lookup_at(ps: Seq<(Seq<char>, SJson)>, k: Seq<char>, i: int)
    requires
        0 <= i < ps.len(),
        ps[i].0 == k,
        forall|j: int| i < j < ps.len() ==> #[trigger] ps[j].0 != k,
    ensures
        obj_lookup(ps, k) == Some(ps[i].1),
    decreases ps.len(),
{
    if i < ps.len() - 1 {
        let d = ps.drop_last();
        assert(ps[ps.len() - 1].0 != k);
        assert forall|j: int| i < j < d.len() implies #[trigger] d[j].0 != k by {
            assert(d[j] == ps[j]);
        }
        lemma_lookup_at(d, k, i);
    }
}

/// Canonicalizing a Plan IR whose ids of each kind are distinct lists its
/// nodes, edges, goals and subgraphs sorted by id: each list is a
/// permutation of the IR's own list with `meta` removed, its ids strictly
/// increasing. Sorting the object keys then gives the canonical JSON.
pub proof fn lemma_canonical_plan_lists(ir: PlanIrV)
    requires
        distinct_ids(ir.nodes.map_values(|n: NodeV| n.node_id)),
        distinct_ids(ir.edges.map_values(|e: EdgeV| e.edge_id)),
        distinct_ids(ir.goals.map_values(|g: GoalV| g.goal_id)),
        distinct_ids(ir.subgraphs.map_values(|s: SubgraphV| s.subgraph_id)),
    ensures
        canonical_plan(ir) == canon(sorted_plan(ir)),
        sorted_plan(ir) is Object,
        obj_lookup(sorted_plan(ir)->Object_0, "nodes"@)
            == Some(SJson::Array(sorted_list(ir.nodes.map_values(|n: NodeV| node_json(n)), "node_id"@))),
        obj_lookup(sorted_plan(ir)->Object_0, "edges"@)
            == Some(SJson::Array(sorted_list(ir.edges.map_values(|e: EdgeV| edge_json(e)), "edge_id"@))),
        obj_lookup(sorted_plan(ir)->Object_0, "goals"@)
            == Some(SJson::Array(sorted_list(ir.goals.map_values(|g: GoalV| goal_json(g)), "goal_id"@))),
        obj_lookup(sorted_plan(ir)->Object_0, "subgraphs"@)
            == Some(SJson::Array(sorted_list(ir.subgraphs.map_values(|s: SubgraphV| subgraph_json(s)), "subgraph_id"@))),
        sorted_permutation(
            sorted_list(ir.nodes.map_values(|n: NodeV| node_json(n)), "node_id"@),
            strip_elems(ir.nodes.map_values(|n: NodeV| node_json(n)), "meta"@),
            "node_id"@,
        ),
        sorted_permutation(
            sorted_list(ir.edges.map_values(|e: EdgeV| edge_json(e)), "edge_id"@),
            strip_elems(ir.edges.map_values(|e: EdgeV| edge_json(e)), "meta"@),
            "edge_id"@,
        ),
        sorted_permutation(
            sorted_list(ir.goals.map_values(|g: GoalV| goal_json(g)), "goal_id"@),
            strip_elems(ir.goals.map_values(|g: GoalV| goal_json(g)), "meta"@),
            "goal_id"@,
        ),
        sorted_permutation(
            sorted_list(ir.subgraphs.map_values(|s: SubgraphV| subgraph_json(s)), "subgraph_id"@),
            strip_elems(ir.subgraphs.map_values(|s: SubgraphV| subgraph_json(s)), "meta"@),
            "subgraph_id"@,
        ),
{
    let k = "meta"@;
    reveal_strlit("meta");
    reveal_strlit("goals");
    reveal_strlit("nodes");
    reveal_strlit("edges");
    reveal_strlit("constraints");
    reveal_strlit("subgraphs");
    reveal_strlit("exports");
    reveal_strlit("node_id");
    reveal_strlit("edge_id");
    reveal_strlit("goal_id");
    reveal_strlit("subgraph_id");
    assert forall|n: NodeV| #[trigger] id_of(strip_key(node_json(n), k), "node_id"@) == n.node_id by {
        lemma_node_json_id(n);
    }
    assert forall|e: EdgeV| #[trigger] id_of(strip_key(edge_json(e), k), "edge_id"@) == e.edge_id by {
        lemma_edge_json_id(e);
    }
    assert forall|g: GoalV| #[trigger] id_of(strip_key(goal_json(g), k), "goal_id"@) == g.goal_id by {
        lemma_goal_json_id(g);
    }
    assert forall|x: SubgraphV| #[trigger] id_of(strip_key(subgraph_json(x), k), "subgraph_id"@) == x.subgraph_id by {
        lemma_subgraph_json_id(x);
    }
    lemma_sorted_list(ir.nodes, |n: NodeV| node_json(n), |n: NodeV| n.node_id, "node_id"@);
    lemma_sorted_list(ir.edges, |e: EdgeV| edge_json(e), |e: EdgeV| e.edge_id, "edge_id"@);
    lemma_sorted_list(ir.goals, |g: GoalV| goal_json(g), |g: GoalV| g.goal_id, "goal_id"@);
    lemma_sorted_list(ir.subgraphs, |x: SubgraphV| subgraph_json(x), |x: SubgraphV| x.subgraph_id, "subgraph_id"@);
    let h0 = seq![
        ("conclave_ir_version"@, jstr(ir.version)),
        ("module"@, SJson::Object(seq![("name"@, jstr(ir.module_name)), ("source_fingerprint"@, jstr(ir.source_fingerprint))])),
    ] + (if ir.imports.len() == 0 { Seq::empty() } else { seq![("imports"@, string_map_json(ir.imports))] }) + seq![
        ("types"@, SJson::Object(ir.types.map_values(|p: (Seq<char>, TypeDefV)| (p.0, typedef_json(p.1))))),
    ];
    let t1 = seq![
        ("goals"@, SJson::Array(ir.goals.map_values(|g: GoalV| goal_json(g)))),
        ("nodes"@, SJson::Array(ir.nodes.map_values(|n: NodeV| node_json(n)))),
        ("edges"@, SJson::Array(ir.edges.map_values(|e: EdgeV| edge_json(e)))),
        ("constraints"@, SJson::Object(ir.constraints.map_values(|p: (Seq<char>, ConstraintV)| (p.0, constraint_json(p.1))))),
        ("subgraphs"@, SJson::Array(ir.subgraphs.map_values(|x: SubgraphV| subgraph_json(x)))),
        ("exports"@, SJson::Object(seq![("entry_goal"@, jstr(ir.entry_goal))])),
    ];
    assert(plan_json(ir)->Object_0 =~= h0 + t1);
    lemma_strip_members_append(h0, t1, k);
    assert("goals"@[0] != "meta"@[0] && "nodes"@[0] != "meta"@[0] && "edges"@[0] != "meta"@[0]);
    assert("constraints"@[0] != "meta"@[0] && "subgraphs"@[0] != "meta"@[0] && "exports"@[0] != "meta"@[0]);
    lemma_strip_members_no_key(t1, k);
    let s0 = strip_members(h0, k);
    let st = strip_members(t1, k);
    let p1 = s0 + st;
    assert(strip_key(plan_json(ir), k) == SJson::Object(p1));
    assert("goals"@[0] != "nodes"@[0] && "goals"@[0] != "edges"@[0] && "nodes"@[0] != "edges"@[0]);
    assert("subgraphs"@.len() != "nodes"@.len() && "subgraphs"@.len() != "edges"@.len() && "subgraphs"@.len() != "goals"@.len());
    assert("constraints"@.len() != "nodes"@.len() && "constraints"@.len() != "edges"@.len());
    assert("constraints"@.len() != "goals"@.len() && "constraints"@.len() != "subgraphs"@.len());
    assert("exports"@.len() != "nodes"@.len() && "exports"@.len() != "edges"@.len());
    assert("exports"@.len() != "goals"@.len() && "exports"@.len() != "subgraphs"@.len());
    let q = sorted_plan(ir)->Object_0;
    let b: int = s0.len() as int;
    assert(q.len() == p1.len());
    assert(p1.len() == b + 6);
    assert forall|t: int| 0 <= t < 6 implies #[trigger] q[b + t].0 == t1[t].0 by {
        assert(p1[b + t] == st[t]);
    }
    assert(p1[b] == st[0] && p1[b + 1] == st[1] && p1[b + 2] == st[2] && p1[b + 4] == st[4]);
    assert(q[b + 0].0 == t1[0].0 && q[b + 1].0 == t1[1].0 && q[b + 2].0 == t1[2].0);
    assert(q[b + 3].0 == t1[3].0 && q[b + 4].0 == t1[4].0 && q[b + 5].0 == t1[5].0);
    assert forall|j: int| b < j < q.len() implies #[trigger] q[j].0 != "goals"@ by {
        if j == b + 1 {} else if j == b + 2 {} else if j == b + 3 {} else if j == b + 4 {} else {}
    }
    lemma_lookup_at(q, "goals"@, b);
    assert forall|j: int| b + 1 < j < q.len() implies #[trigger] q[j].0 != "nodes"@ by {
        if j == b + 2 {} else if j == b + 3 {} else if j == b + 4 {} else {}
    }
    lemma_lookup_at(q, "nodes"@, b + 1);
    assert forall|j: int| b + 2 < j < q.len() implies #[trigger] q[j].0 != "edges"@ by {
        if j == b + 3 {} else if j == b + 4 {} else {}
    }
    lemma_lookup_at(q, "edges"@, b + 2);
    assert forall|j: int| b + 4 < j < q.len() implies #[trigger] q[j].0 != "subgraphs"@ by {
        assert(j == b + 5);
    }
    lemma_lookup_at(q, "subgraphs"@, b + 4);
}

} // verus!
