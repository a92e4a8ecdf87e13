//! Lowering a Conclave goal to Plan IR.  Each function computes the step of
//! `lowering.rs` that its contract names.
use vstd::prelude::*;
use crate::hash::{compute_stable_id, sha256_str};
use crate::ir::{
    Constraint, ConstraintExpr as IrConstraintExpr, ConstraintRef, ConstraintScope, ConstraintV,
    CostHints, DeterminismProfile, Edge, EdgeEndpoint, EdgeRef, EdgeV, Exports, Goal, GoalParam,
    InputPort, InputPortV, Module as IrModule, Node, NodeAttrs, NodeKind, NodeV, Op, OutputPort,
    OutputPortV, PlanIr, PlanIrV, Predicate, Subgraph, SubgraphV, TypeDef,
};
use crate::ir::canonical::{
    compute_constraint_id, compute_edge_id, compute_goal_id, compute_plan_ir_hash,
};
use crate::json::{JsonValue, SJson, push_member, view_elems, view_members};
use crate::lang::ast::{
    CapDecl, CmpOp, ConstraintExpr, ConstraintExprV, ConstraintLeft, ConstraintValue, Expr, ExprV,
    GoalDecl, ImportDecl, ImportDeclV, IntrinsicDecl, Module, ModuleV, Stmt, StmtV, TypeDecl,
    expr_view, exprs_view, stmts_view, lemma_exprs_view, lemma_stmts_view, strings_view,
};
use crate::lang::error::{LangError, LangErrorV};
use crate::lang::lowering::{
    SymbolV, ScopeV, scope_get, LCtx, CollectedV, LSt, empty_state, dot, ui_label, in_port,
    stable_node_id, edge_between, last_arrow, sig_return, find_char, rfind_char, is_unicode_ws,
    trim_start, trim_end, trim, split_state, split_args, sig_args, find_cap, find_intrinsic,
    find_import, resolve_fn, lowering_error, resolve_expr, output_port, plain_node, call_inputs,
    low_call_node, remap_id, remap_edge, edge_into, inline_node, wire_into, first_node, wire_port,
    wire_entries, out_type_of, low_import_call, ids_after, low_stmts, map_iters, low_let,
    low_assign, low_emit, low_map_stmt, low_if_stmt, low_reduce_stmt, has_assign, reduce_iters,
    low_stmt, terminal_inputs, low_return, jobj, constraint_parts, goal_constraint, low_constraints,
    alias_type, type_map, import_map, constraint_ref, ir_goal, build_plan, calls_in_expr,
    calls_in_exprs, calls_in_stmts, calls_in_stmt, resolve_imports, LowerOutV, lower_goal_spec,
    module_of, lower_spec, find_goal, lower_named_spec, lower_goals, lower_all_spec,
};
use crate::lang::module_cache::ModuleCache;
use crate::lang::normalize::{ast_hash, normalize};
use crate::lang::parser::{
    normalize_line_endings, lemma_normalize_newlines_len, lemma_normalize_newlines_idempotent,
    parse,
};
use crate::lang::lexer::cuts_char;
use crate::lang::grammar::normalize_newlines;
use crate::text::{
    chars_of, decimal, push_char, push_str, str_eq, join_sep, dedup_first, kv_insert_exec, kv_view,
    join_sep_exec, str_views,
};

verus! {

// ---------------------------------------------------------------------------
// Texts and ids
// ---------------------------------------------------------------------------

/// `a.b`
fn dot_exec(a: &str, b: &str) -> (r: String)
    ensures
        r@ == dot(a@, b@),
{
    let mut r = String::from_str(a);
    push_char(&mut r, '.');
    push_str(&mut r, b);
    assert(r@ =~= dot(a@, b@));
    r
}

/// `a` followed by `b`.
fn cat(a: &str, b: &str) -> (r: String)
    ensures
        r@ == a@ + b@,
{
    let mut r = String::from_str(a);
    push_str(&mut r, b);
    r
}

fn decimal_text(n: u64) -> (r: String)
    ensures
        r@ == decimal(n as nat),
{
    crate::text::u64_to_decimal(n)
}

fn ui_label_exec(ui: Option<u32>) -> (r: String)
    ensures
        r@ == ui_label(ui),
{
    match ui {
        Some(u) => decimal_text(u as u64),
        None => String::from_str("none"),
    }
}

fn in_port_exec(i: usize) -> (r: String)
    ensures
        r@ == in_port(i as nat),
{
    let d = decimal_text(i as u64);
    cat("in_", d.as_str())
}

/// The node id of a node key: `compute_stable_id("node", key)`.
fn stable_node_id_exec(key: &str) -> (r: String)
    ensures
        r@ == stable_node_id(key@),
{
    compute_stable_id("node", key).to_string()
}

/// An edge between two ports, with its stable id.
fn edge_exec(a: &str, ap: &str, b: &str, bp: &str) -> (e: Edge)
    ensures
        e@ == edge_between(a@, ap@, b@, bp@),
{
    let from = EdgeEndpoint { node_id: String::from_str(a), port: String::from_str(ap) };
    let to = EdgeEndpoint { node_id: String::from_str(b), port: String::from_str(bp) };
    let placeholder = Edge { edge_id: String::from_str("placeholder"), from, to };
    let id = compute_edge_id(&placeholder).to_string();
    Edge { edge_id: id, from: placeholder.from, to: placeholder.to }
}

// ---------------------------------------------------------------------------
// Signatures
// ---------------------------------------------------------------------------

/// The position of the last `->`.
fn last_arrow_exec(cs: &Vec<char>) -> (r: Option<usize>)
    ensures
        r matches Some(p) ==> last_arrow(cs@, cs@.len() - 2) == Some(p as int) && p + 1 < cs@.len(),
        r is None ==> last_arrow(cs@, cs@.len() - 2) is None,
{
    if cs.len() < 2 {
        return None;
    }
    let mut i: usize = cs.len() - 1;
    while i > 0
        invariant
            i <= cs@.len() - 1,
            cs@.len() >= 2,
            last_arrow(cs@, cs@.len() - 2) == last_arrow(cs@, i - 1),
        decreases i,
    {
        if cs[i - 1] == '-' && cs[i] == '>' {
            return Some(i - 1);
        }
        i -= 1;
    }
    None
}

/// The return type of a signature: the text after the last `->`, else `Unknown`.
fn parse_signature_return(sig: &str) -> (r: String)
    ensures
        r@ == sig_return(sig@),
{
    let cs = chars_of(sig);
    match last_arrow_exec(&cs) {
        Some(p) => {
            let mut out = String::new();
            let mut k: usize = p + 2;
            while k < cs.len()
                invariant
                    p + 2 <= k <= cs@.len(),
                    out@ == cs@.subrange(p + 2, k as int),
                decreases cs@.len() - k,
            {
                push_char(&mut out, cs[k]);
                assert(cs@.subrange(p + 2, k + 1) =~= cs@.subrange(p + 2, k as int).push(cs@[k as int]));
                k += 1;
            }
            assert(cs@.subrange(p + 2, cs@.len() as int) =~= sig@.skip(p + 2));
            out
        },
        None => String::from_str("Unknown"),
    }
}

fn is_ws_exec(c: char) -> (r: bool)
    ensures
        r == is_unicode_ws(c),
{
    let u = c as u32;
    (0x9 <= u && u <= 0xd) || u == 0x20 || u == 0x85 || u == 0xa0 || u == 0x1680 || (0x2000 <= u
        && u <= 0x200a) || u == 0x2028 || u == 0x2029 || u == 0x202f || u == 0x205f || u == 0x3000
}

proof fn lemma_trim_start(s: Seq<char>, i: int)
    requires
        0 <= i <= s.len(),
        forall|k: int| 0 <= k < i ==> is_unicode_ws(#[trigger] s[k]),
    ensures
        trim_start(s) == trim_start(s.skip(i)),
    decreases i,
{
    if i > 0 {
        assert(s.drop_first().skip(i - 1) =~= s.skip(i));
        assert forall|k: int| 0 <= k < i - 1 implies is_unicode_ws(#[trigger] s.drop_first()[k]) by {
            assert(s.drop_first()[k] == s[k + 1]);
        }
        lemma_trim_start(s.drop_first(), i - 1);
    } else {
        assert(s.skip(0) =~= s);
    }
}

proof fn lemma_trim_end(s: Seq<char>, j: int)
    requires
        0 <= j <= s.len(),
        forall|k: int| j <= k < s.len() ==> is_unicode_ws(#[trigger] s[k]),
    ensures
        trim_end(s) == trim_end(s.take(j)),
    decreases s.len() - j,
{
    if j < s.len() {
        assert(s.drop_last().take(j) =~= s.take(j));
        lemma_trim_end(s.drop_last(), j);
    } else {
        assert(s.take(j) =~= s);
    }
}

/// `s[a..b]` with surrounding whitespace removed.
fn trimmed(cs: &Vec<char>, a: usize, b: usize) -> (r: String)
    requires
        a <= b <= cs@.len(),
    ensures
        r@ == trim(cs@.subrange(a as int, b as int)),
{
    let ghost s = cs@.subrange(a as int, b as int);
    let mut i: usize = a;
    while i < b && is_ws_exec(cs[i])
        invariant
            a <= i <= b,
            b <= cs@.len(),
            s == cs@.subrange(a as int, b as int),
            forall|k: int| 0 <= k < i - a ==> is_unicode_ws(#[trigger] s[k]),
        decreases b - i,
    {
        assert(s[i - a] == cs@[i as int]);
        i += 1;
    }
    proof {
        lemma_trim_start(s, i - a);
        assert(s.skip(i - a) =~= cs@.subrange(i as int, b as int));
        if i < b {
            assert(s.skip(i - a)[0] == cs@[i as int]);
        }
    }
    let ghost t = cs@.subrange(i as int, b as int);
    assert(trim_start(s) == t);
    let mut j: usize = b;
    while j > i && is_ws_exec(cs[j - 1])
        invariant
            i <= j <= b,
            b <= cs@.len(),
            t == cs@.subrange(i as int, b as int),
            forall|k: int| j - i <= k < t.len() ==> is_unicode_ws(#[trigger] t[k]),
        decreases j,
    {
        assert(t[j - 1 - i] == cs@[j - 1]);
        j -= 1;
    }
    proof {
        lemma_trim_end(t, j - i);
        assert(t.take(j - i) =~= cs@.subrange(i as int, j as int));
    }
    let mut out = String::new();
    let mut k: usize = i;
    while k < j
        invariant
            i <= k <= j,
            j <= cs@.len(),
            out@ == cs@.subrange(i as int, k as int),
        decreases j - k,
    {
        push_char(&mut out, cs[k]);
        assert(cs@.subrange(i as int, k + 1) =~= cs@.subrange(i as int, k as int).push(cs@[k as int]));
        k += 1;
    }
    out
}

/// Splits `s` at commas outside `<...>`; trimmed non-empty pieces.
fn split_args_exec(cs: &Vec<char>, a: usize, b: usize) -> (r: Vec<String>)
    requires
        a <= b <= cs@.len(),
    ensures
        strs_of(r@) == split_args(cs@.subrange(a as int, b as int)),
{
    let ghost s = cs@.subrange(a as int, b as int);
    let mut parts: Vec<String> = Vec::new();
    let mut depth: usize = 0;
    let mut start: usize = a;
    let mut i: usize = a;
    assert(strs_of(parts@) =~= Seq::<Seq<char>>::empty());
    while i < b
        invariant
            a <= start <= i <= b,
            b <= cs@.len(),
            s == cs@.subrange(a as int, b as int),
            split_state(s, i - a) == (strs_of(parts@), start - a, depth as nat),
            depth <= i - a,
        decreases b - i,
    {
        let c = cs[i];
        assert(s[i - a] == c);
        if c == '<' {
            depth = depth + 1;
        } else if c == '>' {
            if depth > 0 {
                depth = depth - 1;
            }
        } else if c == ',' && depth == 0 {
            let arg = trimmed(cs, start, i);
            assert(s.subrange(start - a, i - a) =~= cs@.subrange(start as int, i as int));
            if arg.as_str().unicode_len() > 0 {
                let ghost before = parts@;
                parts.push(arg);
                assert(strs_of(parts@) =~= strs_of(before).push(parts@.last()@));
            }
            start = i + 1;
        }
        i += 1;
    }
    let last = trimmed(cs, start, b);
    assert(s.skip(start - a) =~= cs@.subrange(start as int, b as int));
    if last.as_str().unicode_len() > 0 {
        let ghost before = parts@;
        parts.push(last);
        assert(strs_of(parts@) =~= strs_of(before).push(parts@.last()@));
    }
    parts
}

/// The string views of a list of strings.
pub open spec fn strs_of(v: Seq<String>) -> Seq<Seq<char>> {
    v.map_values(|x: String| x@)
}

/// The first position of `c`.
fn find_char_exec(cs: &Vec<char>, c: char) -> (r: Option<usize>)
    ensures
        r matches Some(p) ==> find_char(cs@, c, 0) == Some(p as int) && p < cs@.len(),
        r is None ==> find_char(cs@, c, 0) is None,
{
    let mut i: usize = 0;
    while i < cs.len()
        invariant
            i <= cs@.len(),
            find_char(cs@, c, 0) == find_char(cs@, c, i as int),
        decreases cs@.len() - i,
    {
        if cs[i] == c {
            return Some(i);
        }
        i += 1;
    }
    None
}

/// The last position of `c` before `end`.
fn rfind_char_exec(cs: &Vec<char>, c: char, end: usize) -> (r: Option<usize>)
    requires
        end <= cs@.len(),
    ensures
        r matches Some(p) ==> rfind_char(cs@, c, end as int) == Some(p as int) && p < end,
        r is None ==> rfind_char(cs@, c, end as int) is None,
{
    let mut i: usize = end;
    while i > 0
        invariant
            i <= end,
            end <= cs@.len(),
            rfind_char(cs@, c, end as int) == rfind_char(cs@, c, i as int),
        decreases i,
    {
        if cs[i - 1] == c {
            return Some(i - 1);
        }
        i -= 1;
    }
    None
}

/// The argument types of a normalized signature.
fn parse_signature_args(sig: &str) -> (r: Vec<String>)
    ensures
        strs_of(r@) == sig_args(sig@),
{
    let cs = chars_of(sig);
    let arrow = match last_arrow_exec(&cs) {
        Some(p) => p,
        None => cs.len(),
    };
    let open = match find_char_exec(&cs, '(') {
        Some(p) => p,
        None => 0,
    };
    let close = match rfind_char_exec(&cs, ')', arrow) {
        Some(p) => p,
        None => arrow,
    };
    if open >= close || open + 1 >= close {
        let v: Vec<String> = Vec::new();
        assert(strs_of(v@) =~= Seq::<Seq<char>>::empty());
        v
    } else {
        split_args_exec(&cs, open + 1, close)
    }
}


// ---------------------------------------------------------------------------
// Symbols, scopes, state
// ---------------------------------------------------------------------------

/// What a name is bound to while lowering.
enum Symbol {
    NodePort { node_id: String, port: String, ty_name: String },
    UrlParam { url_index: u32 },
}

impl View for Symbol {
    type V = SymbolV;

    closed spec fn view(&self) -> SymbolV {
        match self {
            Symbol::NodePort { node_id, port, ty_name } => SymbolV::NodePort { node_id: node_id@, port: port@, ty_name: ty_name@ },
            Symbol::UrlParam { url_index } => SymbolV::UrlParam { url_index: *url_index },
        }
    }
}

fn copy_symbol(s: &Symbol) -> (r: Symbol)
    ensures
        r@ == s@,
{
    match s {
        Symbol::NodePort { node_id, port, ty_name } => Symbol::NodePort { node_id: node_id.clone(), port: port.clone(), ty_name: ty_name.clone() },
        Symbol::UrlParam { url_index } => Symbol::UrlParam { url_index: *url_index },
    }
}

/// Bindings in order; a later binding of a name hides an earlier one.
struct Scope {
    bindings: Vec<(String, Symbol)>,
}

impl View for Scope {
    type V = ScopeV;

    closed spec fn view(&self) -> ScopeV {
        self.bindings@.map_values(|b: (String, Symbol)| (b.0@, b.1@))
    }
}

impl Scope {
    fn new() -> (s: Scope)
        ensures
            s@ == Seq::<(Seq<char>, SymbolV)>::empty(),
    {
        let s = Scope { bindings: Vec::new() };
        assert(s@ =~= Seq::<(Seq<char>, SymbolV)>::empty());
        s
    }

    /// The current binding of a name.
    fn get(&self, name: &str) -> (r: Option<&Symbol>)
        ensures
            match scope_get(self@, name@) {
                Some(x) => r matches Some(y) && y@ == x,
                None => r is None,
            },
    {
        let mut i: usize = self.bindings.len();
        assert(self@.take(i as int) =~= self@);
        while i > 0
            invariant
                i <= self.bindings@.len(),
                self@.len() == self.bindings@.len(),
                scope_get(self@, name@) == scope_get(self@.take(i as int), name@),
            decreases i,
        {
            let ghost t = self@.take(i as int);
            assert(t.drop_last() =~= self@.take(i - 1));
            assert(t.last() == (self.bindings@[i - 1].0@, self.bindings@[i - 1].1@));
            if str_eq(self.bindings[i - 1].0.as_str(), name) {
                return Some(&self.bindings[i - 1].1);
            }
            i -= 1;
        }
        None
    }

    /// Binds a name.
    fn set(&mut self, name: &str, sym: Symbol)
        ensures
            final(self)@ == old(self)@.push((name@, sym@)),
    {
        let ghost before = self@;
        let ghost sv = sym@;
        self.bindings.push((String::from_str(name), sym));
        assert(self@ =~= before.push((name@, sv)));
    }

    /// This scope extended by `__branch_<branch>`, bound to that output port of the `conditional_branch` node.
    fn child_with_gate(&self, gate_id: &str, branch: &str) -> (s: Scope)
        ensures
            s@ == self@.push(
                ("__branch_"@ + branch@, SymbolV::NodePort { node_id: gate_id@, port: branch@, ty_name: "Bool"@ }),
            ),
    {
        let mut bindings: Vec<(String, Symbol)> = Vec::new();
        let mut i: usize = 0;
        while i < self.bindings.len()
            invariant
                i <= self.bindings@.len(),
                bindings@.map_values(|b: (String, Symbol)| (b.0@, b.1@)) == self@.take(i as int),
            decreases self.bindings@.len() - i,
        {
            let ghost before = bindings@;
            bindings.push((self.bindings[i].0.clone(), copy_symbol(&self.bindings[i].1)));
            assert(bindings@.map_values(|b: (String, Symbol)| (b.0@, b.1@))
                =~= before.map_values(|b: (String, Symbol)| (b.0@, b.1@)).push(self@[i as int]));
            assert(self@.take(i + 1) =~= self@.take(i as int).push(self@[i as int]));
            i += 1;
        }
        assert(self@.take(self@.len() as int) =~= self@);
        let mut child = Scope { bindings };
        let key = cat("__branch_", branch);
        child.set(key.as_str(), Symbol::NodePort { node_id: String::from_str(gate_id), port: String::from_str(branch), ty_name: String::from_str("Bool") });
        child
    }
}

/// What lowering has built so far.
struct LowerState {
    nodes: Vec<Node>,
    edges: Vec<Edge>,
    subgraphs: Vec<Subgraph>,
    constraints: Vec<(String, Constraint)>,
    collected: Vec<(u32, String, String, String)>,
    entry_nodes: Vec<String>,
    exit_node: Option<String>,
}

impl View for LowerState {
    type V = LSt;

    closed spec fn view(&self) -> LSt {
        LSt {
            nodes: self.nodes@.map_values(|n: Node| n@),
            edges: self.edges@.map_values(|e: Edge| e@),
            subgraphs: self.subgraphs@.map_values(|s: Subgraph| s@),
            constraints: self.constraints@.map_values(|p: (String, Constraint)| (p.0@, p.1@)),
            collected: self.collected@.map_values(|c: (u32, String, String, String)| (c.0, c.1@, c.2@, c.3@)),
            entry_nodes: self.entry_nodes@.map_values(|s: String| s@),
            exit_node: match self.exit_node {
                Some(x) => Some(x@),
                None => None,
            },
        }
    }
}

/// What lowering reads.
struct LowerCtx<'a> {
    goal_name: &'a str,
    url_count: usize,
    caps: &'a Vec<CapDecl>,
    intrs: &'a Vec<IntrinsicDecl>,
    imports: &'a Vec<(String, &'a PlanIr)>,
}

impl<'a> View for LowerCtx<'a> {
    type V = LCtx;

    closed spec fn view(&self) -> LCtx {
        LCtx {
            goal_name: self.goal_name@,
            url_count: self.url_count as nat,
            caps: self.caps@.map_values(|d: CapDecl| d@),
            intrs: self.intrs@.map_values(|d: IntrinsicDecl| d@),
            imports: self.imports@.map_values(|p: (String, &'a PlanIr)| (p.0@, p.1@)),
        }
    }
}

// ---------------------------------------------------------------------------
// Lookups
// ---------------------------------------------------------------------------

/// The position of the last capability with the given alias.
fn find_cap_exec(caps: &Vec<CapDecl>, name: &str) -> (r: Option<usize>)
    ensures
        match find_cap(caps@.map_values(|d: CapDecl| d@), name@) {
            Some(d) => r matches Some(k) && k < caps@.len() && caps@[k as int]@ == d,
            None => r is None,
        },
{
    let ghost v = caps@.map_values(|d: CapDecl| d@);
    let mut i: usize = caps.len();
    assert(v.take(i as int) =~= v);
    while i > 0
        invariant
            i <= caps@.len(),
            v == caps@.map_values(|d: CapDecl| d@),
            find_cap(v, name@) == find_cap(v.take(i as int), name@),
        decreases i,
    {
        assert(v.take(i as int).drop_last() =~= v.take(i - 1));
        assert(v.take(i as int).last() == caps@[i - 1]@);
        if str_eq(caps[i - 1].alias.as_str(), name) {
            return Some(i - 1);
        }
        i -= 1;
    }
    None
}

/// The position of the last intrinsic with the given alias.
fn find_intrinsic_exec(intrs: &Vec<IntrinsicDecl>, name: &str) -> (r: Option<usize>)
    ensures
        match find_intrinsic(intrs@.map_values(|d: IntrinsicDecl| d@), name@) {
            Some(d) => r matches Some(k) && k < intrs@.len() && intrs@[k as int]@ == d,
            None => r is None,
        },
{
    let ghost v = intrs@.map_values(|d: IntrinsicDecl| d@);
    let mut i: usize = intrs.len();
    assert(v.take(i as int) =~= v);
    while i > 0
        invariant
            i <= intrs@.len(),
            v == intrs@.map_values(|d: IntrinsicDecl| d@),
            find_intrinsic(v, name@) == find_intrinsic(v.take(i as int), name@),
        decreases i,
    {
        assert(v.take(i as int).drop_last() =~= v.take(i - 1));
        assert(v.take(i as int).last() == intrs@[i - 1]@);
        if str_eq(intrs[i - 1].alias.as_str(), name) {
            return Some(i - 1);
        }
        i -= 1;
    }
    None
}

/// The position of the last import with the given alias.
fn find_import_exec<'a>(imports: &Vec<(String, &'a PlanIr)>, name: &str) -> (r: Option<usize>)
    ensures
        match find_import(imports@.map_values(|p: (String, &'a PlanIr)| (p.0@, p.1@)), name@) {
            Some(ir) => r matches Some(k) && k < imports@.len() && imports@[k as int].1@ == ir,
            None => r is None,
        },
{
    let ghost v = imports@.map_values(|p: (String, &'a PlanIr)| (p.0@, p.1@));
    let mut i: usize = imports.len();
    assert(v.take(i as int) =~= v);
    while i > 0
        invariant
            i <= imports@.len(),
            v == imports@.map_values(|p: (String, &'a PlanIr)| (p.0@, p.1@)),
            find_import(v, name@) == find_import(v.take(i as int), name@),
        decreases i,
    {
        assert(v.take(i as int).drop_last() =~= v.take(i - 1));
        assert(v.take(i as int).last() == (imports@[i - 1].0@, imports@[i - 1].1@));
        if str_eq(imports[i - 1].0.as_str(), name) {
            return Some(i - 1);
        }
        i -= 1;
    }
    None
}

/// A function name as (node kind, signature, return type).
fn resolve_fn_exec(c: &LowerCtx, name: &str) -> (r: Result<(NodeKind, String, String), LangError>)
    ensures
        match resolve_fn(c@, name@) {
            Ok((k, sig, out)) => r matches Ok(x) && x.0 == k && x.1@ == sig && x.2@ == out,
            Err(e) => r matches Err(x) && x@ == e,
        },
{
    match find_cap_exec(c.caps, name) {
        Some(k) => {
            let sig = c.caps[k].signature.clone();
            let out = parse_signature_return(sig.as_str());
            return Ok((NodeKind::CapabilityCall, sig, out));
        },
        None => {},
    }
    match find_intrinsic_exec(c.intrs, name) {
        Some(k) => {
            let sig = c.intrs[k].signature.clone();
            let out = parse_signature_return(sig.as_str());
            Ok((NodeKind::Intrinsic, sig, out))
        },
        None => Err(LangError::UnknownCapability(String::from_str(name))),
    }
}

fn lowering_error_exec(expected: &str, got: String) -> (e: LangError)
    ensures
        e@ == lowering_error(expected@, got@),
{
    LangError::UnexpectedToken { expected: String::from_str(expected), got, line: 0 }
}

/// An argument expression as the symbol it names.
fn resolve_expr_exec(e: &Expr, scope: &Scope) -> (r: Result<Symbol, LangError>)
    ensures
        match resolve_expr(e@, scope@) {
            Ok(s) => r matches Ok(x) && x@ == s,
            Err(err) => r matches Err(x) && x@ == err,
        },
{
    match e {
        Expr::Ident { name } => match scope.get(name.as_str()) {
            Some(s) => Ok(copy_symbol(s)),
            None => Err(LangError::UndefinedBinding(name.clone())),
        },
        Expr::StringLit { value } => {
            let mut got = cat("string literal '", value.as_str());
            push_char(&mut got, '\'');
            assert(got@ =~= "string literal '"@ + value@ + "'"@) by {
                reveal_strlit("'");
            }
            Err(lowering_error_exec("identifier or call expression", got))
        },
        _ => Err(lowering_error_exec("identifier", String::from_str("nested call or pure expression"))),
    }
}


// ---------------------------------------------------------------------------
// Call nodes
// ---------------------------------------------------------------------------

pub open spec fn ins_view(v: Seq<InputPort>) -> Seq<InputPortV> {
    v.map_values(|p: InputPort| p@)
}

pub open spec fn edges_view(v: Seq<Edge>) -> Seq<EdgeV> {
    v.map_values(|e: Edge| e@)
}

pub open spec fn nodes_view(v: Seq<Node>) -> Seq<NodeV> {
    v.map_values(|n: Node| n@)
}

/// An error of `call_inputs` on a prefix of the arguments is its error on all of them.
proof fn lemma_call_inputs_err(scope: ScopeV, id: Seq<char>, tys: Seq<Seq<char>>, s: Seq<ExprV>, k: int)
    requires
        0 <= k <= s.len(),
        call_inputs(scope, id, tys, s.take(k)) is Err,
    ensures
        call_inputs(scope, id, tys, s) == call_inputs(scope, id, tys, s.take(k)),
    decreases s.len() - k,
{
    if k < s.len() {
        assert(s.take(k + 1).drop_last() =~= s.take(k));
        lemma_call_inputs_err(scope, id, tys, s, k + 1);
    } else {
        assert(s.take(k) =~= s);
    }
}

/// The input ports and edges for the arguments of a call to `node_id`.
fn call_inputs_exec(scope: &Scope, node_id: &str, tys: &Vec<String>, args: &Vec<Expr>) -> (r: Result<(Vec<InputPort>, Vec<Edge>), LangError>)
    requires
        args@.len() <= tys@.len(),
    ensures
        match call_inputs(scope@, node_id@, strs_of(tys@), exprs_view(args@)) {
            Ok((ins, es)) => r matches Ok(x) && ins_view(x.0@) == ins && edges_view(x.1@) == es,
            Err(e) => r matches Err(x) && x@ == e,
        },
{
    let ghost ev = exprs_view(args@);
    proof {
        lemma_exprs_view(args@);
    }
    let mut ins: Vec<InputPort> = Vec::new();
    let mut es: Vec<Edge> = Vec::new();
    let mut i: usize = 0;
    proof {
        assert(ev.take(0) =~= Seq::<ExprV>::empty());
        assert(ins_view(ins@) =~= Seq::<InputPortV>::empty());
        assert(edges_view(es@) =~= Seq::<EdgeV>::empty());
    }
    while i < args.len()
        invariant
            i <= args@.len(),
            args@.len() <= tys@.len(),
            ev == exprs_view(args@),
            ev.len() == args@.len(),
            forall|k: int| 0 <= k < args@.len() ==> #[trigger] ev[k] == args@[k]@,
            call_inputs(scope@, node_id@, strs_of(tys@), ev.take(i as int)) == Ok::<(Seq<InputPortV>, Seq<EdgeV>), LangErrorV>((ins_view(ins@), edges_view(es@))),
        decreases args@.len() - i,
    {
        let ghost t = ev.take(i + 1);
        proof {
            assert(t.drop_last() =~= ev.take(i as int));
            assert(t.last() == args@[i as int]@);
        }
        let port = in_port_exec(i);
        let ty = tys[i].clone();
        assert(strs_of(tys@)[i as int] == ty@);
        match resolve_expr_exec(&args[i], scope) {
            Err(e) => {
                proof {
                    lemma_call_inputs_err(scope@, node_id@, strs_of(tys@), ev, i + 1);
                }
                return Err(e);
            },
            Ok(Symbol::NodePort { node_id: src, port: sp, .. }) => {
                let e = edge_exec(src.as_str(), sp.as_str(), node_id, port.as_str());
                let eid = e.edge_id.clone();
                let ghost bi = ins@;
                let ghost be = es@;
                let ip = InputPort { port, ty_name: ty, source: Some(EdgeRef { edge_id: eid }) };
                let ghost gip = ip@;
                let ghost ge = e@;
                ins.push(ip);
                es.push(e);
                assert(ins_view(ins@) =~= ins_view(bi).push(gip));
                assert(edges_view(es@) =~= edges_view(be).push(ge));
            },
            Ok(Symbol::UrlParam { .. }) => {
                let ghost bi = ins@;
                let ip = InputPort { port, ty_name: ty, source: None };
                let ghost gip = ip@;
                ins.push(ip);
                assert(ins_view(ins@) =~= ins_view(bi).push(gip));
            },
        }
        i += 1;
    }
    assert(ev.take(ev.len() as int) =~= ev);
    Ok((ins, es))
}

/// The node of a resolved call added to the state.
fn push_call_node(
    st: &mut LowerState,
    id: String,
    kind: NodeKind,
    name: &String,
    sig: String,
    ins: Vec<InputPort>,
    es: Vec<Edge>,
    out_ty: &String,
    profile: DeterminismProfile,
    ui: Option<u32>,
    as_entry: bool,
)
    ensures
        final(st)@ == (LSt {
            nodes: old(st)@.nodes.push(plain_node(id@, kind, name@, sig@, ins_view(ins@), output_port(out_ty@), profile, ui)),
            edges: old(st)@.edges + edges_view(es@),
            entry_nodes: if as_entry && es@.len() == 0 { old(st)@.entry_nodes.push(id@) } else { old(st)@.entry_nodes },
            ..old(st)@
        }),
        final(st).nodes@.len() == old(st).nodes@.len() + 1,
{
    let mut es = es;
    let mut outputs: Vec<OutputPort> = Vec::new();
    outputs.push(OutputPort { port: String::from_str("output"), ty_name: out_ty.clone() });
    let ghost gid = id@;
    let ghost gins = ins_view(ins@);
    let node = Node {
        node_id: id.clone(),
        kind,
        op: Op { name: name.clone(), signature: sig },
        inputs: ins,
        outputs,
        attrs: NodeAttrs { determinism_profile: profile, cost_hints: None, url_index: ui },
        constraints: Vec::new(),
        meta: None,
        import_subgraph_id: None,
    };
    let ghost gnode = node@;
    let ghost ges = edges_view(es@);
    assert(gnode.outputs =~= output_port(out_ty@));
    assert(gnode.constraints =~= Seq::<Seq<char>>::empty());
    assert(gnode.inputs == gins);
    if as_entry && es.len() == 0 {
        let ghost before = st.entry_nodes@;
        st.entry_nodes.push(id);
        assert(st.entry_nodes@.map_values(|s: String| s@) =~= before.map_values(|s: String| s@).push(gid));
    }
    let ghost be = st.edges@;
    st.edges.append(&mut es);
    assert(edges_view(st.edges@) =~= edges_view(be) + ges);
    let ghost bn = st.nodes@;
    st.nodes.push(node);
    assert(nodes_view(st.nodes@) =~= nodes_view(bn).push(gnode));
}

/// Lowering a call (or a `pure { call }`) to a node bound under `binder`.
fn lower_call_node(
    c: &LowerCtx,
    st: &mut LowerState,
    e: &Expr,
    scope: &Scope,
    ui: Option<u32>,
    binder: &str,
) -> (r: Result<(String, String, String), LangError>)
    ensures
        match low_call_node(c@, old(st)@, e@, scope@, ui, binder@) {
            Ok((s2, o)) => r matches Ok(x) && final(st)@ == s2 && x.0@ == o.0 && x.1@ == o.1 && x.2@ == o.2,
            Err(err) => r matches Err(x) && x@ == err,
        },
        r is Ok ==> final(st).nodes@.len() >= old(st).nodes@.len(),
        r is Err ==> final(st)@ == old(st)@,
{
    let (name, args, pure): (&String, &Vec<Expr>, bool) = match e {
        Expr::Call { name, args } => {
            assert(e@ == ExprV::Call { name: name@, args: exprs_view(args@) });
            (name, args, false)
        },
        Expr::Pure { body } => match &**body {
            Expr::Call { name, args } => {
                assert(e@ == ExprV::Pure { body: Box::new(ExprV::Call { name: name@, args: exprs_view(args@) }) });
                (name, args, true)
            },
            _ => {
                assert(!(expr_view(**body) is Call));
                return Err(lowering_error_exec("function call inside pure block", String::from_str("non-call expression")));
            },
        },
        _ => {
            return Err(lowering_error_exec("function call", String::from_str("non-call expression")));
        },
    };
    if !pure {
        match find_import_exec(c.imports, name.as_str()) {
            Some(_) => {
                return lower_import_call(c, st, name.as_str(), args, scope, ui, binder);
            },
            None => {},
        }
    }
    let (kind, sig, out_ty) = match resolve_fn_exec(c, name.as_str()) {
        Ok(x) => x,
        Err(err) => return Err(err),
    };
    if pure && kind == NodeKind::CapabilityCall {
        return Err(LangError::PureBlockContainsCapability(name.clone()));
    }
    let tys = parse_signature_args(sig.as_str());
    proof {
        lemma_exprs_view(args@);
        assert(strs_of(tys@).len() == tys@.len());
    }
    if args.len() != tys.len() {
        return Err(LangError::ArityMismatch { fn_name: name.clone(), expected: tys.len(), got: args.len() });
    }
    let k1 = dot_exec(c.goal_name, binder);
    let k2 = dot_exec(k1.as_str(), name.as_str());
    let lbl = ui_label_exec(ui);
    let k3 = dot_exec(k2.as_str(), lbl.as_str());
    let id = stable_node_id_exec(k3.as_str());
    let profile = if kind == NodeKind::CapabilityCall { DeterminismProfile::Replayable } else { DeterminismProfile::Fixed };
    let (ins, es) = match call_inputs_exec(scope, id.as_str(), &tys, args) {
        Ok(x) => x,
        Err(err) => return Err(err),
    };
    push_call_node(st, id.clone(), kind, name, sig, ins, es, &out_ty, profile, ui, true);
    Ok((id, String::from_str("output"), out_ty))
}


// ---------------------------------------------------------------------------
// Import expansion
// ---------------------------------------------------------------------------

/// Whether `id` names a node of `sub`.
fn is_sub_node(sub: &PlanIr, id: &str) -> (r: bool)
    ensures
        r == sub@.nodes.map_values(|n: NodeV| n.node_id).contains(id@),
{
    let ghost ids = sub@.nodes.map_values(|n: NodeV| n.node_id);
    let mut k: usize = 0;
    while k < sub.nodes.len()
        invariant
            k <= sub.nodes@.len(),
            ids == sub@.nodes.map_values(|n: NodeV| n.node_id),
            ids.len() == sub.nodes@.len(),
            forall|j: int| 0 <= j < k ==> ids[j] != id@,
        decreases sub.nodes@.len() - k,
    {
        assert(ids[k as int] == sub.nodes@[k as int].node_id@);
        if str_eq(sub.nodes[k].node_id.as_str(), id) {
            return true;
        }
        k += 1;
    }
    false
}

/// The call-site id of a node id of the import.
fn remap_exec(sub: &PlanIr, key: &str, id: &str) -> (r: String)
    ensures
        r@ == remap_id(sub@, key@, id@),
{
    if is_sub_node(sub, id) {
        let k = dot_exec(key, id);
        stable_node_id_exec(k.as_str())
    } else {
        String::from_str(id)
    }
}

/// The id of the last edge that ends at the given port.
fn edge_into_exec(es: &Vec<Edge>, to: &str, port: &str) -> (r: Option<String>)
    ensures
        match edge_into(edges_view(es@), to@, port@) {
            Some(x) => r matches Some(y) && y@ == x,
            None => r is None,
        },
{
    let ghost v = edges_view(es@);
    let mut i: usize = es.len();
    assert(v.take(i as int) =~= v);
    while i > 0
        invariant
            i <= es@.len(),
            v == edges_view(es@),
            edge_into(v, to@, port@) == edge_into(v.take(i as int), to@, port@),
        decreases i,
    {
        assert(v.take(i as int).drop_last() =~= v.take(i - 1));
        assert(v.take(i as int).last() == es@[i - 1]@);
        if str_eq(es[i - 1].to.node_id.as_str(), to) && str_eq(es[i - 1].to.port.as_str(), port) {
            return Some(es[i - 1].edge_id.clone());
        }
        i -= 1;
    }
    None
}

fn copy_outputs(v: &Vec<OutputPort>) -> (r: Vec<OutputPort>)
    ensures
        r@.map_values(|p: OutputPort| p@) == v@.map_values(|p: OutputPort| p@),
{
    let mut out: Vec<OutputPort> = Vec::new();
    let mut i: usize = 0;
    while i < v.len()
        invariant
            i <= v@.len(),
            out@.map_values(|p: OutputPort| p@) == v@.take(i as int).map_values(|p: OutputPort| p@),
        decreases v@.len() - i,
    {
        let ghost before = out@;
        out.push(OutputPort { port: v[i].port.clone(), ty_name: v[i].ty_name.clone() });
        assert(out@.map_values(|p: OutputPort| p@) =~= before.map_values(|p: OutputPort| p@).push(v@[i as int]@));
        assert(v@.take(i + 1).map_values(|p: OutputPort| p@) =~= v@.take(i as int).map_values(|p: OutputPort| p@).push(v@[i as int]@));
        i += 1;
    }
    assert(v@.take(v@.len() as int) =~= v@);
    out
}

/// Whether a list of strings holds `x`.
fn strings_contain(v: &Vec<String>, x: &str) -> (r: bool)
    ensures
        r == strs_of(v@).contains(x@),
{
    let mut k: usize = 0;
    while k < v.len()
        invariant
            k <= v@.len(),
            forall|j: int| 0 <= j < k ==> strs_of(v@)[j] != x@,
        decreases v@.len() - k,
    {
        assert(strs_of(v@)[k as int] == v@[k as int]@);
        if str_eq(v[k].as_str(), x) {
            return true;
        }
        k += 1;
    }
    false
}

/// A node of the import copied to the call site.
fn inline_node_exec(
    sub: &PlanIr,
    key: &str,
    es: &Vec<Edge>,
    entries: &Vec<String>,
    ui: Option<u32>,
    tag: &str,
    n: &Node,
) -> (r: Node)
    ensures
        r@ == inline_node(sub@, key@, edges_view(es@), strs_of(entries@), ui, tag@, n@),
{
    let id = remap_exec(sub, key, n.node_id.as_str());
    let is_entry = strings_contain(entries, n.node_id.as_str());
    let ghost target = inline_node(sub@, key@, edges_view(es@), strs_of(entries@), ui, tag@, n@);
    let mut ins: Vec<InputPort> = Vec::new();
    let mut i: usize = 0;
    while i < n.inputs.len()
        invariant
            i <= n.inputs@.len(),
            id@ == remap_id(sub@, key@, n@.node_id),
            is_entry == strs_of(entries@).contains(n@.node_id),
            target == inline_node(sub@, key@, edges_view(es@), strs_of(entries@), ui, tag@, n@),
            ins_view(ins@) == target.inputs.take(i as int),
        decreases n.inputs@.len() - i,
    {
        let src = if is_entry {
            None
        } else {
            match edge_into_exec(es, id.as_str(), n.inputs[i].port.as_str()) {
                Some(eid) => Some(EdgeRef { edge_id: eid }),
                None => None,
            }
        };
        let p = InputPort { port: n.inputs[i].port.clone(), ty_name: n.inputs[i].ty_name.clone(), source: src };
        let ghost gp = p@;
        let ghost before = ins@;
        ins.push(p);
        proof {
            assert(n@.inputs[i as int] == n.inputs@[i as int]@);
            assert(gp == target.inputs[i as int]);
            assert(ins_view(ins@) =~= ins_view(before).push(gp));
            assert(target.inputs.take(i + 1) =~= target.inputs.take(i as int).push(target.inputs[i as int]));
        }
        i += 1;
    }
    assert(target.inputs.take(target.inputs.len() as int) =~= target.inputs);
    let cost = match &n.attrs.cost_hints {
        Some(ch) => Some(CostHints { latency: ch.latency.clone(), cpu: ch.cpu.clone() }),
        None => None,
    };
    let node = Node {
        node_id: id,
        kind: n.kind,
        op: Op { name: n.op.name.clone(), signature: n.op.signature.clone() },
        inputs: ins,
        outputs: copy_outputs(&n.outputs),
        attrs: NodeAttrs { determinism_profile: n.attrs.determinism_profile, cost_hints: cost, url_index: ui },
        constraints: Vec::new(),
        meta: None,
        import_subgraph_id: Some(String::from_str(tag)),
    };
    assert(node@.constraints =~= Seq::<Seq<char>>::empty());
    assert(node@.inputs =~= target.inputs);
    node
}

/// The position of the first node with the given id.
fn first_node_exec(nodes: &Vec<Node>, id: &str) -> (r: Option<usize>)
    ensures
        r matches Some(k) ==> first_node(nodes_view(nodes@), id@, 0) == Some(k as int) && k < nodes@.len(),
        r is None ==> first_node(nodes_view(nodes@), id@, 0) is None,
{
    let ghost v = nodes_view(nodes@);
    let mut i: usize = 0;
    while i < nodes.len()
        invariant
            i <= nodes@.len(),
            v == nodes_view(nodes@),
            v.len() == nodes@.len(),
            first_node(v, id@, 0) == first_node(v, id@, i as int),
        decreases nodes@.len() - i,
    {
        assert(v[i as int] == nodes@[i as int]@);
        if str_eq(nodes[i].node_id.as_str(), id) {
            return Some(i);
        }
        i += 1;
    }
    None
}

/// The first node with the given id gets the edge `eid` into its first `in_0` port.
fn wire_into_exec(nodes: &mut Vec<Node>, id: &str, eid: &str)
    ensures
        nodes_view(final(nodes)@) == wire_into(nodes_view(old(nodes)@), id@, eid@),
        final(nodes)@.len() == old(nodes)@.len(),
{
    match first_node_exec(nodes, id) {
        None => {},
        Some(k) => {
            let ghost v0 = nodes_view(nodes@);
            let mut node = nodes.remove(k);
            let ghost n0 = node@;
            let ghost ins0 = n0.inputs;
            let mut j: usize = 0;
            while j < node.inputs.len() && !str_eq(node.inputs[j].port.as_str(), "in_0")
                invariant
                    j <= node.inputs@.len(),
                    ins0 == ins_view(node.inputs@),
                    wire_port(ins0, eid@, 0) == wire_port(ins0, eid@, j as int),
                decreases node.inputs@.len() - j,
            {
                assert(ins0[j as int] == node.inputs@[j as int]@);
                j += 1;
            }
            if j < node.inputs.len() {
                assert(ins0[j as int] == node.inputs@[j as int]@);
                let mut p = node.inputs.remove(j);
                p.source = Some(EdgeRef { edge_id: String::from_str(eid) });
                let ghost gp = p@;
                node.inputs.insert(j, p);
                assert(ins_view(node.inputs@) =~= ins0.update(j as int, gp));
            }
            let ghost gn = node@;
            nodes.insert(k, node);
            proof {
                assert(gn =~= NodeV { inputs: wire_port(v0[k as int].inputs, eid@, 0), ..v0[k as int] });
                assert(nodes_view(nodes@) =~= v0.update(k as int, gn));
            }
        },
    }
}

/// The call-site argument wired to each entry node of the import.
fn wire_entries_exec(st: &mut LowerState, sub: &PlanIr, key: &str, src: &str, sp: &str, entries: &Vec<String>)
    ensures
        final(st)@ == wire_entries(old(st)@, sub@, key@, src@, sp@, strs_of(entries@)),
        final(st).nodes@.len() == old(st).nodes@.len(),
{
    let ghost st0 = st@;
    let mut i: usize = 0;
    assert(strs_of(entries@.take(0)) =~= Seq::<Seq<char>>::empty());
    while i < entries.len()
        invariant
            i <= entries@.len(),
            st@ == wire_entries(st0, sub@, key@, src@, sp@, strs_of(entries@.take(i as int))),
            st.nodes@.len() == st0.nodes.len(),
            st0 == old(st)@,
        decreases entries@.len() - i,
    {
        proof {
            let t = strs_of(entries@.take(i + 1));
            assert(t.drop_last() =~= strs_of(entries@.take(i as int)));
            assert(t.last() == entries@[i as int]@);
        }
        if is_sub_node(sub, entries[i].as_str()) {
            let k = dot_exec(key, entries[i].as_str());
            let to = stable_node_id_exec(k.as_str());
            let e = edge_exec(src, sp, to.as_str(), "in_0");
            wire_into_exec(&mut st.nodes, to.as_str(), e.edge_id.as_str());
            let ghost ge = e@;
            let ghost be = st.edges@;
            st.edges.push(e);
            assert(edges_view(st.edges@) =~= edges_view(be).push(ge));
        }
        i += 1;
    }
    assert(entries@.take(entries@.len() as int) =~= entries@);
}

/// The output type of the first node with the given id, or `Any`.
fn out_type_of_exec(nodes: &Vec<Node>, id: &str) -> (r: String)
    ensures
        r@ == out_type_of(nodes_view(nodes@), id@),
{
    match first_node_exec(nodes, id) {
        Some(k) => {
            assert(nodes_view(nodes@)[k as int] == nodes@[k as int]@);
            if nodes[k].outputs.len() > 0 {
                assert(nodes@[k as int]@.outputs[0] == nodes@[k as int].outputs@[0]@);
                nodes[k].outputs[0].ty_name.clone()
            } else {
                String::from_str("Any")
            }
        },
        None => String::from_str("Any"),
    }
}

/// The edges of an import under their call-site ids.
fn remap_edges_exec(sub: &PlanIr, key: &str) -> (es: Vec<Edge>)
    ensures
        edges_view(es@) == sub@.edges.map_values(|e: EdgeV| remap_edge(sub@, key@, e)),
{
    let ghost subv = sub@;
    let mut es: Vec<Edge> = Vec::new();
    let mut i: usize = 0;
    assert(edges_view(es@) =~= subv.edges.take(0).map_values(|e: EdgeV| remap_edge(subv, key@, e)));
    while i < sub.edges.len()
        invariant
            i <= sub.edges@.len(),
            subv == sub@,
            edges_view(es@) == subv.edges.take(i as int).map_values(|e: EdgeV| remap_edge(subv, key@, e)),
        decreases sub.edges@.len() - i,
    {
        let e = &sub.edges[i];
        let from = remap_exec(sub, key, e.from.node_id.as_str());
        let to = remap_exec(sub, key, e.to.node_id.as_str());
        let ne = edge_exec(from.as_str(), e.from.port.as_str(), to.as_str(), e.to.port.as_str());
        let ghost gne = ne@;
        let ghost before = es@;
        es.push(ne);
        proof {
            assert(subv.edges[i as int] == sub.edges@[i as int]@);
            assert(edges_view(es@) =~= edges_view(before).push(gne));
            assert(subv.edges.take(i + 1).map_values(|e: EdgeV| remap_edge(subv, key@, e))
                =~= subv.edges.take(i as int).map_values(|e: EdgeV| remap_edge(subv, key@, e)).push(remap_edge(subv, key@, subv.edges[i as int])));
        }
        i += 1;
    }
    assert(subv.edges.take(subv.edges.len() as int) =~= subv.edges);
    es
}

/// The nodes of an import copied to the call site, added to the state; their ids.
fn push_inlined_nodes(
    st: &mut LowerState,
    sub: &PlanIr,
    key: &str,
    es: &Vec<Edge>,
    entries: &Vec<String>,
    ui: Option<u32>,
    tag: &str,
) -> (ids: Vec<String>)
    ensures
        final(st)@ == (LSt {
            nodes: old(st)@.nodes + sub@.nodes.map_values(
                |n: NodeV| inline_node(sub@, key@, edges_view(es@), strs_of(entries@), ui, tag@, n),
            ),
            ..old(st)@
        }),
        strs_of(ids@) == sub@.nodes.map_values(
            |n: NodeV| inline_node(sub@, key@, edges_view(es@), strs_of(entries@), ui, tag@, n),
        ).map_values(|n: NodeV| n.node_id),
        final(st).nodes@.len() >= old(st).nodes@.len(),
{
    let ghost subv = sub@;
    let ghost st0 = st@;
    let ghost target = subv.nodes.map_values(|n: NodeV| inline_node(subv, key@, edges_view(es@), strs_of(entries@), ui, tag@, n));
    let mut ids: Vec<String> = Vec::new();
    let mut j: usize = 0;
    assert(st@ =~= (LSt { nodes: st0.nodes + target.take(0), ..st0 }));
    assert(strs_of(ids@) =~= target.take(0).map_values(|n: NodeV| n.node_id));
    while j < sub.nodes.len()
        invariant
            j <= sub.nodes@.len(),
            subv == sub@,
            target == subv.nodes.map_values(|n: NodeV| inline_node(subv, key@, edges_view(es@), strs_of(entries@), ui, tag@, n)),
            st@ == (LSt { nodes: st0.nodes + target.take(j as int), ..st0 }),
            strs_of(ids@) == target.take(j as int).map_values(|n: NodeV| n.node_id),
            st.nodes@.len() >= old(st).nodes@.len(),
        decreases sub.nodes@.len() - j,
    {
        let nn = inline_node_exec(sub, key, es, entries, ui, tag, &sub.nodes[j]);
        let ghost gnn = nn@;
        proof {
            assert(subv.nodes[j as int] == sub.nodes@[j as int]@);
            assert(gnn == target[j as int]);
        }
        let ghost bi = ids@;
        ids.push(nn.node_id.clone());
        let ghost bn = st.nodes@;
        st.nodes.push(nn);
        proof {
            assert(nodes_view(st.nodes@) =~= nodes_view(bn).push(gnn));
            assert(target.take(j + 1) =~= target.take(j as int).push(target[j as int]));
            assert(strs_of(ids@) =~= strs_of(bi).push(gnn.node_id));
            assert(st@ =~= (LSt { nodes: st0.nodes + target.take(j + 1), ..st0 }));
        }
        j += 1;
    }
    assert(target.take(target.len() as int) =~= target);
    ids
}

/// Inlining the first goal of an imported Plan IR at the call site.
fn lower_import_call(
    c: &LowerCtx,
    st: &mut LowerState,
    name: &str,
    args: &Vec<Expr>,
    scope: &Scope,
    ui: Option<u32>,
    binder: &str,
) -> (r: Result<(String, String, String), LangError>)
    requires
        find_import(c@.imports, name@) is Some,
    ensures
        match low_import_call(c@, old(st)@, name@, exprs_view(args@), scope@, ui, binder@) {
            Ok((s2, o)) => r matches Ok(x) && final(st)@ == s2 && x.0@ == o.0 && x.1@ == o.1 && x.2@ == o.2,
            Err(err) => r matches Err(x) && x@ == err,
        },
        r is Ok ==> final(st).nodes@.len() >= old(st).nodes@.len(),
        r is Err ==> final(st)@ == old(st)@,
{
    reveal(low_import_call);
    let k = match find_import_exec(c.imports, name) {
        Some(k) => k,
        None => {
            return Err(LangError::NoGoals);
        },
    };
    let sub: &PlanIr = c.imports[k].1;
    let tag = compute_plan_ir_hash(sub).to_string();
    if sub.goals.len() == 0 {
        return Err(LangError::NoGoals);
    }
    let goal = &sub.goals[0];
    assert(goal@ == sub@.goals[0]);
    let k1 = dot_exec(c.goal_name, "import");
    let k2 = dot_exec(k1.as_str(), binder);
    let k3 = dot_exec(k2.as_str(), name);
    let lbl = ui_label_exec(ui);
    let key = dot_exec(k3.as_str(), lbl.as_str());
    // Both failures are found before the state changes.
    let source: Option<Symbol> = if args.len() > 0 {
        proof {
            lemma_exprs_view(args@);
        }
        match resolve_expr_exec(&args[0], scope) {
            Err(err) => {
                return Err(err);
            },
            Ok(sym) => Some(sym),
        }
    } else {
        None
    };
    if goal.exit_nodes.len() == 0 {
        return Err(lowering_error_exec("exit node in imported sub-goal", String::from_str("imported Plan IR has no exit nodes")));
    }
    let mut es = remap_edges_exec(sub, key.as_str());
    let ids = push_inlined_nodes(st, sub, key.as_str(), &es, &goal.entry_nodes, ui, tag.as_str());
    let ghost esv = edges_view(es@);
    let ghost be = st.edges@;
    st.edges.append(&mut es);
    assert(edges_view(st.edges@) =~= edges_view(be) + esv);
    match source {
        Some(Symbol::NodePort { node_id: src, port: sp, .. }) => {
            wire_entries_exec(st, sub, key.as_str(), src.as_str(), sp.as_str(), &goal.entry_nodes);
        },
        _ => {},
    }
    assert(goal@.exit_nodes[0] == goal.exit_nodes@[0]@);
    let exit = remap_exec(sub, key.as_str(), goal.exit_nodes[0].as_str());
    let out_ty = out_type_of_exec(&st.nodes, exit.as_str());
    let sg = Subgraph {
        subgraph_id: compute_stable_id("subgraph", key.as_str()).to_string(),
        kind: String::from_str("import"),
        nodes: ids,
        constraints: Vec::new(),
        gate_node_id: None,
    };
    let ghost gsg = sg@;
    assert(gsg.constraints =~= Seq::<Seq<char>>::empty());
    let ghost bs = st.subgraphs@;
    st.subgraphs.push(sg);
    assert(st.subgraphs@.map_values(|s: Subgraph| s@) =~= bs.map_values(|s: Subgraph| s@).push(gsg));
    Ok((exit, String::from_str("output"), out_ty))
}


// ---------------------------------------------------------------------------
// Statements
// ---------------------------------------------------------------------------

/// The ids of the nodes at positions `a..b`.
fn node_ids_between(nodes: &Vec<Node>, a: usize, b: usize) -> (r: Vec<String>)
    requires
        a <= b <= nodes@.len(),
    ensures
        strs_of(r@) == nodes_view(nodes@).subrange(a as int, b as int).map_values(|n: NodeV| n.node_id),
{
    let ghost v = nodes_view(nodes@);
    let mut out: Vec<String> = Vec::new();
    let mut k: usize = a;
    assert(strs_of(out@) =~= v.subrange(a as int, a as int).map_values(|n: NodeV| n.node_id));
    while k < b
        invariant
            a <= k <= b,
            b <= nodes@.len(),
            v == nodes_view(nodes@),
            strs_of(out@) == v.subrange(a as int, k as int).map_values(|n: NodeV| n.node_id),
        decreases b - k,
    {
        let ghost before = out@;
        out.push(nodes[k].node_id.clone());
        proof {
            assert(v[k as int] == nodes@[k as int]@);
            assert(strs_of(out@) =~= strs_of(before).push(v[k as int].node_id));
            assert(v.subrange(a as int, k + 1).map_values(|n: NodeV| n.node_id)
                =~= v.subrange(a as int, k as int).map_values(|n: NodeV| n.node_id).push(v[k as int].node_id));
        }
        k += 1;
    }
    out
}

proof fn lemma_low_stmts_err(c: LCtx, st: LSt, s: Seq<StmtV>, sc: ScopeV, ui: Option<u32>, k: int)
    requires
        0 <= k <= s.len(),
        low_stmts(c, st, s.take(k), sc, ui) is Err,
    ensures
        low_stmts(c, st, s, sc, ui) == low_stmts(c, st, s.take(k), sc, ui),
    decreases s.len() - k,
{
    if k < s.len() {
        assert(s.take(k + 1).drop_last() =~= s.take(k));
        lemma_low_stmts_err(c, st, s, sc, ui, k + 1);
    } else {
        assert(s.take(k) =~= s);
    }
}

proof fn lemma_map_iters_err(c: LCtx, st: LSt, body: Seq<StmtV>, binder: Seq<char>, k: nat, n: nat)
    requires
        k <= n,
        map_iters(c, st, body, binder, k) is Err,
    ensures
        map_iters(c, st, body, binder, n) == map_iters(c, st, body, binder, k),
    decreases n - k,
{
    if k < n {
        lemma_map_iters_err(c, st, body, binder, k + 1, n);
    }
}

proof fn lemma_reduce_iters_err(c: LCtx, st: LSt, body: Seq<StmtV>, binder: Seq<char>, accum: Seq<char>, init: SymbolV, k: nat, n: nat)
    requires
        k <= n,
        reduce_iters(c, st, body, binder, accum, init, k) is Err,
    ensures
        reduce_iters(c, st, body, binder, accum, init, n) == reduce_iters(c, st, body, binder, accum, init, k),
    decreases n - k,
{
    if k < n {
        lemma_reduce_iters_err(c, st, body, binder, accum, init, k + 1, n);
    }
}

/// The statements of a block in order.
fn lower_stmts(c: &LowerCtx, st: &mut LowerState, stmts: &Vec<Stmt>, scope: &mut Scope, ui: Option<u32>) -> (r: Result<(), LangError>)
    ensures
        match low_stmts(c@, old(st)@, stmts_view(stmts@), old(scope)@, ui) {
            Ok((s2, sc2)) => r is Ok && final(st)@ == s2 && final(scope)@ == sc2,
            Err(e) => r matches Err(x) && x@ == e,
        },
        r is Ok ==> final(st).nodes@.len() >= old(st).nodes@.len(),
    decreases stmts@, 0nat,
{
    let ghost sv = stmts_view(stmts@);
    let ghost st0 = st@;
    let ghost sc0 = scope@;
    proof {
        lemma_stmts_view(stmts@);
        assert(sv.take(0) =~= Seq::<StmtV>::empty());
    }
    let mut i: usize = 0;
    while i < stmts.len()
        invariant
            i <= stmts@.len(),
            sv == stmts_view(stmts@),
            sv.len() == stmts@.len(),
            forall|k: int| 0 <= k < stmts@.len() ==> #[trigger] sv[k] == stmts@[k]@,
            low_stmts(c@, st0, sv.take(i as int), sc0, ui) == Ok::<(LSt, ScopeV), LangErrorV>((st@, scope@)),
            st.nodes@.len() >= st0.nodes.len(),
            st0 == old(st)@,
            sc0 == old(scope)@,
        decreases stmts@.len() - i,
    {
        proof {
            assert(decreases_to!(stmts@ => stmts@[i as int]));
            let t = sv.take(i + 1);
            assert(t.drop_last() =~= sv.take(i as int));
            assert(t.last() == stmts@[i as int]@);
        }
        match lower_stmt(c, st, &stmts[i], scope, ui) {
            Err(e) => {
                proof {
                    lemma_low_stmts_err(c@, st0, sv, sc0, ui, i + 1);
                }
                return Err(e);
            },
            Ok(()) => {},
        }
        i += 1;
    }
    assert(sv.take(sv.len() as int) =~= sv);
    Ok(())
}

/// One statement.
fn lower_stmt(c: &LowerCtx, st: &mut LowerState, s: &Stmt, scope: &mut Scope, ui: Option<u32>) -> (r: Result<(), LangError>)
    ensures
        match low_stmt(c@, old(st)@, s@, old(scope)@, ui) {
            Ok((s2, sc2)) => r is Ok && final(st)@ == s2 && final(scope)@ == sc2,
            Err(e) => r matches Err(x) && x@ == e,
        },
        r is Ok ==> final(st).nodes@.len() >= old(st).nodes@.len(),
    decreases s, 2nat,
{
    match s {
        Stmt::Let { name, expr } => {
            assert(s@ == StmtV::Let { name: name@, expr: expr@ });
            assert(low_stmt(c@, st@, s@, scope@, ui) == low_let(c@, st@, name@, expr@, scope@, ui));
            lower_let(c, st, name, expr, scope, ui)
        },
        Stmt::MapOver { list, binder, body } => {
            assert(s@ == StmtV::MapOver { list: list@, binder: binder@, body: stmts_view(body@) });
            assert(low_stmt(c@, st@, s@, scope@, ui) == low_map_stmt(c@, st@, s@, scope@)) by {
                reveal(low_map_stmt);
            }
            lower_map(c, st, s, scope, ui)
        },
        Stmt::If { condition, true_body, false_body } => {
            assert(s@ == StmtV::If { condition: condition@, true_body: stmts_view(true_body@), false_body: stmts_view(false_body@) });
            assert(low_stmt(c@, st@, s@, scope@, ui) == low_if_stmt(c@, st@, s@, scope@, ui)) by {
                reveal(low_if_stmt);
            }
            lower_if(c, st, s, scope, ui)
        },
        Stmt::Reduce { list, binder, accum, body } => {
            assert(s@ == StmtV::Reduce { list: list@, binder: binder@, accum: accum@, body: stmts_view(body@) });
            assert(low_stmt(c@, st@, s@, scope@, ui) == low_reduce_stmt(c@, st@, s@, scope@)) by {
                reveal(low_reduce_stmt);
            }
            lower_reduce(c, st, s, scope, ui)
        },
        Stmt::Assign { name, expr } => {
            assert(s@ == StmtV::Assign { name: name@, expr: expr@ });
            lower_assign(c, st, name, expr, scope, ui)
        },
        Stmt::Emit { expr } => {
            assert(s@ == StmtV::Emit { expr: expr@ });
            lower_emit(c, st, expr, scope, ui)
        },
        Stmt::Return { expr } => {
            assert(s@ == StmtV::Return { expr: expr@ });
            lower_return(c, st, expr, scope)
        },
    }
}

/// `let NAME = CALL;`
fn lower_let(c: &LowerCtx, st: &mut LowerState, name: &String, expr: &Expr, scope: &mut Scope, ui: Option<u32>) -> (r: Result<(), LangError>)
    ensures
        match low_let(c@, old(st)@, name@, expr@, old(scope)@, ui) {
            Ok((s2, sc2)) => r is Ok && final(st)@ == s2 && final(scope)@ == sc2,
            Err(e) => r matches Err(x) && x@ == e,
        },
        r is Ok ==> final(st).nodes@.len() >= old(st).nodes@.len(),
{
    reveal(low_let);
    if scope.get(name.as_str()).is_some() {
        return Err(LangError::ShadowedBinding(name.clone()));
    }
    let (id, port, ty) = match lower_call_node(c, st, expr, scope, ui, name.as_str()) {
        Ok(o) => o,
        Err(e) => return Err(e),
    };
    scope.set(name.as_str(), Symbol::NodePort { node_id: id, port, ty_name: ty });
    Ok(())
}

/// `NAME = CALL;`
fn lower_assign(c: &LowerCtx, st: &mut LowerState, name: &String, expr: &Expr, scope: &mut Scope, ui: Option<u32>) -> (r: Result<(), LangError>)
    ensures
        match low_assign(c@, old(st)@, name@, expr@, old(scope)@, ui) {
            Ok((s2, sc2)) => r is Ok && final(st)@ == s2 && final(scope)@ == sc2,
            Err(e) => r matches Err(x) && x@ == e,
        },
        r is Ok ==> final(st).nodes@.len() >= old(st).nodes@.len(),
{
    reveal(low_assign);
    let mut binder = cat("_assign_", name.as_str());
    push_char(&mut binder, '_');
    let d = decimal_text(st.nodes.len() as u64);
    push_str(&mut binder, d.as_str());
    assert(binder@ =~= "_assign_"@ + name@ + "_"@ + decimal(old(st)@.nodes.len())) by {
        reveal_strlit("_");
    }
    let (id, port, ty) = match lower_call_node(c, st, expr, scope, ui, binder.as_str()) {
        Ok(o) => o,
        Err(e) => return Err(e),
    };
    scope.set(name.as_str(), Symbol::NodePort { node_id: id, port, ty_name: ty });
    Ok(())
}

/// `emit EXPR;`
fn lower_emit(c: &LowerCtx, st: &mut LowerState, expr: &Expr, scope: &mut Scope, ui: Option<u32>) -> (r: Result<(), LangError>)
    ensures
        match low_emit(c@, old(st)@, expr@, old(scope)@, ui) {
            Ok((s2, sc2)) => r is Ok && final(st)@ == s2 && final(scope)@ == sc2,
            Err(e) => r matches Err(x) && x@ == e,
        },
        r is Ok ==> final(st).nodes@.len() >= old(st).nodes@.len(),
{
    reveal(low_emit);
    let u: u32 = match ui {
        Some(x) => x,
        None => 0,
    };
    match expr {
        Expr::Ident { name } => match scope.get(name.as_str()) {
            None => Err(LangError::UndefinedBinding(name.clone())),
            Some(Symbol::NodePort { node_id, port, ty_name }) => {
                let item = (u, node_id.clone(), port.clone(), ty_name.clone());
                let ghost gi = (item.0, item.1@, item.2@, item.3@);
                let ghost before = st.collected@;
                st.collected.push(item);
                assert(st.collected@.map_values(|c: (u32, String, String, String)| (c.0, c.1@, c.2@, c.3@))
                    =~= before.map_values(|c: (u32, String, String, String)| (c.0, c.1@, c.2@, c.3@)).push(gi));
                Ok(())
            },
            Some(Symbol::UrlParam { .. }) => {
                let mut got = cat("URL parameter '", name.as_str());
                push_str(&mut got, "' cannot be emitted directly");
                Err(lowering_error_exec("emit expression", got))
            },
        },
        Expr::Call { .. } => {
            let d = decimal_text(st.collected.len() as u64);
            let binder = cat("_emit_", d.as_str());
            let (id, port, ty) = match lower_call_node(c, st, expr, scope, ui, binder.as_str()) {
                Ok(o) => o,
                Err(e) => return Err(e),
            };
            let ghost gi = (u, id@, port@, ty@);
            let ghost before = st.collected@;
            st.collected.push((u, id, port, ty));
            assert(st.collected@.map_values(|c: (u32, String, String, String)| (c.0, c.1@, c.2@, c.3@))
                =~= before.map_values(|c: (u32, String, String, String)| (c.0, c.1@, c.2@, c.3@)).push(gi));
            Ok(())
        },
        _ => Err(lowering_error_exec("function call or identifier", String::from_str("unsupported emit expression"))),
    }
}

/// The inputs of the terminal node: one per collected value.
fn terminal_inputs_exec(collected: &Vec<(u32, String, String, String)>, id: &str) -> (r: (Vec<InputPort>, Vec<Edge>))
    ensures
        (ins_view(r.0@), edges_view(r.1@)) == terminal_inputs(
            collected@.map_values(|c: (u32, String, String, String)| (c.0, c.1@, c.2@, c.3@)),
            id@,
        ),
{
    let ghost cv = collected@.map_values(|c: (u32, String, String, String)| (c.0, c.1@, c.2@, c.3@));
    let mut ins: Vec<InputPort> = Vec::new();
    let mut es: Vec<Edge> = Vec::new();
    let mut k: usize = 0;
    assert(cv.take(0) =~= Seq::<CollectedV>::empty());
    assert(ins_view(ins@) =~= Seq::<InputPortV>::empty());
    assert(edges_view(es@) =~= Seq::<EdgeV>::empty());
    while k < collected.len()
        invariant
            k <= collected@.len(),
            cv == collected@.map_values(|c: (u32, String, String, String)| (c.0, c.1@, c.2@, c.3@)),
            (ins_view(ins@), edges_view(es@)) == terminal_inputs(cv.take(k as int), id@),
        decreases collected@.len() - k,
    {
        proof {
            let t = cv.take(k + 1);
            assert(t.drop_last() =~= cv.take(k as int));
            assert(t.last() == cv[k as int]);
        }
        let port = in_port_exec(k);
        let e = edge_exec(collected[k].1.as_str(), collected[k].2.as_str(), id, port.as_str());
        let ip = InputPort { port, ty_name: collected[k].3.clone(), source: Some(EdgeRef { edge_id: e.edge_id.clone() }) };
        let ghost gip = ip@;
        let ghost ge = e@;
        let ghost bi = ins@;
        let ghost be = es@;
        ins.push(ip);
        es.push(e);
        assert(ins_view(ins@) =~= ins_view(bi).push(gip));
        assert(edges_view(es@) =~= edges_view(be).push(ge));
        k += 1;
    }
    assert(cv.take(cv.len() as int) =~= cv);
    (ins, es)
}

/// `return EXPR;`
fn lower_return(c: &LowerCtx, st: &mut LowerState, expr: &Expr, scope: &mut Scope) -> (r: Result<(), LangError>)
    ensures
        match low_return(c@, old(st)@, expr@, old(scope)@) {
            Ok((s2, sc2)) => r is Ok && final(st)@ == s2 && final(scope)@ == sc2,
            Err(e) => r matches Err(x) && x@ == e,
        },
        r is Ok ==> final(st).nodes@.len() >= old(st).nodes@.len(),
{
    reveal(low_return);
    match expr {
        Expr::Ident { name } => {
            if !str_eq(name.as_str(), "collected") {
                return match scope.get(name.as_str()) {
                    None => Err(LangError::UndefinedBinding(name.clone())),
                    Some(Symbol::NodePort { node_id, .. }) => {
                        st.exit_node = Some(node_id.clone());
                        Ok(())
                    },
                    Some(Symbol::UrlParam { .. }) => Err(
                        lowering_error_exec("bound value in return", String::from_str("URL parameter cannot be returned directly")),
                    ),
                };
            }
            Err(lowering_error_exec("function call in return statement", String::from_str("bare identifier 'collected'")))
        },
        Expr::Call { name, .. } => {
            let (_, sig, out_ty) = match resolve_fn_exec(c, name.as_str()) {
                Ok(x) => x,
                Err(e) => return Err(e),
            };
            let k = dot_exec(c.goal_name, "terminal");
            let key = dot_exec(k.as_str(), name.as_str());
            let id = stable_node_id_exec(key.as_str());
            let (ins, es) = terminal_inputs_exec(&st.collected, id.as_str());
            push_call_node(st, id.clone(), NodeKind::Aggregate, name, sig, ins, es, &out_ty, DeterminismProfile::Fixed, None, false);
            st.exit_node = Some(id);
            Ok(())
        },
        _ => Err(lowering_error_exec("function call in return statement", String::from_str("non-call expression"))),
    }
}


/// `map LIST as BINDER { BODY }`
fn lower_map(c: &LowerCtx, st: &mut LowerState, s: &Stmt, scope: &mut Scope, ui: Option<u32>) -> (r: Result<(), LangError>)
    requires
        s is MapOver,
    ensures
        match low_map_stmt(c@, old(st)@, s@, old(scope)@) {
            Ok((s2, sc2)) => r is Ok && final(st)@ == s2 && final(scope)@ == sc2,
            Err(e) => r matches Err(x) && x@ == e,
        },
        r is Ok ==> final(st).nodes@.len() >= old(st).nodes@.len(),
    decreases s, 1nat,
{
    reveal(low_map_stmt);
    let (list, binder, body) = match s {
        Stmt::MapOver { list, binder, body } => (list, binder, body),
        _ => {
            return Err(LangError::NoGoals);
        },
    };
    proof {
        assert(decreases_to!(*s => s->MapOver_body));
        assert(decreases_to!(s->MapOver_body => s->MapOver_body@));
    }
    if c.url_count == 0 {
        return Err(LangError::MapRequiresUrlCount);
    }
    let ghost bv = stmts_view(body@);
    let ghost st0 = st@;
    let mut ids: Vec<String> = Vec::new();
    let mut i: usize = 0;
    assert(strs_of(ids@) =~= Seq::<Seq<char>>::empty());
    while i < c.url_count
        invariant
            i <= c.url_count,
            bv == stmts_view(body@),
            decreases_to!(*s => body@),
            map_iters(c@, st0, bv, binder@, i as nat) == Ok::<(LSt, Seq<Seq<char>>), LangErrorV>((st@, strs_of(ids@))),
            st.nodes@.len() >= old(st).nodes@.len(),
            forall|e: LangErrorV| #![auto] map_iters(c@, st0, bv, binder@, c.url_count as nat) == Err::<(LSt, Seq<Seq<char>>), LangErrorV>(e)
                ==> low_map_stmt(c@, old(st)@, s@, old(scope)@) == Err::<(LSt, ScopeV), LangErrorV>(e),
        decreases c.url_count - i,
    {
        let u = i as u32;
        let mut child = Scope::new();
        child.set(binder.as_str(), Symbol::UrlParam { url_index: u });
        let before = st.nodes.len();
        let ghost stb = st@;
        match lower_stmts(c, st, body, &mut child, Some(u)) {
            Err(e) => {
                proof {
                    assert(seq![(binder@, SymbolV::UrlParam { url_index: u })] =~= Seq::<(Seq<char>, SymbolV)>::empty().push((binder@, SymbolV::UrlParam { url_index: u })));
                    lemma_map_iters_err(c@, st0, bv, binder@, (i + 1) as nat, c.url_count as nat);
                }
                return Err(e);
            },
            Ok(()) => {},
        }
        let new_ids = node_ids_between(&st.nodes, before, st.nodes.len());
        let ghost bi = ids@;
        let mut new_ids = new_ids;
        ids.append(&mut new_ids);
        proof {
            assert(seq![(binder@, SymbolV::UrlParam { url_index: u })] =~= Seq::<(Seq<char>, SymbolV)>::empty().push((binder@, SymbolV::UrlParam { url_index: u })));
            assert(nodes_view(st.nodes@).subrange(before as int, st.nodes@.len() as int) =~= st@.nodes.skip(stb.nodes.len() as int));
            assert(strs_of(ids@) =~= strs_of(bi) + ids_after(st@.nodes, stb.nodes.len() as int));
        }
        i += 1;
    }
    let k = dot_exec(c.goal_name, "map");
    let key = dot_exec(k.as_str(), list.as_str());
    let sg = Subgraph {
        subgraph_id: compute_stable_id("subgraph", key.as_str()).to_string(),
        kind: String::from_str("map"),
        nodes: ids,
        constraints: Vec::new(),
        gate_node_id: None,
    };
    let ghost gsg = sg@;
    assert(gsg.constraints =~= Seq::<Seq<char>>::empty());
    let ghost bs = st.subgraphs@;
    st.subgraphs.push(sg);
    assert(st.subgraphs@.map_values(|s: Subgraph| s@) =~= bs.map_values(|s: Subgraph| s@).push(gsg));
    Ok(())
}

/// `if COND { BODY } else { BODY }`
fn lower_if(c: &LowerCtx, st: &mut LowerState, s: &Stmt, scope: &mut Scope, ui: Option<u32>) -> (r: Result<(), LangError>)
    requires
        s is If,
    ensures
        match low_if_stmt(c@, old(st)@, s@, old(scope)@, ui) {
            Ok((s2, sc2)) => r is Ok && final(st)@ == s2 && final(scope)@ == sc2,
            Err(e) => r matches Err(x) && x@ == e,
        },
        r is Ok ==> final(st).nodes@.len() >= old(st).nodes@.len(),
    decreases s, 1nat,
{
    reveal(low_if_stmt);
    let (condition, true_body, false_body) = match s {
        Stmt::If { condition, true_body, false_body } => (condition, true_body, false_body),
        _ => {
            return Err(LangError::NoGoals);
        },
    };
    proof {
        assert(decreases_to!(*s => s->true_body));
        assert(decreases_to!(s->true_body => s->true_body@));
        assert(decreases_to!(*s => s->false_body));
        assert(decreases_to!(s->false_body => s->false_body@));
    }
    let counter = st.nodes.len();
    let d = decimal_text(counter as u64);
    let binder = cat("_if_cond_", d.as_str());
    let (cid, cport, cty) = match lower_call_node(c, st, condition, scope, ui, binder.as_str()) {
        Ok(o) => o,
        Err(e) => return Err(e),
    };
    let k1 = dot_exec(c.goal_name, "if_gate");
    let k2 = dot_exec(k1.as_str(), d.as_str());
    let lbl = ui_label_exec(ui);
    let k3 = dot_exec(k2.as_str(), lbl.as_str());
    let gate = stable_node_id_exec(k3.as_str());
    let ge = edge_exec(cid.as_str(), cport.as_str(), gate.as_str(), "condition");
    let mut sig = cat("conditional_branch(", cty.as_str());
    push_str(&mut sig, ")->Bool");
    let mut inputs: Vec<InputPort> = Vec::new();
    inputs.push(InputPort { port: String::from_str("condition"), ty_name: cty.clone(), source: Some(EdgeRef { edge_id: ge.edge_id.clone() }) });
    let mut outputs: Vec<OutputPort> = Vec::new();
    outputs.push(OutputPort { port: String::from_str("branch_true"), ty_name: String::from_str("Bool") });
    outputs.push(OutputPort { port: String::from_str("branch_false"), ty_name: String::from_str("Bool") });
    let gate_node = Node {
        node_id: gate.clone(),
        kind: NodeKind::Control,
        op: Op { name: String::from_str("conditional_branch"), signature: sig },
        inputs,
        outputs,
        attrs: NodeAttrs { determinism_profile: DeterminismProfile::Fixed, cost_hints: None, url_index: ui },
        constraints: Vec::new(),
        meta: None,
        import_subgraph_id: None,
    };
    let ghost gnode = gate_node@;
    let ghost gge = ge@;
    proof {
        assert(gnode.constraints =~= Seq::<Seq<char>>::empty());
        assert(gnode.inputs =~= seq![InputPortV { port: "condition"@, ty_name: cty@, source: Some(gge.edge_id) }]);
        assert(gnode.outputs =~= seq![
            OutputPortV { port: "branch_true"@, ty_name: "Bool"@ },
            OutputPortV { port: "branch_false"@, ty_name: "Bool"@ },
        ]);
    }
    let ghost bn = st.nodes@;
    let ghost be = st.edges@;
    st.nodes.push(gate_node);
    st.edges.push(ge);
    assert(nodes_view(st.nodes@) =~= nodes_view(bn).push(gnode));
    assert(edges_view(st.edges@) =~= edges_view(be).push(gge));
    let before_true = st.nodes.len();
    let mut tscope = scope.child_with_gate(gate.as_str(), "branch_true");
    match lower_stmts(c, st, true_body, &mut tscope, ui) {
        Err(e) => return Err(e),
        Ok(()) => {},
    }
    let before_false = st.nodes.len();
    let tids = node_ids_between(&st.nodes, before_true, before_false);
    let mut fscope = scope.child_with_gate(gate.as_str(), "branch_false");
    match lower_stmts(c, st, false_body, &mut fscope, ui) {
        Err(e) => return Err(e),
        Ok(()) => {},
    }
    let fids = node_ids_between(&st.nodes, before_false, st.nodes.len());
    let kt = dot_exec(c.goal_name, "if_true");
    let kt2 = dot_exec(kt.as_str(), d.as_str());
    let tsg = Subgraph {
        subgraph_id: compute_stable_id("subgraph", kt2.as_str()).to_string(),
        kind: String::from_str("conditional_true"),
        nodes: tids,
        constraints: Vec::new(),
        gate_node_id: Some(gate.clone()),
    };
    let kf = dot_exec(c.goal_name, "if_false");
    let kf2 = dot_exec(kf.as_str(), d.as_str());
    let fsg = Subgraph {
        subgraph_id: compute_stable_id("subgraph", kf2.as_str()).to_string(),
        kind: String::from_str("conditional_false"),
        nodes: fids,
        constraints: Vec::new(),
        gate_node_id: Some(gate),
    };
    let ghost gt = tsg@;
    let ghost gf = fsg@;
    assert(gt.constraints =~= Seq::<Seq<char>>::empty());
    assert(gf.constraints =~= Seq::<Seq<char>>::empty());
    let ghost bs = st.subgraphs@;
    st.subgraphs.push(tsg);
    st.subgraphs.push(fsg);
    assert(st.subgraphs@.map_values(|s: Subgraph| s@) =~= bs.map_values(|s: Subgraph| s@).push(gt).push(gf));
    assert(nodes_view(st.nodes@).subrange(before_false as int, st.nodes@.len() as int) =~= st@.nodes.skip(before_false as int));
    Ok(())
}

/// Whether the statements assign to the accumulator.
fn has_assign_exec(stmts: &Vec<Stmt>, accum: &str) -> (r: bool)
    ensures
        r == has_assign(stmts_view(stmts@), accum@),
{
    proof {
        lemma_stmts_view(stmts@);
    }
    let mut k: usize = 0;
    while k < stmts.len()
        invariant
            k <= stmts@.len(),
            stmts_view(stmts@).len() == stmts@.len(),
            forall|j: int| 0 <= j < stmts@.len() ==> #[trigger] stmts_view(stmts@)[j] == stmts@[j]@,
            forall|j: int| 0 <= j < k ==> !(#[trigger] stmts_view(stmts@)[j] matches StmtV::Assign { name, .. } && name == accum@),
        decreases stmts@.len() - k,
    {
        match &stmts[k] {
            Stmt::Assign { name, .. } => {
                if str_eq(name.as_str(), accum) {
                    assert(stmts_view(stmts@)[k as int] == stmts@[k as int]@);
                    return true;
                }
            },
            _ => {},
        }
        assert(stmts_view(stmts@)[k as int] == stmts@[k as int]@);
        k += 1;
    }
    false
}

/// `reduce LIST as BINDER into ACCUM { BODY }`
fn lower_reduce(c: &LowerCtx, st: &mut LowerState, s: &Stmt, scope: &mut Scope, ui: Option<u32>) -> (r: Result<(), LangError>)
    requires
        s is Reduce,
    ensures
        match low_reduce_stmt(c@, old(st)@, s@, old(scope)@) {
            Ok((s2, sc2)) => r is Ok && final(st)@ == s2 && final(scope)@ == sc2,
            Err(e) => r matches Err(x) && x@ == e,
        },
        r is Ok ==> final(st).nodes@.len() >= old(st).nodes@.len(),
    decreases s, 1nat,
{
    reveal(low_reduce_stmt);
    let (list, binder, accum, body) = match s {
        Stmt::Reduce { list, binder, accum, body } => (list, binder, accum, body),
        _ => {
            return Err(LangError::NoGoals);
        },
    };
    proof {
        assert(decreases_to!(*s => s->Reduce_body));
        assert(decreases_to!(s->Reduce_body => s->Reduce_body@));
    }
    if c.url_count == 0 {
        return Err(LangError::MapRequiresUrlCount);
    }
    let k1 = dot_exec(c.goal_name, "reduce_init");
    let k2 = dot_exec(k1.as_str(), list.as_str());
    let init_id = stable_node_id_exec(k2.as_str());
    let mut outputs: Vec<OutputPort> = Vec::new();
    outputs.push(OutputPort { port: String::from_str("output"), ty_name: String::from_str("Any") });
    let init = Node {
        node_id: init_id.clone(),
        kind: NodeKind::Control,
        op: Op { name: String::from_str("reduce_init"), signature: String::from_str("reduce_init()->Any") },
        inputs: Vec::new(),
        outputs,
        attrs: NodeAttrs { determinism_profile: DeterminismProfile::Fixed, cost_hints: None, url_index: None },
        constraints: Vec::new(),
        meta: None,
        import_subgraph_id: None,
    };
    let ghost ginit = init@;
    proof {
        assert(ginit.constraints =~= Seq::<Seq<char>>::empty());
        assert(ginit.inputs =~= Seq::<InputPortV>::empty());
        assert(ginit.outputs =~= output_port("Any"@));
    }
    let ghost be = st.entry_nodes@;
    let ghost bn = st.nodes@;
    st.entry_nodes.push(init_id.clone());
    st.nodes.push(init);
    assert(st.entry_nodes@.map_values(|s: String| s@) =~= be.map_values(|s: String| s@).push(init_id@));
    assert(nodes_view(st.nodes@) =~= nodes_view(bn).push(ginit));
    let mut acc = Symbol::NodePort { node_id: init_id, port: String::from_str("output"), ty_name: String::from_str("Any") };
    let ghost bv = stmts_view(body@);
    let ghost st1 = st@;
    let ghost acc0 = acc@;
    let mut ids: Vec<String> = Vec::new();
    let mut i: usize = 0;
    assert(strs_of(ids@) =~= Seq::<Seq<char>>::empty());
    while i < c.url_count
        invariant
            i <= c.url_count,
            bv == stmts_view(body@),
            decreases_to!(*s => body@),
            reduce_iters(c@, st1, bv, binder@, accum@, acc0, i as nat)
                == Ok::<(LSt, SymbolV, Seq<Seq<char>>), LangErrorV>((st@, acc@, strs_of(ids@))),
            st.nodes@.len() >= old(st).nodes@.len(),
            forall|e: LangErrorV| #![auto] reduce_iters(c@, st1, bv, binder@, accum@, acc0, c.url_count as nat) == Err::<(LSt, SymbolV, Seq<Seq<char>>), LangErrorV>(e)
                ==> low_reduce_stmt(c@, old(st)@, s@, old(scope)@) == Err::<(LSt, ScopeV), LangErrorV>(e),
        decreases c.url_count - i,
    {
        let u = i as u32;
        if !has_assign_exec(body, accum.as_str()) {
            proof {
                lemma_reduce_iters_err(c@, st1, bv, binder@, accum@, acc0, (i + 1) as nat, c.url_count as nat);
            }
            return Err(LangError::ReduceBodyMissingAssign(accum.clone()));
        }
        let mut child = Scope::new();
        child.set(binder.as_str(), Symbol::UrlParam { url_index: u });
        child.set(accum.as_str(), copy_symbol(&acc));
        let before = st.nodes.len();
        let ghost stb = st@;
        match lower_stmts(c, st, body, &mut child, Some(u)) {
            Err(e) => {
                proof {
                    assert(seq![(binder@, SymbolV::UrlParam { url_index: u }), (accum@, acc@)]
                        =~= Seq::<(Seq<char>, SymbolV)>::empty().push((binder@, SymbolV::UrlParam { url_index: u })).push((accum@, acc@)));
                    lemma_reduce_iters_err(c@, st1, bv, binder@, accum@, acc0, (i + 1) as nat, c.url_count as nat);
                }
                return Err(e);
            },
            Ok(()) => {},
        }
        proof {
            assert(seq![(binder@, SymbolV::UrlParam { url_index: u }), (accum@, acc@)]
                =~= Seq::<(Seq<char>, SymbolV)>::empty().push((binder@, SymbolV::UrlParam { url_index: u })).push((accum@, acc@)));
        }
        if st.nodes.len() > before {
            let last = st.nodes.len() - 1;
            assert(st@.nodes.last() == st.nodes@[last as int]@);
            let ty = if st.nodes[last].outputs.len() > 0 {
                assert(st.nodes@[last as int]@.outputs[0] == st.nodes@[last as int].outputs@[0]@);
                st.nodes[last].outputs[0].ty_name.clone()
            } else {
                String::from_str("Any")
            };
            acc = Symbol::NodePort { node_id: st.nodes[last].node_id.clone(), port: String::from_str("output"), ty_name: ty };
            let mut new_ids = node_ids_between(&st.nodes, before, st.nodes.len());
            let ghost bi = ids@;
            ids.append(&mut new_ids);
            proof {
                assert(nodes_view(st.nodes@).subrange(before as int, st.nodes@.len() as int) =~= st@.nodes.skip(stb.nodes.len() as int));
                assert(strs_of(ids@) =~= strs_of(bi) + ids_after(st@.nodes, stb.nodes.len() as int));
            }
        }
        i += 1;
    }
    let k3 = dot_exec(c.goal_name, "reduce");
    let key = dot_exec(k3.as_str(), list.as_str());
    let sg = Subgraph {
        subgraph_id: compute_stable_id("subgraph", key.as_str()).to_string(),
        kind: String::from_str("reduce"),
        nodes: ids,
        constraints: Vec::new(),
        gate_node_id: None,
    };
    let ghost gsg = sg@;
    assert(gsg.constraints =~= Seq::<Seq<char>>::empty());
    let ghost bs = st.subgraphs@;
    st.subgraphs.push(sg);
    assert(st.subgraphs@.map_values(|s: Subgraph| s@) =~= bs.map_values(|s: Subgraph| s@).push(gsg));
    scope.set(accum.as_str(), acc);
    Ok(())
}


// ---------------------------------------------------------------------------
// Constraints and the Plan IR
// ---------------------------------------------------------------------------

fn json_obj1(k: &str, v: JsonValue) -> (j: JsonValue)
    ensures
        j@ == jobj(seq![(k@, v@)]),
{
    let mut ps: Vec<(String, JsonValue)> = Vec::new();
    push_member(&mut ps, k, v);
    assert(view_members(ps@) =~= seq![(k@, v@)]);
    JsonValue::Object(ps)
}

fn json_obj2(k1: &str, v1: JsonValue, k2: &str, v2: JsonValue) -> (j: JsonValue)
    ensures
        j@ == jobj(seq![(k1@, v1@), (k2@, v2@)]),
{
    let mut ps: Vec<(String, JsonValue)> = Vec::new();
    push_member(&mut ps, k1, v1);
    push_member(&mut ps, k2, v2);
    assert(view_members(ps@) =~= seq![(k1@, v1@), (k2@, v2@)]);
    JsonValue::Object(ps)
}

/// A constraint's key in the constraint map and its AST.
fn constraint_parts_exec(ce: &ConstraintExpr) -> (r: (String, JsonValue))
    ensures
        r.0@ == constraint_parts(ce@).0,
        r.1@ == constraint_parts(ce@).1,
{
    let op = match ce.op {
        CmpOp::Eq => String::from_str("=="),
        CmpOp::LtEq => String::from_str("<="),
    };
    let (key, left) = match &ce.left {
        ConstraintLeft::Path { segments } => {
            let key = join_sep_exec(segments, ':');
            assert(str_views(segments@) =~= strings_view(segments@));
            let arr = crate::json::strings_to_json(segments);
            assert(arr@ =~~= SJson::Array(strings_view(segments@).map_values(|x: Seq<char>| SJson::Str(x))));
            (key, json_obj1("path", arr))
        },
        ConstraintLeft::FnCall { name, args } => {
            let mut key = name.clone();
            push_char(&mut key, ':');
            let rest = join_sep_exec(args, ':');
            push_str(&mut key, rest.as_str());
            assert(str_views(args@) =~= strings_view(args@));
            assert(key@ =~= name@ + seq![':'] + join_sep(strings_view(args@), ':'));
            let mut items: Vec<JsonValue> = Vec::new();
            let mut i: usize = 0;
            while i < args.len()
                invariant
                    i <= args@.len(),
                    view_elems(items@) == strings_view(args@.take(i as int)).map_values(|a: Seq<char>| jobj(seq![("ident"@, SJson::Str(a))])),
                decreases args@.len() - i,
            {
                let ghost before = items@;
                let e = json_obj1("ident", JsonValue::Str(args[i].clone()));
                let ghost ge = e;
                items.push(e);
                proof {
                    assert(items@.drop_last() =~= before);
                    assert(items@.last() == ge);
                    assert(strings_view(args@.take(i + 1)).map_values(|a: Seq<char>| jobj(seq![("ident"@, SJson::Str(a))]))
                        =~= strings_view(args@.take(i as int)).map_values(|a: Seq<char>| jobj(seq![("ident"@, SJson::Str(a))])).push(ge@));
                }
                i += 1;
            }
            assert(args@.take(args@.len() as int) =~= args@);
            (key, json_obj2("args", JsonValue::Array(items), "fn", JsonValue::Str(name.clone())))
        },
    };
    let right = match &ce.right {
        ConstraintValue::Number { value } => json_obj1("number", JsonValue::Int(*value as i128)),
        ConstraintValue::Rate { value, unit } => json_obj2("rate", JsonValue::Int(*value as i128), "unit", JsonValue::Str(unit.clone())),
        ConstraintValue::StringLit { value } => json_obj1("string", JsonValue::Str(value.clone())),
    };
    let mut ps: Vec<(String, JsonValue)> = Vec::new();
    push_member(&mut ps, "left", left);
    push_member(&mut ps, "op", JsonValue::Str(op));
    push_member(&mut ps, "right", right);
    assert(view_members(ps@) =~= constraint_parts(ce@).1->Object_0);
    (key, JsonValue::Object(ps))
}

/// The goal's constraints added to the constraint map.
fn lower_constraints(st: &mut LowerState, cs: &Vec<ConstraintExpr>)
    ensures
        final(st)@ == low_constraints(old(st)@, cs@.map_values(|c: ConstraintExpr| c@)),
{
    let ghost cv = cs@.map_values(|c: ConstraintExpr| c@);
    let ghost st0 = st@;
    let mut i: usize = 0;
    assert(cv.take(0) =~= Seq::<ConstraintExprV>::empty());
    while i < cs.len()
        invariant
            i <= cs@.len(),
            cv == cs@.map_values(|c: ConstraintExpr| c@),
            st@ == low_constraints(st0, cv.take(i as int)),
        decreases cs@.len() - i,
    {
        proof {
            assert(cv.take(i + 1).drop_last() =~= cv.take(i as int));
            assert(cv.take(i + 1).last() == cs@[i as int]@);
        }
        let (key, ast) = constraint_parts_exec(&cs[i]);
        let c0 = Constraint {
            constraint_id: String::from_str("placeholder"),
            scope: ConstraintScope::Goal,
            expr: IrConstraintExpr { lang: String::from_str("conclave_v0.1"), ast },
        };
        let cid = compute_constraint_id(&c0).to_string();
        let c = Constraint { constraint_id: cid, scope: c0.scope, expr: c0.expr };
        assert(c@ == goal_constraint(cs@[i as int]@));
        kv_insert_exec(&mut st.constraints, key, c);
        i += 1;
    }
    assert(cv.take(cv.len() as int) =~= cv);
}

/// The first occurrence of each id, in order.
fn dedup_ids(v: &Vec<String>) -> (r: Vec<String>)
    ensures
        strs_of(r@) == dedup_first(strs_of(v@)),
{
    let mut out: Vec<String> = Vec::new();
    let mut i: usize = 0;
    assert(strs_of(v@).take(0) =~= Seq::<Seq<char>>::empty());
    assert(strs_of(out@) =~= Seq::<Seq<char>>::empty());
    while i < v.len()
        invariant
            i <= v@.len(),
            strs_of(out@) == dedup_first(strs_of(v@).take(i as int)),
        decreases v@.len() - i,
    {
        proof {
            assert(strs_of(v@).take(i + 1).drop_last() =~= strs_of(v@).take(i as int));
            assert(strs_of(v@).take(i + 1).last() == v@[i as int]@);
        }
        if !strings_contain(&out, v[i].as_str()) {
            let ghost before = out@;
            out.push(v[i].clone());
            assert(strs_of(out@) =~= strs_of(before).push(v@[i as int]@));
        }
        i += 1;
    }
    assert(strs_of(v@).take(v@.len() as int) =~= strs_of(v@));
    out
}

/// The goal entry of the Plan IR.
fn build_goal(st: &LowerState, g: &GoalDecl) -> (r: Goal)
    ensures
        r@ == ir_goal(st@, g@),
{
    let mut refs: Vec<ConstraintRef> = Vec::new();
    let mut i: usize = 0;
    while i < st.constraints.len()
        invariant
            i <= st.constraints@.len(),
            crate::ir::refs_view(refs@) == st@.constraints.take(i as int).map_values(|p: (Seq<char>, ConstraintV)| constraint_ref(p.1)),
        decreases st.constraints@.len() - i,
    {
        let ghost before = refs@;
        let r = ConstraintRef { ref_path: cat("#/constraints/", st.constraints[i].1.constraint_id.as_str()) };
        let ghost gr = r.ref_path@;
        refs.push(r);
        proof {
            assert(st@.constraints[i as int] == (st.constraints@[i as int].0@, st.constraints@[i as int].1@));
            assert(crate::ir::refs_view(refs@) =~= crate::ir::refs_view(before).push(gr));
            assert(st@.constraints.take(i + 1).map_values(|p: (Seq<char>, ConstraintV)| constraint_ref(p.1))
                =~= st@.constraints.take(i as int).map_values(|p: (Seq<char>, ConstraintV)| constraint_ref(p.1)).push(gr));
        }
        i += 1;
    }
    assert(st@.constraints.take(st@.constraints.len() as int) =~= st@.constraints);
    let mut params: Vec<GoalParam> = Vec::new();
    let mut j: usize = 0;
    while j < g.params.len()
        invariant
            j <= g.params@.len(),
            params@.map_values(|p: GoalParam| p@) == g@.params.take(j as int).map_values(
                |p: crate::lang::ast::ParamV| crate::ir::GoalParamV { name: p.name, ty_name: p.ty_name },
            ),
        decreases g.params@.len() - j,
    {
        let ghost before = params@;
        let p = GoalParam { name: g.params[j].name.clone(), ty_name: g.params[j].ty_name.clone() };
        let ghost gp = p@;
        params.push(p);
        proof {
            assert(g@.params[j as int] == g.params@[j as int]@);
            assert(params@.map_values(|p: GoalParam| p@) =~= before.map_values(|p: GoalParam| p@).push(gp));
            assert(g@.params.take(j + 1).map_values(|p: crate::lang::ast::ParamV| crate::ir::GoalParamV { name: p.name, ty_name: p.ty_name })
                =~= g@.params.take(j as int).map_values(|p: crate::lang::ast::ParamV| crate::ir::GoalParamV { name: p.name, ty_name: p.ty_name }).push(gp));
        }
        j += 1;
    }
    assert(g@.params.take(g@.params.len() as int) =~= g@.params);
    let mut rets: Vec<GoalParam> = Vec::new();
    rets.push(GoalParam { name: String::from_str("result"), ty_name: g.returns.clone() });
    let entries = dedup_ids(&st.entry_nodes);
    let mut exits: Vec<String> = Vec::new();
    match &st.exit_node {
        Some(x) => {
            exits.push(x.clone());
        },
        None => {},
    }
    let g0 = Goal {
        goal_id: String::from_str("placeholder"),
        name: g.name.clone(),
        params,
        returns: rets,
        constraints: refs,
        accept: Vec::new(),
        entry_nodes: entries,
        exit_nodes: exits,
    };
    let ghost gv = g0@;
    proof {
        assert(gv.returns =~= seq![crate::ir::GoalParamV { name: "result"@, ty_name: g@.returns }]);
        assert(gv.accept =~= Seq::<Seq<char>>::empty());
        assert(gv.exit_nodes =~= (match st@.exit_node { Some(x) => seq![x], None => Seq::<Seq<char>>::empty() }));
        assert(gv.entry_nodes == dedup_first(st@.entry_nodes));
    }
    let gid = compute_goal_id(&g0).to_string();
    Goal { goal_id: gid, ..g0 }
}

/// The module's types as alias definitions keyed by name.
fn build_types(ts: &Vec<TypeDecl>) -> (r: Vec<(String, TypeDef)>)
    ensures
        kv_view(r@) == type_map(ts@.map_values(|t: TypeDecl| t@)),
{
    let ghost tv = ts@.map_values(|t: TypeDecl| t@);
    let mut m: Vec<(String, TypeDef)> = Vec::new();
    let mut i: usize = 0;
    assert(kv_view(m@) =~= type_map(tv.take(0)));
    while i < ts.len()
        invariant
            i <= ts@.len(),
            tv == ts@.map_values(|t: TypeDecl| t@),
            kv_view(m@) == type_map(tv.take(i as int)),
        decreases ts@.len() - i,
    {
        proof {
            assert(tv.take(i + 1).drop_last() =~= tv.take(i as int));
            assert(tv.take(i + 1).last() == ts@[i as int]@);
        }
        let td = &ts[i];
        let preds = match &td.constraint {
            Some(tc) => {
                let mut v: Vec<Predicate> = Vec::new();
                v.push(Predicate { lang: tc.validator.clone(), expr: tc.pattern.clone() });
                Some(v)
            },
            None => None,
        };
        let def = TypeDef { kind: String::from_str("alias"), of: Some(td.base.clone()), fields: None, variants: None, predicates: preds };
        proof {
            assert(def@.predicates == alias_type(td@).predicates) by {
                match td.constraint {
                    Some(tc) => {
                        assert(def@.predicates->Some_0 =~= seq![(tc.validator@, tc.pattern@)]);
                    },
                    None => {},
                }
            }
            assert(def@ == alias_type(td@));
        }
        kv_insert_exec(&mut m, td.name.clone(), def);
        i += 1;
    }
    assert(tv.take(tv.len() as int) =~= tv);
    m
}

/// The module's imports as alias to hash, keyed by alias.
fn build_imports(is: &Vec<ImportDecl>) -> (r: Vec<(String, String)>)
    ensures
        kv_view(r@) == import_map(is@.map_values(|d: ImportDecl| d@)),
{
    let ghost iv = is@.map_values(|d: ImportDecl| d@);
    let mut m: Vec<(String, String)> = Vec::new();
    let mut i: usize = 0;
    assert(kv_view(m@) =~= import_map(iv.take(0)));
    while i < is.len()
        invariant
            i <= is@.len(),
            iv == is@.map_values(|d: ImportDecl| d@),
            kv_view(m@) == import_map(iv.take(i as int)),
        decreases is@.len() - i,
    {
        proof {
            assert(iv.take(i + 1).drop_last() =~= iv.take(i as int));
            assert(iv.take(i + 1).last() == is@[i as int]@);
        }
        kv_insert_exec(&mut m, is[i].name.clone(), is[i].hash.clone());
        i += 1;
    }
    assert(iv.take(iv.len() as int) =~= iv);
    m
}

/// The Plan IR assembled from the lowering state.
fn build_plan_ir(st: LowerState, m: &Module, g: &GoalDecl, source: &str) -> (r: PlanIr)
    ensures
        r@ == build_plan(st@, m@, g@, source@),
{
    let goal = build_goal(&st, g);
    let mut goals: Vec<Goal> = Vec::new();
    let ghost gg = goal@;
    goals.push(goal);
    let types = build_types(&m.types);
    let imports = build_imports(&m.imports);
    let fp = sha256_str(source).to_string();
    let ghost sv = st@;
    let ir = PlanIr {
        conclave_ir_version: String::from_str("0.1"),
        module: IrModule { name: g.name.clone(), source_fingerprint: fp },
        imports,
        types,
        goals,
        nodes: st.nodes,
        edges: st.edges,
        constraints: st.constraints,
        subgraphs: st.subgraphs,
        exports: Exports { entry_goal: g.name.clone() },
    };
    proof {
        assert(ir@.goals =~= seq![gg]);
        assert(ir@.imports == kv_view(ir.imports@));
        assert(ir@.types == kv_view(ir.types@));
        assert(ir@.constraints == sv.constraints);
    }
    ir
}

// ---------------------------------------------------------------------------
// Function names called by a goal
// ---------------------------------------------------------------------------

proof fn lemma_push_contains(s: Seq<Seq<char>>, x: Seq<char>)
    ensures
        forall|n: Seq<char>| #[trigger] s.push(x).contains(n) <==> s.contains(n) || n == x,
{
    assert forall|n: Seq<char>| #[trigger] s.push(x).contains(n) <==> s.contains(n) || n == x by {
        if s.push(x).contains(n) {
            let i = choose|i: int| 0 <= i < s.push(x).len() && s.push(x)[i] == n;
            if i < s.len() {
                assert(s[i] == n);
            }
        }
        if s.contains(n) {
            let i = choose|i: int| 0 <= i < s.len() && s[i] == n;
            assert(s.push(x)[i] == n);
        }
        if n == x {
            assert(s.push(x)[s.len() as int] == x);
        }
    }
}

/// Adds every function name called in the expression to `out`.
fn collect_call_names_in_expr(e: &Expr, out: &mut Vec<String>)
    ensures
        forall|n: Seq<char>| #[trigger] strs_of(final(out)@).contains(n) <==> strs_of(old(out)@).contains(n) || calls_in_expr(e@, n),
    decreases e,
{
    match e {
        Expr::Call { name, args } => {
            let ghost o0 = strs_of(out@);
            let ghost av = exprs_view(args@);
            proof {
                lemma_exprs_view(args@);
                lemma_push_contains(o0, name@);
            }
            out.push(name.clone());
            assert(strs_of(out@) =~= o0.push(name@));
            let mut i: usize = 0;
            while i < args.len()
                invariant
                    i <= args@.len(),
                    av == exprs_view(args@),
                    e is Call,
                    e->Call_args == *args,
                    av.len() == args@.len(),
                    forall|k: int| 0 <= k < args@.len() ==> #[trigger] av[k] == args@[k]@,
                    forall|n: Seq<char>| #[trigger] strs_of(out@).contains(n) <==> o0.contains(n) || n == name@ || calls_in_exprs(av.take(i as int), n),
                decreases args@.len() - i,
            {
                proof {
                    assert(decreases_to!(*e => e->Call_args));
                    assert(decreases_to!(e->Call_args => e->Call_args@));
                    assert(decreases_to!(e->Call_args@ => e->Call_args@[i as int]));
                }
                let ghost before = strs_of(out@);
                collect_call_names_in_expr(&args[i], out);
                proof {
                    let t = av.take(i + 1);
                    assert(t.drop_last() =~= av.take(i as int));
                    assert(t.last() == args@[i as int]@);
                    assert forall|n: Seq<char>| #[trigger] strs_of(out@).contains(n) <==> o0.contains(n) || n == name@ || calls_in_exprs(t, n) by {
                        assert(calls_in_exprs(t, n) == (calls_in_exprs(av.take(i as int), n) || calls_in_expr(args@[i as int]@, n)));
                        assert(strs_of(out@).contains(n) <==> before.contains(n) || calls_in_expr(args@[i as int]@, n));
                    }
                }
                i += 1;
            }
            assert(av.take(av.len() as int) =~= av);
            assert(e@ == ExprV::Call { name: name@, args: av });
        },
        Expr::Pure { body } => {
            assert(e@ == ExprV::Pure { body: Box::new(expr_view(**body)) });
            collect_call_names_in_expr(&**body, out);
        },
        Expr::Ident { .. } => {},
        Expr::StringLit { .. } => {},
    }
}

/// Adds every function name called in the statement to `out`.
fn collect_call_names_in_stmt(s: &Stmt, out: &mut Vec<String>)
    ensures
        forall|n: Seq<char>| #[trigger] strs_of(final(out)@).contains(n) <==> strs_of(old(out)@).contains(n) || calls_in_stmt(s@, n),
    decreases s, 1nat,
{
    match s {
        Stmt::Let { name, expr } => {
            assert(s@ == StmtV::Let { name: name@, expr: expr@ });
            collect_call_names_in_expr(expr, out);
        },
        Stmt::Assign { name, expr } => {
            assert(s@ == StmtV::Assign { name: name@, expr: expr@ });
            collect_call_names_in_expr(expr, out);
        },
        Stmt::Emit { expr } => {
            assert(s@ == StmtV::Emit { expr: expr@ });
            collect_call_names_in_expr(expr, out);
        },
        Stmt::Return { expr } => {
            assert(s@ == StmtV::Return { expr: expr@ });
            collect_call_names_in_expr(expr, out);
        },
        Stmt::MapOver { list, binder, body } => {
            assert(s@ == StmtV::MapOver { list: list@, binder: binder@, body: stmts_view(body@) });
            proof {
                assert(decreases_to!(*s => s->MapOver_body));
                assert(decreases_to!(s->MapOver_body => s->MapOver_body@));
            }
            collect_call_names(body, out);
        },
        Stmt::Reduce { list, binder, accum, body } => {
            assert(s@ == StmtV::Reduce { list: list@, binder: binder@, accum: accum@, body: stmts_view(body@) });
            proof {
                assert(decreases_to!(*s => s->Reduce_body));
                assert(decreases_to!(s->Reduce_body => s->Reduce_body@));
            }
            collect_call_names(body, out);
        },
        Stmt::If { condition, true_body, false_body } => {
            assert(s@ == StmtV::If { condition: condition@, true_body: stmts_view(true_body@), false_body: stmts_view(false_body@) });
            proof {
                assert(decreases_to!(*s => s->If_true_body));
                assert(decreases_to!(s->If_true_body => s->If_true_body@));
                assert(decreases_to!(*s => s->If_false_body));
                assert(decreases_to!(s->If_false_body => s->If_false_body@));
            }
            collect_call_names_in_expr(condition, out);
            collect_call_names(true_body, out);
            collect_call_names(false_body, out);
        },
    }
}

/// Adds every function name called in the statements to `out`.
fn collect_call_names(stmts: &Vec<Stmt>, out: &mut Vec<String>)
    ensures
        forall|n: Seq<char>| #[trigger] strs_of(final(out)@).contains(n) <==> strs_of(old(out)@).contains(n) || calls_in_stmts(stmts_view(stmts@), n),
    decreases stmts@, 0nat,
{
    let ghost sv = stmts_view(stmts@);
    let ghost o0 = strs_of(out@);
    proof {
        lemma_stmts_view(stmts@);
    }
    let mut i: usize = 0;
    while i < stmts.len()
        invariant
            i <= stmts@.len(),
            sv == stmts_view(stmts@),
            sv.len() == stmts@.len(),
            forall|k: int| 0 <= k < stmts@.len() ==> #[trigger] sv[k] == stmts@[k]@,
            forall|n: Seq<char>| #[trigger] strs_of(out@).contains(n) <==> o0.contains(n) || calls_in_stmts(sv.take(i as int), n),
            o0 == strs_of(old(out)@),
        decreases stmts@.len() - i,
    {
        proof {
            assert(decreases_to!(stmts@ => stmts@[i as int]));
        }
        let ghost before = strs_of(out@);
        collect_call_names_in_stmt(&stmts[i], out);
        proof {
            let t = sv.take(i + 1);
            assert(t.drop_last() =~= sv.take(i as int));
            assert(t.last() == stmts@[i as int]@);
            assert forall|n: Seq<char>| #[trigger] strs_of(out@).contains(n) <==> o0.contains(n) || calls_in_stmts(t, n) by {
                assert(calls_in_stmts(t, n) == (calls_in_stmts(sv.take(i as int), n) || calls_in_stmt(stmts@[i as int]@, n)));
                assert(strs_of(out@).contains(n) <==> before.contains(n) || calls_in_stmt(stmts@[i as int]@, n));
            }
        }
        i += 1;
    }
    assert(sv.take(sv.len() as int) =~= sv);
}

// ---------------------------------------------------------------------------
// Imports
// ---------------------------------------------------------------------------

/// The stored Plan IRs of an optional cache.
pub open spec fn cache_entries(cache: Option<&ModuleCache>) -> Option<Seq<(Seq<char>, PlanIrV)>> {
    match cache {
        Some(c) => Some(c.entries()),
        None => None,
    }
}

proof fn lemma_resolve_imports_err(
    imports: Seq<ImportDeclV>,
    stmts: Seq<StmtV>,
    cache: Option<Seq<(Seq<char>, PlanIrV)>>,
    k: int,
)
    requires
        0 <= k <= imports.len(),
        resolve_imports(imports.take(k), stmts, cache) is Err,
    ensures
        resolve_imports(imports, stmts, cache) == resolve_imports(imports.take(k), stmts, cache),
    decreases imports.len(),
{
    if k == imports.len() {
        assert(imports.take(k) =~= imports);
    } else {
        let d = imports.drop_last();
        assert(d.take(k) =~= imports.take(k));
        lemma_resolve_imports_err(d, stmts, cache, k);
    }
}

/// The imported Plan IRs that the goal calls, looked up in the cache; without
/// a cache any import is `ImportResolutionRequired`.
fn resolve_imports_exec<'c>(
    imports: &Vec<ImportDecl>,
    goal: &GoalDecl,
    cache: Option<&'c ModuleCache>,
) -> (r: Result<Vec<(String, &'c PlanIr)>, LangError>)
    ensures
        match resolve_imports(imports@.map_values(|d: ImportDecl| d@), goal@.stmts, cache_entries(cache)) {
            Ok(v) => r matches Ok(x) && kv_view(x@) == v,
            Err(e) => r matches Err(x) && x@ == e,
        },
{
    let mut called: Vec<String> = Vec::new();
    collect_call_names(&goal.want.stmts, &mut called);
    assert(strs_of(Seq::<String>::empty()) =~= Seq::<Seq<char>>::empty());
    let ghost iv = imports@.map_values(|d: ImportDecl| d@);
    let ghost sv = goal@.stmts;
    let ghost ce = cache_entries(cache);
    let mut out: Vec<(String, &'c PlanIr)> = Vec::new();
    assert(iv.take(0) =~= Seq::<ImportDeclV>::empty());
    assert(kv_view(out@) =~= Seq::<(Seq<char>, PlanIrV)>::empty());
    let mut i: usize = 0;
    while i < imports.len()
        invariant
            i <= imports@.len(),
            iv == imports@.map_values(|d: ImportDecl| d@),
            sv == goal@.stmts,
            ce == cache_entries(cache),
            forall|n: Seq<char>| #[trigger] strs_of(called@).contains(n) <==> calls_in_stmts(sv, n),
            resolve_imports(iv.take(i as int), sv, ce) == Ok::<Seq<(Seq<char>, PlanIrV)>, LangErrorV>(kv_view(out@)),
        decreases imports@.len() - i,
    {
        let imp = &imports[i];
        proof {
            let t = iv.take(i + 1);
            assert(t.drop_last() =~= iv.take(i as int));
            assert(t.last() == imp@);
        }
        match cache {
            None => {
                proof {
                    lemma_resolve_imports_err(iv, sv, ce, i + 1);
                }
                return Err(LangError::ImportResolutionRequired(imp.name.clone()));
            },
            Some(c) => if strings_contain(&called, imp.name.as_str()) {
                match c.require(imp.hash.as_str()) {
                    Err(_) => {
                        proof {
                            lemma_resolve_imports_err(iv, sv, ce, i + 1);
                        }
                        return Err(LangError::ImportNotFound(imp.hash.clone()));
                    },
                    Ok(ir) => {
                        kv_insert_exec(&mut out, imp.name.clone(), ir);
                    },
                }
            },
        }
        i += 1;
    }
    assert(iv.take(iv.len() as int) =~= iv);
    Ok(out)
}

// ---------------------------------------------------------------------------
// Lowering a goal, a source
// ---------------------------------------------------------------------------

/// The output of lowering one goal.
pub struct LowerOutput {
    /// The Plan IR (ready to validate and seal).
    pub plan_ir: PlanIr,
    /// `sha256(<source_bytes>)` of the line-ending-normalized source.
    pub source_hash: String,
    /// `sha256(<canonical_ast_json>)`.
    pub ast_hash: String,
    /// `sha256(<canonical_plan_ir_json>)`.
    pub plan_ir_hash: String,
}

impl View for LowerOutput {
    type V = LowerOutV;

    open spec fn view(&self) -> LowerOutV {
        LowerOutV {
            plan_ir: self.plan_ir@,
            source_hash: self.source_hash@,
            ast_hash: self.ast_hash@,
            plan_ir_hash: self.plan_ir_hash@,
        }
    }
}

/// Lowers one goal of a normalized module whose line-ending-normalized text is `source`.
fn lower_goal_from_module(
    module: &Module,
    goal: &GoalDecl,
    source: &str,
    url_count: usize,
    cache: Option<&ModuleCache>,
) -> (r: Result<LowerOutput, LangError>)
    ensures
        match lower_goal_spec(module@, goal@, source@, url_count as nat, cache_entries(cache)) {
            Ok(v) => r matches Ok(x) && x@ == v,
            Err(e) => r matches Err(x) && x@ == e,
        },
{
    reveal(lower_goal_spec);
    let source_hash = sha256_str(source).to_string();
    let ast_h = ast_hash(module).to_string();
    let resolved = match resolve_imports_exec(&module.imports, goal, cache) {
        Ok(v) => v,
        Err(e) => return Err(e),
    };
    let c = LowerCtx {
        goal_name: goal.name.as_str(),
        url_count,
        caps: &module.capabilities,
        intrs: &module.intrinsics,
        imports: &resolved,
    };
    assert(c@.imports == kv_view(resolved@));
    let mut st = LowerState {
        nodes: Vec::new(),
        edges: Vec::new(),
        subgraphs: Vec::new(),
        constraints: Vec::new(),
        collected: Vec::new(),
        entry_nodes: Vec::new(),
        exit_node: None,
    };
    assert(st@ == empty_state()) by {
        assert(st@.nodes =~= Seq::<NodeV>::empty());
        assert(st@.edges =~= Seq::<EdgeV>::empty());
        assert(st@.subgraphs =~= Seq::<SubgraphV>::empty());
        assert(st@.constraints =~= Seq::<(Seq<char>, ConstraintV)>::empty());
        assert(st@.collected =~= Seq::<CollectedV>::empty());
        assert(st@.entry_nodes =~= Seq::<Seq<char>>::empty());
    }
    let mut scope = Scope::new();
    match lower_stmts(&c, &mut st, &goal.want.stmts, &mut scope, None) {
        Err(e) => return Err(e),
        Ok(()) => {},
    }
    lower_constraints(&mut st, &goal.constraints);
    let plan_ir = build_plan_ir(st, module, goal, source);
    let plan_ir_hash = compute_plan_ir_hash(&plan_ir).to_string();
    Ok(LowerOutput { plan_ir, source_hash, ast_hash: ast_h, plan_ir_hash })
}

/// Lowers the first goal of a Conclave source text to Plan IR.
/// `url_count` is the compile-time list length that `map` and `reduce`
/// expand to.
pub fn lower(source: &str, url_count: usize) -> (r: Result<LowerOutput, LangError>)
    requires
        source@.len() < usize::MAX,
        !cuts_char(normalize_newlines(source@)),
    ensures
        match lower_spec(source@, url_count as nat, None) {
            Ok(v) => r matches Ok(x) && x@ == v,
            Err(e) => r matches Err(x) && x@ == e,
        },
{
    lower_with_cache(source, url_count, None)
}

/// The normalized module of a source text, and the line-ending-normalized text.
fn module_and_text(source: &str) -> (r: Result<(Module, String), LangError>)
    requires
        source@.len() < usize::MAX,
        !cuts_char(normalize_newlines(source@)),
    ensures
        match module_of(source@) {
            Ok(m) => r matches Ok(x) && x.0@ == m && x.1@ == normalize_newlines(source@),
            Err(e) => r matches Err(x) && x@ == e,
        },
{
    let normalized = normalize_line_endings(source);
    proof {
        lemma_normalize_newlines_len(source@);
        lemma_normalize_newlines_idempotent(source@);
    }
    let module = match parse(normalized.as_str()) {
        Ok(m) => m,
        Err(e) => return Err(e),
    };
    match normalize(module) {
        Ok(m) => Ok((m, normalized)),
        Err(e) => Err(e),
    }
}

/// Lowers the first goal, resolving the imports that it calls in `cache`.
/// Any import declaration without a cache is `ImportResolutionRequired`.
pub fn lower_with_cache(source: &str, url_count: usize, cache: Option<&ModuleCache>) -> (r: Result<LowerOutput, LangError>)
    requires
        source@.len() < usize::MAX,
        !cuts_char(normalize_newlines(source@)),
    ensures
        match lower_spec(source@, url_count as nat, cache_entries(cache)) {
            Ok(v) => r matches Ok(x) && x@ == v,
            Err(e) => r matches Err(x) && x@ == e,
        },
{
    let (module, normalized) = match module_and_text(source) {
        Ok(x) => x,
        Err(e) => return Err(e),
    };
    if module.goals.len() == 0 {
        return Err(LangError::NoGoals);
    }
    lower_goal_from_module(&module, &module.goals[0], normalized.as_str(), url_count, cache)
}

/// Lowers the first goal of the given name.
pub fn lower_named(source: &str, goal_name: &str, url_count: usize) -> (r: Result<LowerOutput, LangError>)
    requires
        source@.len() < usize::MAX,
        !cuts_char(normalize_newlines(source@)),
    ensures
        match lower_named_spec(source@, goal_name@, url_count as nat, None) {
            Ok(v) => r matches Ok(x) && x@ == v,
            Err(e) => r matches Err(x) && x@ == e,
        },
{
    lower_named_with_cache(source, goal_name, url_count, None)
}

/// Lowers the first goal of the given name, with an optional module cache.
pub fn lower_named_with_cache(
    source: &str,
    goal_name: &str,
    url_count: usize,
    cache: Option<&ModuleCache>,
) -> (r: Result<LowerOutput, LangError>)
    requires
        source@.len() < usize::MAX,
        !cuts_char(normalize_newlines(source@)),
    ensures
        match lower_named_spec(source@, goal_name@, url_count as nat, cache_entries(cache)) {
            Ok(v) => r matches Ok(x) && x@ == v,
            Err(e) => r matches Err(x) && x@ == e,
        },
{
    let (module, normalized) = match module_and_text(source) {
        Ok(x) => x,
        Err(e) => return Err(e),
    };
    let ghost gv = module@.goals;
    let mut i: usize = 0;
    while i < module.goals.len()
        invariant
            i <= module.goals@.len(),
            gv == module@.goals,
            gv.len() == module.goals@.len(),
            find_goal(gv, goal_name@, 0) == find_goal(gv, goal_name@, i as int),
            module_of(source@) == Ok::<ModuleV, LangErrorV>(module@),
            normalized@ == normalize_newlines(source@),
        decreases module.goals@.len() - i,
    {
        assert(gv[i as int] == module.goals@[i as int]@);
        if str_eq(module.goals[i].name.as_str(), goal_name) {
            return lower_goal_from_module(&module, &module.goals[i], normalized.as_str(), url_count, cache);
        }
        i += 1;
    }
    Err(LangError::GoalNotFound(String::from_str(goal_name)))
}

/// Lowers every goal in order.
pub fn lower_all(source: &str, url_count: usize) -> (r: Result<Vec<LowerOutput>, LangError>)
    requires
        source@.len() < usize::MAX,
        !cuts_char(normalize_newlines(source@)),
    ensures
        match lower_all_spec(source@, url_count as nat, None) {
            Ok(v) => r matches Ok(x) && x@.map_values(|o: LowerOutput| o@) == v,
            Err(e) => r matches Err(x) && x@ == e,
        },
{
    lower_all_with_cache(source, url_count, None)
}

proof fn lemma_lower_goals_err(
    m: ModuleV,
    source: Seq<char>,
    url_count: nat,
    cache: Option<Seq<(Seq<char>, PlanIrV)>>,
    k: nat,
    n: nat,
)
    requires
        k <= n,
        lower_goals(m, source, url_count, cache, k) is Err,
    ensures
        lower_goals(m, source, url_count, cache, n) == lower_goals(m, source, url_count, cache, k),
    decreases n,
{
    if k < n {
        lemma_lower_goals_err(m, source, url_count, cache, k, (n - 1) as nat);
    }
}

/// Lowers every goal in order, with an optional module cache; the first
/// error stops.
pub fn lower_all_with_cache(source: &str, url_count: usize, cache: Option<&ModuleCache>) -> (r: Result<Vec<LowerOutput>, LangError>)
    requires
        source@.len() < usize::MAX,
        !cuts_char(normalize_newlines(source@)),
    ensures
        match lower_all_spec(source@, url_count as nat, cache_entries(cache)) {
            Ok(v) => r matches Ok(x) && x@.map_values(|o: LowerOutput| o@) == v,
            Err(e) => r matches Err(x) && x@ == e,
        },
{
    let (module, normalized) = match module_and_text(source) {
        Ok(x) => x,
        Err(e) => return Err(e),
    };
    if module.goals.len() == 0 {
        return Err(LangError::NoGoals);
    }
    let ghost mv = module@;
    let ghost ce = cache_entries(cache);
    let mut outs: Vec<LowerOutput> = Vec::new();
    assert(outs@.map_values(|o: LowerOutput| o@) =~= Seq::<LowerOutV>::empty());
    let mut i: usize = 0;
    while i < module.goals.len()
        invariant
            i <= module.goals@.len(),
            mv == module@,
            mv.goals.len() == module.goals@.len(),
            ce == cache_entries(cache),
            module_of(source@) == Ok::<ModuleV, LangErrorV>(module@),
            normalized@ == normalize_newlines(source@),
            lower_goals(mv, normalized@, url_count as nat, ce, i as nat)
                == Ok::<Seq<LowerOutV>, LangErrorV>(outs@.map_values(|o: LowerOutput| o@)),
        decreases module.goals@.len() - i,
    {
        assert(mv.goals[i as int] == module.goals@[i as int]@);
        match lower_goal_from_module(&module, &module.goals[i], normalized.as_str(), url_count, cache) {
            Err(e) => {
                proof {
                    lemma_lower_goals_err(mv, normalized@, url_count as nat, ce, (i + 1) as nat, mv.goals.len());
                }
                return Err(e);
            },
            Ok(o) => {
                let ghost before = outs@.map_values(|o: LowerOutput| o@);
                let ghost ov = o@;
                outs.push(o);
                assert(outs@.map_values(|o: LowerOutput| o@) =~= before.push(ov));
            },
        }
        i += 1;
    }
    Ok(outs)
}

} // verus!
