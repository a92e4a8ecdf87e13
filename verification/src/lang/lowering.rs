//! The meaning of lowering: a goal of a normalized module, with the list
//! length `url_count` used to unroll `map` and `reduce`, becomes a Plan IR.
//! These spec functions state, step by step, the graph that lowering builds;
//! `lower.rs` computes it.
use vstd::prelude::*;
use crate::hash::{stable_id_text};
use crate::ir::{
    ConstraintScope, ConstraintV, DeterminismProfile, EdgeV, EndpointV, GoalParamV, GoalV,
    InputPortV, NodeAttrsV, NodeKind, NodeV, OutputPortV, PlanIrV, SubgraphV, TypeDefV,
};
use crate::ir::canonical::{
    constraint_id_body, edge_id_body, entity_id, goal_id_body, obj_lookup, plan_hash,
};
use crate::json::SJson;
use crate::lang::ast::{
    CapDeclV, CmpOp, ConstraintExprV, ConstraintLeftV, ConstraintValueV, ExprV, GoalDeclV,
    ImportDeclV, IntrinsicDeclV, ModuleV, StmtV, TypeDeclV,
};
use crate::lang::error::LangErrorV;
use crate::lang::lexer::{LexStep, SpannedV, TokenV, lex, lex_from, lex_step};
use crate::text::{decimal, kv_insert, join_sep, dedup_first};
use crate::hash::hash_text;
use crate::lang::normalize::ast_hash_text;
use crate::lang::grammar::{parse_spec, normalize_newlines};
use crate::lang::normalize::normalize_spec;
use vstd::utf8::encode_utf8;

verus! {

// ---------------------------------------------------------------------------
// Symbols, scopes, state
// ---------------------------------------------------------------------------

/// What a name is bound to while lowering.
pub enum SymbolV {
    /// The output port of an already-lowered node.
    NodePort { node_id: Seq<char>, port: Seq<char>, ty_name: Seq<char> },
    /// The list element of a `map`/`reduce` iteration.
    UrlParam { url_index: u32 },
}

/// Bindings in order; a later binding of a name hides an earlier one.
pub type ScopeV = Seq<(Seq<char>, SymbolV)>;

/// The current binding of a name.
pub open spec fn scope_get(sc: ScopeV, name: Seq<char>) -> Option<SymbolV>
    decreases sc.len(),
{
    if sc.len() == 0 {
        None
    } else if sc.last().0 == name {
        Some(sc.last().1)
    } else {
        scope_get(sc.drop_last(), name)
    }
}

/// What lowering reads: the goal's name, the list length, the module's
/// declarations and the imported Plan IRs by alias.
pub struct LCtx {
    pub goal_name: Seq<char>,
    pub url_count: nat,
    pub caps: Seq<CapDeclV>,
    pub intrs: Seq<IntrinsicDeclV>,
    pub imports: Seq<(Seq<char>, PlanIrV)>,
}

/// An `emit`ted value: (url index, node id, port, type).
pub type CollectedV = (u32, Seq<char>, Seq<char>, Seq<char>);

/// What lowering has built so far.
pub struct LSt {
    pub nodes: Seq<NodeV>,
    pub edges: Seq<EdgeV>,
    pub subgraphs: Seq<SubgraphV>,
    /// Key-sorted constraints.
    pub constraints: Seq<(Seq<char>, ConstraintV)>,
    pub collected: Seq<CollectedV>,
    pub entry_nodes: Seq<Seq<char>>,
    pub exit_node: Option<Seq<char>>,
}

pub open spec fn empty_state() -> LSt {
    LSt {
        nodes: Seq::empty(),
        edges: Seq::empty(),
        subgraphs: Seq::empty(),
        constraints: Seq::empty(),
        collected: Seq::empty(),
        entry_nodes: Seq::empty(),
        exit_node: None,
    }
}

// ---------------------------------------------------------------------------
// Texts, ids and lookups
// ---------------------------------------------------------------------------

/// `a.b`
pub open spec fn dot(a: Seq<char>, b: Seq<char>) -> Seq<char> {
    a + seq!['.'] + b
}

/// The label of a url index in node keys: its decimal, or `none`.
pub open spec fn ui_label(ui: Option<u32>) -> Seq<char> {
    match ui {
        Some(u) => decimal(u as nat),
        None => "none"@,
    }
}

/// `in_N`
pub open spec fn in_port(i: nat) -> Seq<char> {
    "in_"@ + decimal(i)
}

/// The node id of a node key.
pub open spec fn stable_node_id(key: Seq<char>) -> Seq<char> {
    stable_id_text("node"@, key)
}

/// An edge between two ports, with its stable id.
pub open spec fn edge_between(a: Seq<char>, ap: Seq<char>, b: Seq<char>, bp: Seq<char>) -> EdgeV {
    let from = EndpointV { node_id: a, port: ap };
    let to = EndpointV { node_id: b, port: bp };
    EdgeV { edge_id: entity_id("edge"@, edge_id_body(EdgeV { edge_id: "placeholder"@, from, to })), from, to }
}

/// The first position of `->` from the right.
pub open spec fn last_arrow(s: Seq<char>, i: int) -> Option<int>
    decreases i + 1,
{
    if i < 0 {
        None
    } else if i + 1 < s.len() && s[i] == '-' && s[i + 1] == '>' {
        Some(i)
    } else {
        last_arrow(s, i - 1)
    }
}

/// The return type of a signature: the text after the last `->`, else `Unknown`.
pub open spec fn sig_return(sig: Seq<char>) -> Seq<char> {
    match last_arrow(sig, sig.len() - 2) {
        Some(p) => sig.skip(p + 2),
        None => "Unknown"@,
    }
}

/// The first position of `c`, if any.
pub open spec fn find_char(s: Seq<char>, c: char, i: int) -> Option<int>
    decreases s.len() - i,
{
    if i < 0 || i >= s.len() {
        None
    } else if s[i] == c {
        Some(i)
    } else {
        find_char(s, c, i + 1)
    }
}

/// The last position of `c` before `end`, if any.
pub open spec fn rfind_char(s: Seq<char>, c: char, end: int) -> Option<int>
    decreases end,
{
    if end <= 0 {
        None
    } else if s[end - 1] == c {
        Some(end - 1)
    } else {
        rfind_char(s, c, end - 1)
    }
}

/// `char::is_whitespace`: the Unicode `White_Space` characters.
pub open spec fn is_unicode_ws(c: char) -> bool {
    let u = c as u32;
    (0x9 <= u && u <= 0xd) || u == 0x20 || u == 0x85 || u == 0xa0 || u == 0x1680 || (0x2000 <= u
        && u <= 0x200a) || u == 0x2028 || u == 0x2029 || u == 0x202f || u == 0x205f || u == 0x3000
}

/// The text without leading whitespace.
pub open spec fn trim_start(s: Seq<char>) -> Seq<char>
    decreases s.len(),
{
    if s.len() > 0 && is_unicode_ws(s[0]) { trim_start(s.drop_first()) } else { s }
}

/// The text without trailing whitespace.
pub open spec fn trim_end(s: Seq<char>) -> Seq<char>
    decreases s.len(),
{
    if s.len() > 0 && is_unicode_ws(s.last()) { trim_end(s.drop_last()) } else { s }
}

pub open spec fn trim(s: Seq<char>) -> Seq<char> {
    trim_end(trim_start(s))
}

/// The pieces of `s[..i]` split at top-level commas (outside `<...>`):
/// the trimmed non-empty pieces so far, the start of the current piece and
/// the nesting depth.
pub open spec fn split_state(s: Seq<char>, i: int) -> (Seq<Seq<char>>, int, nat)
    decreases i,
{
    if i <= 0 {
        (Seq::empty(), 0, 0)
    } else {
        let (parts, start, depth) = split_state(s, i - 1);
        let c = s[i - 1];
        if c == '<' {
            (parts, start, depth + 1)
        } else if c == '>' {
            (parts, start, if depth > 0 { (depth - 1) as nat } else { 0 })
        } else if c == ',' && depth == 0 {
            let arg = trim(s.subrange(start, i - 1));
            (if arg.len() > 0 { parts.push(arg) } else { parts }, i, depth)
        } else {
            (parts, start, depth)
        }
    }
}

/// The arguments of a comma-separated list, split at top-level commas.
pub open spec fn split_args(s: Seq<char>) -> Seq<Seq<char>> {
    let (parts, start, _) = split_state(s, s.len() as int);
    let last = trim(s.skip(start));
    if last.len() > 0 { parts.push(last) } else { parts }
}

/// The argument types of a signature `name(A, B)->R`: the text between the
/// first `(` and the last `)` before the last `->`, split at top-level commas.
/// (A signature whose `(` comes after that `)` has no arguments here; the
/// parser never makes one.)
pub open spec fn sig_args(sig: Seq<char>) -> Seq<Seq<char>> {
    let arrow = match last_arrow(sig, sig.len() - 2) {
        Some(p) => p,
        None => sig.len() as int,
    };
    let open = match find_char(sig, '(', 0) {
        Some(p) => p,
        None => 0,
    };
    let close = match rfind_char(sig, ')', arrow) {
        Some(p) => p,
        None => arrow,
    };
    if open + 1 >= close { Seq::empty() } else { split_args(sig.subrange(open + 1, close)) }
}

/// The last capability with the given alias.
pub open spec fn find_cap(caps: Seq<CapDeclV>, name: Seq<char>) -> Option<CapDeclV>
    decreases caps.len(),
{
    if caps.len() == 0 {
        None
    } else if caps.last().alias == name {
        Some(caps.last())
    } else {
        find_cap(caps.drop_last(), name)
    }
}

/// The last intrinsic with the given alias.
pub open spec fn find_intrinsic(intrs: Seq<IntrinsicDeclV>, name: Seq<char>) -> Option<IntrinsicDeclV>
    decreases intrs.len(),
{
    if intrs.len() == 0 {
        None
    } else if intrs.last().alias == name {
        Some(intrs.last())
    } else {
        find_intrinsic(intrs.drop_last(), name)
    }
}

/// The last imported Plan IR under the given alias.
pub open spec fn find_import(imports: Seq<(Seq<char>, PlanIrV)>, name: Seq<char>) -> Option<PlanIrV>
    decreases imports.len(),
{
    if imports.len() == 0 {
        None
    } else if imports.last().0 == name {
        Some(imports.last().1)
    } else {
        find_import(imports.drop_last(), name)
    }
}

/// A function name as (node kind, signature, return type).
pub open spec fn resolve_fn(c: LCtx, name: Seq<char>) -> Result<(NodeKind, Seq<char>, Seq<char>), LangErrorV> {
    match find_cap(c.caps, name) {
        Some(d) => Ok((NodeKind::CapabilityCall, d.signature, sig_return(d.signature))),
        None => match find_intrinsic(c.intrs, name) {
            Some(d) => Ok((NodeKind::Intrinsic, d.signature, sig_return(d.signature))),
            None => Err(LangErrorV::UnknownCapability(name)),
        },
    }
}

pub open spec fn lowering_error(expected: Seq<char>, got: Seq<char>) -> LangErrorV {
    LangErrorV::UnexpectedToken { expected, got, line: 0 }
}

/// An argument expression as the symbol it names.
pub open spec fn resolve_expr(e: ExprV, scope: ScopeV) -> Result<SymbolV, LangErrorV> {
    match e {
        ExprV::Ident { name } => match scope_get(scope, name) {
            Some(s) => Ok(s),
            None => Err(LangErrorV::UndefinedBinding(name)),
        },
        ExprV::StringLit { value } => Err(
            lowering_error("identifier or call expression"@, "string literal '"@ + value + "'"@),
        ),
        _ => Err(lowering_error("identifier"@, "nested call or pure expression"@)),
    }
}

// ---------------------------------------------------------------------------
// Nodes
// ---------------------------------------------------------------------------

pub open spec fn output_port(ty: Seq<char>) -> Seq<OutputPortV> {
    seq![OutputPortV { port: "output"@, ty_name: ty }]
}

pub open spec fn plain_node(
    id: Seq<char>,
    kind: NodeKind,
    name: Seq<char>,
    sig: Seq<char>,
    inputs: Seq<InputPortV>,
    outputs: Seq<OutputPortV>,
    profile: DeterminismProfile,
    ui: Option<u32>,
) -> NodeV {
    NodeV {
        node_id: id,
        kind,
        op_name: name,
        op_signature: sig,
        inputs,
        outputs,
        attrs: NodeAttrsV { determinism_profile: profile, cost_hints: None, url_index: ui },
        constraints: Seq::empty(),
        meta: None,
        import_subgraph_id: None,
    }
}

/// The input ports (and the edges that feed them) for the arguments of a
/// call to the node `node_id`; the first argument that names nothing is the error.
pub open spec fn call_inputs(
    scope: ScopeV,
    node_id: Seq<char>,
    tys: Seq<Seq<char>>,
    args: Seq<ExprV>,
) -> Result<(Seq<InputPortV>, Seq<EdgeV>), LangErrorV>
    decreases args.len(),
{
    if args.len() == 0 {
        Ok((Seq::empty(), Seq::empty()))
    } else {
        match call_inputs(scope, node_id, tys, args.drop_last()) {
            Err(e) => Err(e),
            Ok((ins, es)) => {
                let i = (args.len() - 1) as nat;
                let port = in_port(i);
                match resolve_expr(args.last(), scope) {
                    Err(e) => Err(e),
                    Ok(SymbolV::NodePort { node_id: src, port: sp, .. }) => {
                        let e = edge_between(src, sp, node_id, port);
                        Ok((ins.push(InputPortV { port, ty_name: tys[i as int], source: Some(e.edge_id) }), es.push(e)))
                    },
                    Ok(SymbolV::UrlParam { .. }) => Ok((ins.push(InputPortV { port, ty_name: tys[i as int], source: None }), es)),
                }
            },
        }
    }
}

/// The result of a call node: (node id, output port, output type).
pub type CallOut = (Seq<char>, Seq<char>, Seq<char>);

/// Lowering a call (or a `pure { call }`) to a node bound under `binder`.
pub open spec fn low_call_node(
    c: LCtx,
    st: LSt,
    e: ExprV,
    scope: ScopeV,
    ui: Option<u32>,
    binder: Seq<char>,
) -> Result<(LSt, CallOut), LangErrorV> {
    let parts: Result<(Seq<char>, Seq<ExprV>, bool), LangErrorV> = match e {
        ExprV::Call { name, args } => Ok((name, args, false)),
        ExprV::Pure { body } => match *body {
            ExprV::Call { name, args } => Ok((name, args, true)),
            _ => Err(lowering_error("function call inside pure block"@, "non-call expression"@)),
        },
        _ => Err(lowering_error("function call"@, "non-call expression"@)),
    };
    match parts {
        Err(err) => Err(err),
        Ok((name, args, pure)) => if !pure && find_import(c.imports, name) is Some {
            low_import_call(c, st, name, args, scope, ui, binder)
        } else {
            match resolve_fn(c, name) {
                Err(err) => Err(err),
                Ok((kind, sig, out_ty)) => if pure && kind == NodeKind::CapabilityCall {
                    Err(LangErrorV::PureBlockContainsCapability(name))
                } else if args.len() != sig_args(sig).len() {
                    Err(LangErrorV::ArityMismatch { fn_name: name, expected: sig_args(sig).len(), got: args.len() })
                } else {
                    let id = stable_node_id(dot(dot(dot(c.goal_name, binder), name), ui_label(ui)));
                    let profile = if kind == NodeKind::CapabilityCall {
                        DeterminismProfile::Replayable
                    } else {
                        DeterminismProfile::Fixed
                    };
                    match call_inputs(scope, id, sig_args(sig), args) {
                        Err(err) => Err(err),
                        Ok((ins, es)) => {
                            let node = plain_node(id, kind, name, sig, ins, output_port(out_ty), profile, ui);
                            Ok((
                                LSt {
                                    nodes: st.nodes.push(node),
                                    edges: st.edges + es,
                                    entry_nodes: if es.len() == 0 { st.entry_nodes.push(id) } else { st.entry_nodes },
                                    ..st
                                },
                                (id, "output"@, out_ty),
                            ))
                        },
                    }
                }
            }
        },
    }
}

// ---------------------------------------------------------------------------
// Import expansion
// ---------------------------------------------------------------------------

/// The new id of a node of an imported IR: a node of the import gets a
/// stable id from the call site, any other id is kept.
pub open spec fn remap_id(sub: PlanIrV, prefix: Seq<char>, id: Seq<char>) -> Seq<char> {
    if sub.nodes.map_values(|n: NodeV| n.node_id).contains(id) {
        stable_node_id(dot(prefix, id))
    } else {
        id
    }
}

pub open spec fn remap_edge(sub: PlanIrV, prefix: Seq<char>, e: EdgeV) -> EdgeV {
    edge_between(remap_id(sub, prefix, e.from.node_id), e.from.port, remap_id(sub, prefix, e.to.node_id), e.to.port)
}

/// The id of the last remapped edge that ends at port `port` of node `to`.
pub open spec fn edge_into(es: Seq<EdgeV>, to: Seq<char>, port: Seq<char>) -> Option<Seq<char>>
    decreases es.len(),
{
    if es.len() == 0 {
        None
    } else if es.last().to.node_id == to && es.last().to.port == port {
        Some(es.last().edge_id)
    } else {
        edge_into(es.drop_last(), to, port)
    }
}

/// A node of the import copied to the call site.
pub open spec fn inline_node(
    sub: PlanIrV,
    prefix: Seq<char>,
    es: Seq<EdgeV>,
    entries: Seq<Seq<char>>,
    ui: Option<u32>,
    tag: Seq<char>,
    n: NodeV,
) -> NodeV {
    let id = remap_id(sub, prefix, n.node_id);
    NodeV {
        node_id: id,
        kind: n.kind,
        op_name: n.op_name,
        op_signature: n.op_signature,
        inputs: n.inputs.map_values(
            |p: InputPortV|
                InputPortV {
                    port: p.port,
                    ty_name: p.ty_name,
                    source: if entries.contains(n.node_id) { None } else { edge_into(es, id, p.port) },
                },
        ),
        outputs: n.outputs,
        attrs: NodeAttrsV { determinism_profile: n.attrs.determinism_profile, cost_hints: n.attrs.cost_hints, url_index: ui },
        constraints: Seq::empty(),
        meta: None,
        import_subgraph_id: Some(tag),
    }
}

/// The first node with the given id gets the edge `eid` into its first `in_0` port.
pub open spec fn wire_into(nodes: Seq<NodeV>, id: Seq<char>, eid: Seq<char>) -> Seq<NodeV> {
    match first_node(nodes, id, 0) {
        Some(k) => nodes.update(k, NodeV { inputs: wire_port(nodes[k].inputs, eid, 0), ..nodes[k] }),
        None => nodes,
    }
}

/// The first position at or after `i` of a node with the given id.
pub open spec fn first_node(nodes: Seq<NodeV>, id: Seq<char>, i: int) -> Option<int>
    decreases nodes.len() - i,
{
    if i < 0 || i >= nodes.len() {
        None
    } else if nodes[i].node_id == id {
        Some(i)
    } else {
        first_node(nodes, id, i + 1)
    }
}

/// The first port `in_0` at or after `i` gets its source set to `eid`.
pub open spec fn wire_port(ins: Seq<InputPortV>, eid: Seq<char>, i: int) -> Seq<InputPortV>
    decreases ins.len() - i,
{
    if i < 0 || i >= ins.len() {
        ins
    } else if ins[i].port == "in_0"@ {
        ins.update(i, InputPortV { source: Some(eid), ..ins[i] })
    } else {
        wire_port(ins, eid, i + 1)
    }
}

/// Wiring the call-site argument to each entry node of the import (those
/// entries that are nodes of the import), in order.
pub open spec fn wire_entries(
    st: LSt,
    sub: PlanIrV,
    prefix: Seq<char>,
    src: Seq<char>,
    sp: Seq<char>,
    entries: Seq<Seq<char>>,
) -> LSt
    decreases entries.len(),
{
    if entries.len() == 0 {
        st
    } else {
        let st2 = wire_entries(st, sub, prefix, src, sp, entries.drop_last());
        let orig = entries.last();
        if sub.nodes.map_values(|n: NodeV| n.node_id).contains(orig) {
            let to = stable_node_id(dot(prefix, orig));
            let e = edge_between(src, sp, to, "in_0"@);
            LSt { nodes: wire_into(st2.nodes, to, e.edge_id), edges: st2.edges.push(e), ..st2 }
        } else {
            st2
        }
    }
}

/// The output type of the first node with the given id, or `Any`.
pub open spec fn out_type_of(nodes: Seq<NodeV>, id: Seq<char>) -> Seq<char> {
    match first_node(nodes, id, 0) {
        Some(k) => if nodes[k].outputs.len() > 0 { nodes[k].outputs[0].ty_name } else { "Any"@ },
        None => "Any"@,
    }
}

/// Inlining the first goal of an imported Plan IR at the call site: its nodes
/// and edges copied under new stable ids, tagged with the import's plan hash,
/// the first argument wired to its entry nodes, an `import` subgraph
/// registered; the result is the remapped exit node's output.
#[verifier::opaque]
pub open spec fn low_import_call(
    c: LCtx,
    st: LSt,
    name: Seq<char>,
    args: Seq<ExprV>,
    scope: ScopeV,
    ui: Option<u32>,
    binder: Seq<char>,
) -> Result<(LSt, CallOut), LangErrorV> {
    let sub = find_import(c.imports, name)->Some_0;
    let tag = plan_hash(sub);
    if sub.goals.len() == 0 {
        Err(LangErrorV::NoGoals)
    } else {
        let goal = sub.goals[0];
        let key = dot(dot(dot(dot(c.goal_name, "import"@), binder), name), ui_label(ui));
        let es = sub.edges.map_values(|e: EdgeV| remap_edge(sub, key, e));
        let new_nodes = sub.nodes.map_values(|n: NodeV| inline_node(sub, key, es, goal.entry_nodes, ui, tag, n));
        let st1 = LSt { nodes: st.nodes + new_nodes, edges: st.edges + es, ..st };
        let wired: Result<LSt, LangErrorV> = if args.len() > 0 {
            match resolve_expr(args[0], scope) {
                Err(e) => Err(e),
                Ok(SymbolV::NodePort { node_id: src, port: sp, .. }) => Ok(wire_entries(st1, sub, key, src, sp, goal.entry_nodes)),
                Ok(SymbolV::UrlParam { .. }) => Ok(st1),
            }
        } else {
            Ok(st1)
        };
        match wired {
            Err(e) => Err(e),
            Ok(st2) => if goal.exit_nodes.len() == 0 {
                Err(lowering_error("exit node in imported sub-goal"@, "imported Plan IR has no exit nodes"@))
            } else {
                let exit = remap_id(sub, key, goal.exit_nodes[0]);
                let sg = SubgraphV {
                    subgraph_id: stable_id_text("subgraph"@, key),
                    kind: "import"@,
                    nodes: new_nodes.map_values(|n: NodeV| n.node_id),
                    constraints: Seq::empty(),
                    gate_node_id: None,
                };
                Ok((LSt { subgraphs: st2.subgraphs.push(sg), ..st2 }, (exit, "output"@, out_type_of(st2.nodes, exit))))
            },
        }
    }
}


// ---------------------------------------------------------------------------
// Statements
// ---------------------------------------------------------------------------

pub open spec fn node_port(o: CallOut) -> SymbolV {
    SymbolV::NodePort { node_id: o.0, port: o.1, ty_name: o.2 }
}

/// The ids of the nodes added after the first `before` nodes.
pub open spec fn ids_after(nodes: Seq<NodeV>, before: int) -> Seq<Seq<char>> {
    nodes.skip(before).map_values(|n: NodeV| n.node_id)
}

/// The statements of a block in order; the first error stops lowering.
pub open spec fn low_stmts(c: LCtx, st: LSt, stmts: Seq<StmtV>, scope: ScopeV, ui: Option<u32>) -> Result<(LSt, ScopeV), LangErrorV>
    decreases stmts, 0nat,
{
    if stmts.len() == 0 {
        Ok((st, scope))
    } else {
        match low_stmts(c, st, stmts.drop_last(), scope, ui) {
            Err(e) => Err(e),
            Ok((st2, sc2)) => low_stmt(c, st2, stmts.last(), sc2, ui),
        }
    }
}

/// `map` iterations `0..n`: each lowers the body in a fresh scope that binds
/// the binder to the list element; the ids of the nodes they add, in order.
pub open spec fn map_iters(
    c: LCtx,
    st: LSt,
    body: Seq<StmtV>,
    binder: Seq<char>,
    n: nat,
) -> Result<(LSt, Seq<Seq<char>>), LangErrorV>
    decreases body, n + 1,
{
    if n == 0 {
        Ok((st, Seq::empty()))
    } else {
        match map_iters(c, st, body, binder, (n - 1) as nat) {
            Err(e) => Err(e),
            Ok((st2, ids)) => {
                let u = (n - 1) as u32;
                match low_stmts(c, st2, body, seq![(binder, SymbolV::UrlParam { url_index: u })], Some(u)) {
                    Err(e) => Err(e),
                    Ok((st3, _)) => Ok((st3, ids + ids_after(st3.nodes, st2.nodes.len() as int))),
                }
            },
        }
    }
}

/// Whether a statement list assigns to the accumulator.
pub open spec fn has_assign(stmts: Seq<StmtV>, accum: Seq<char>) -> bool {
    exists|k: int| 0 <= k < stmts.len() && (#[trigger] stmts[k] matches StmtV::Assign { name, .. } && name == accum)
}

/// `reduce` iterations `0..n`: each lowers the body with the binder bound to
/// the element and the accumulator to the last value; the new accumulator is
/// the output of the last node the iteration added.
pub open spec fn reduce_iters(
    c: LCtx,
    st: LSt,
    body: Seq<StmtV>,
    binder: Seq<char>,
    accum: Seq<char>,
    init: SymbolV,
    n: nat,
) -> Result<(LSt, SymbolV, Seq<Seq<char>>), LangErrorV>
    decreases body, n + 1,
{
    if n == 0 {
        Ok((st, init, Seq::empty()))
    } else {
        match reduce_iters(c, st, body, binder, accum, init, (n - 1) as nat) {
            Err(e) => Err(e),
            Ok((st2, acc, ids)) => {
                let u = (n - 1) as u32;
                if !has_assign(body, accum) {
                    Err(LangErrorV::ReduceBodyMissingAssign(accum))
                } else {
                    let scope = seq![(binder, SymbolV::UrlParam { url_index: u }), (accum, acc)];
                    match low_stmts(c, st2, body, scope, Some(u)) {
                        Err(e) => Err(e),
                        Ok((st3, _)) => if st3.nodes.len() > st2.nodes.len() {
                            let last = st3.nodes.last();
                            let ty = if last.outputs.len() > 0 { last.outputs[0].ty_name } else { "Any"@ };
                            Ok((
                                st3,
                                SymbolV::NodePort { node_id: last.node_id, port: "output"@, ty_name: ty },
                                ids + ids_after(st3.nodes, st2.nodes.len() as int),
                            ))
                        } else {
                            Ok((st3, acc, ids))
                        },
                    }
                }
            },
        }
    }
}

/// The subgraph of a construct, with its id from the key.
pub open spec fn keyed_subgraph(key: Seq<char>, kind: Seq<char>, nodes: Seq<Seq<char>>, gate: Option<Seq<char>>) -> SubgraphV {
    SubgraphV { subgraph_id: stable_id_text("subgraph"@, key), kind, nodes, constraints: Seq::empty(), gate_node_id: gate }
}

/// One statement.
pub open spec fn low_stmt(c: LCtx, st: LSt, s: StmtV, scope: ScopeV, ui: Option<u32>) -> Result<(LSt, ScopeV), LangErrorV>
    decreases s, 2nat,
{
    match s {
        StmtV::Let { name, expr } => low_let(c, st, name, expr, scope, ui),
        StmtV::MapOver { .. } => low_map_stmt(c, st, s, scope),
        StmtV::If { .. } => low_if_stmt(c, st, s, scope, ui),
        StmtV::Reduce { .. } => low_reduce_stmt(c, st, s, scope),
        StmtV::Assign { name, expr } => low_assign(c, st, name, expr, scope, ui),
        StmtV::Emit { expr } => low_emit(c, st, expr, scope, ui),
        StmtV::Return { expr } => low_return(c, st, expr, scope),
    }
}

/// `let NAME = CALL;`: a new name bound to the call's node.
#[verifier::opaque]
pub open spec fn low_let(c: LCtx, st: LSt, name: Seq<char>, expr: ExprV, scope: ScopeV, ui: Option<u32>) -> Result<(LSt, ScopeV), LangErrorV> {
    if scope_get(scope, name) is Some {
        Err(LangErrorV::ShadowedBinding(name))
    } else {
        match low_call_node(c, st, expr, scope, ui, name) {
            Err(e) => Err(e),
            Ok((st2, o)) => Ok((st2, scope.push((name, node_port(o))))),
        }
    }
}

/// `NAME = CALL;`: the name rebound to the call's node.
#[verifier::opaque]
pub open spec fn low_assign(c: LCtx, st: LSt, name: Seq<char>, expr: ExprV, scope: ScopeV, ui: Option<u32>) -> Result<(LSt, ScopeV), LangErrorV> {
    let binder = "_assign_"@ + name + "_"@ + decimal(st.nodes.len());
    match low_call_node(c, st, expr, scope, ui, binder) {
        Err(e) => Err(e),
        Ok((st2, o)) => Ok((st2, scope.push((name, node_port(o))))),
    }
}

/// `emit EXPR;`: a bound node output, or a new call node, collected.
#[verifier::opaque]
pub open spec fn low_emit(c: LCtx, st: LSt, expr: ExprV, scope: ScopeV, ui: Option<u32>) -> Result<(LSt, ScopeV), LangErrorV> {
    let u: u32 = match ui {
        Some(x) => x,
        None => 0,
    };
    match expr {
        ExprV::Ident { name } => match scope_get(scope, name) {
            None => Err(LangErrorV::UndefinedBinding(name)),
            Some(SymbolV::NodePort { node_id, port, ty_name }) => Ok((
                LSt { collected: st.collected.push((u, node_id, port, ty_name)), ..st },
                scope,
            )),
            Some(SymbolV::UrlParam { .. }) => Err(lowering_error(
                "emit expression"@,
                "URL parameter '"@ + name + "' cannot be emitted directly"@,
            )),
        },
        ExprV::Call { .. } => {
            let binder = "_emit_"@ + decimal(st.collected.len());
            match low_call_node(c, st, expr, scope, ui, binder) {
                Err(e) => Err(e),
                Ok((st2, o)) => Ok((LSt { collected: st2.collected.push((u, o.0, o.1, o.2)), ..st2 }, scope)),
            }
        },
        _ => Err(lowering_error("function call or identifier"@, "unsupported emit expression"@)),
    }
}

/// `map LIST as BINDER { BODY }`: the body unrolled `url_count` times, a
/// `map` subgraph over the nodes it added.
#[verifier::opaque]
pub open spec fn low_map_stmt(c: LCtx, st: LSt, s: StmtV, scope: ScopeV) -> Result<(LSt, ScopeV), LangErrorV>
    decreases s, 1nat,
{
    match s {
        StmtV::MapOver { list, binder, body } => if c.url_count == 0 {
            Err(LangErrorV::MapRequiresUrlCount)
        } else {
            match map_iters(c, st, body, binder, c.url_count) {
                Err(e) => Err(e),
                Ok((st2, ids)) => Ok((
                    LSt { subgraphs: st2.subgraphs.push(keyed_subgraph(dot(dot(c.goal_name, "map"@), list), "map"@, ids, None)), ..st2 },
                    scope,
                )),
            }
        },
        _ => Ok((st, scope)),
    }
}

/// `if COND { BODY } else { BODY }`: the condition's node, a
/// `conditional_branch` node that takes its result, both branches lowered in
/// child scopes, and a subgraph for each branch that names that node.
#[verifier::opaque]
pub open spec fn low_if_stmt(c: LCtx, st: LSt, s: StmtV, scope: ScopeV, ui: Option<u32>) -> Result<(LSt, ScopeV), LangErrorV>
    decreases s, 1nat,
{
    match s {
        StmtV::If { condition, true_body, false_body } => {
            let counter = st.nodes.len();
            match low_call_node(c, st, condition, scope, ui, "_if_cond_"@ + decimal(counter)) {
                Err(e) => Err(e),
                Ok((st1, o)) => {
                    let gate = stable_node_id(dot(dot(dot(c.goal_name, "if_gate"@), decimal(counter)), ui_label(ui)));
                    let ge = edge_between(o.0, o.1, gate, "condition"@);
                    let gate_node = plain_node(
                        gate,
                        NodeKind::Control,
                        "conditional_branch"@,
                        "conditional_branch("@ + o.2 + ")->Bool"@,
                        seq![InputPortV { port: "condition"@, ty_name: o.2, source: Some(ge.edge_id) }],
                        seq![
                            OutputPortV { port: "branch_true"@, ty_name: "Bool"@ },
                            OutputPortV { port: "branch_false"@, ty_name: "Bool"@ },
                        ],
                        DeterminismProfile::Fixed,
                        ui,
                    );
                    let st2 = LSt { nodes: st1.nodes.push(gate_node), edges: st1.edges.push(ge), ..st1 };
                    let tscope = scope.push(("__branch_"@ + "branch_true"@, SymbolV::NodePort { node_id: gate, port: "branch_true"@, ty_name: "Bool"@ }));
                    match low_stmts(c, st2, true_body, tscope, ui) {
                        Err(e) => Err(e),
                        Ok((st3, _)) => {
                            let fscope = scope.push((
                                "__branch_"@ + "branch_false"@,
                                SymbolV::NodePort { node_id: gate, port: "branch_false"@, ty_name: "Bool"@ },
                            ));
                            match low_stmts(c, st3, false_body, fscope, ui) {
                                Err(e) => Err(e),
                                Ok((st4, _)) => {
                                    let tsg = keyed_subgraph(
                                        dot(dot(c.goal_name, "if_true"@), decimal(counter)),
                                        "conditional_true"@,
                                        st3.nodes.subrange(st2.nodes.len() as int, st3.nodes.len() as int).map_values(|n: NodeV| n.node_id),
                                        Some(gate),
                                    );
                                    let fsg = keyed_subgraph(
                                        dot(dot(c.goal_name, "if_false"@), decimal(counter)),
                                        "conditional_false"@,
                                        ids_after(st4.nodes, st3.nodes.len() as int),
                                        Some(gate),
                                    );
                                    Ok((LSt { subgraphs: st4.subgraphs.push(tsg).push(fsg), ..st4 }, scope))
                                },
                            }
                        },
                    }
                },
            }
        },
        _ => Ok((st, scope)),
    }
}

/// `reduce LIST as BINDER into ACCUM { BODY }`: a `reduce_init` entry node,
/// the body unrolled `url_count` times threading the accumulator, a `reduce`
/// subgraph, and the accumulator's last value bound in the scope.
#[verifier::opaque]
pub open spec fn low_reduce_stmt(c: LCtx, st: LSt, s: StmtV, scope: ScopeV) -> Result<(LSt, ScopeV), LangErrorV>
    decreases s, 1nat,
{
    match s {
        StmtV::Reduce { list, binder, accum, body } => if c.url_count == 0 {
            Err(LangErrorV::MapRequiresUrlCount)
        } else {
            let init_id = stable_node_id(dot(dot(c.goal_name, "reduce_init"@), list));
            let init = plain_node(
                init_id,
                NodeKind::Control,
                "reduce_init"@,
                "reduce_init()->Any"@,
                Seq::empty(),
                output_port("Any"@),
                DeterminismProfile::Fixed,
                None,
            );
            let st1 = LSt { entry_nodes: st.entry_nodes.push(init_id), nodes: st.nodes.push(init), ..st };
            let acc0 = SymbolV::NodePort { node_id: init_id, port: "output"@, ty_name: "Any"@ };
            match reduce_iters(c, st1, body, binder, accum, acc0, c.url_count) {
                Err(e) => Err(e),
                Ok((st2, acc, ids)) => Ok((
                    LSt { subgraphs: st2.subgraphs.push(keyed_subgraph(dot(dot(c.goal_name, "reduce"@), list), "reduce"@, ids, None)), ..st2 },
                    scope.push((accum, acc)),
                )),
            }
        },
        _ => Ok((st, scope)),
    }
}

/// The inputs of the terminal node: one per collected value, in order.
pub open spec fn terminal_inputs(collected: Seq<CollectedV>, id: Seq<char>) -> (Seq<InputPortV>, Seq<EdgeV>)
    decreases collected.len(),
{
    if collected.len() == 0 {
        (Seq::empty(), Seq::empty())
    } else {
        let (ins, es) = terminal_inputs(collected.drop_last(), id);
        let k = (collected.len() - 1) as nat;
        let v = collected.last();
        let e = edge_between(v.1, v.2, id, in_port(k));
        (ins.push(InputPortV { port: in_port(k), ty_name: v.3, source: Some(e.edge_id) }), es.push(e))
    }
}

/// `return EXPR;`: a bound node's output, or an aggregate node over every
/// collected value.
#[verifier::opaque]
pub open spec fn low_return(c: LCtx, st: LSt, e: ExprV, scope: ScopeV) -> Result<(LSt, ScopeV), LangErrorV> {
    if e is Ident && e->Ident_name != "collected"@ {
        let name = e->Ident_name;
        match scope_get(scope, name) {
            None => Err(LangErrorV::UndefinedBinding(name)),
            Some(SymbolV::NodePort { node_id, .. }) => Ok((LSt { exit_node: Some(node_id), ..st }, scope)),
            Some(SymbolV::UrlParam { .. }) => Err(
                lowering_error("bound value in return"@, "URL parameter cannot be returned directly"@),
            ),
        }
    } else {
        match e {
            ExprV::Call { name, .. } => match resolve_fn(c, name) {
                Err(err) => Err(err),
                Ok((_, sig, out_ty)) => {
                    let id = stable_node_id(dot(dot(c.goal_name, "terminal"@), name));
                    let (ins, es) = terminal_inputs(st.collected, id);
                    let node = plain_node(id, NodeKind::Aggregate, name, sig, ins, output_port(out_ty), DeterminismProfile::Fixed, None);
                    Ok((LSt { edges: st.edges + es, nodes: st.nodes.push(node), exit_node: Some(id), ..st }, scope))
                },
            },
            ExprV::Ident { .. } => Err(lowering_error("function call in return statement"@, "bare identifier 'collected'"@)),
            _ => Err(lowering_error("function call in return statement"@, "non-call expression"@)),
        }
    }
}

// ---------------------------------------------------------------------------
// Constraints
// ---------------------------------------------------------------------------

pub open spec fn jobj(ps: Seq<(Seq<char>, SJson)>) -> SJson {
    SJson::Object(ps)
}

/// A constraint as (its key in the Plan IR's constraint map, its AST):
/// `{"left": .., "op": "==" | "<=", "right": ..}` with a `path` or a
/// `fn`/`args` left side and a `number`, `rate`/`unit` or `string` right side.
pub open spec fn constraint_parts(ce: ConstraintExprV) -> (Seq<char>, SJson) {
    let op: Seq<char> = match ce.op {
        CmpOp::Eq => "=="@,
        CmpOp::LtEq => "<="@,
    };
    let (key, left) = match ce.left {
        ConstraintLeftV::Path { segments } => (
            join_sep(segments, ':'),
            jobj(seq![("path"@, SJson::Array(segments.map_values(|x: Seq<char>| SJson::Str(x))))]),
        ),
        ConstraintLeftV::FnCall { name, args } => (
            name + seq![':'] + join_sep(args, ':'),
            jobj(
                seq![
                    ("args"@, SJson::Array(args.map_values(|a: Seq<char>| jobj(seq![("ident"@, SJson::Str(a))])))),
                    ("fn"@, SJson::Str(name)),
                ],
            ),
        ),
    };
    let right = match ce.right {
        ConstraintValueV::Number { value } => jobj(seq![("number"@, SJson::Int(value as int))]),
        ConstraintValueV::Rate { value, unit } => jobj(seq![("rate"@, SJson::Int(value as int)), ("unit"@, SJson::Str(unit))]),
        ConstraintValueV::StringLit { value } => jobj(seq![("string"@, SJson::Str(value))]),
    };
    (key, jobj(seq![("left"@, left), ("op"@, SJson::Str(op)), ("right"@, right)]))
}

/// The goal-scoped constraint of an AST constraint, with its content id.
pub open spec fn goal_constraint(ce: ConstraintExprV) -> ConstraintV {
    let ast = constraint_parts(ce).1;
    let c0 = ConstraintV { constraint_id: "placeholder"@, scope: ConstraintScope::Goal, lang: "conclave_v0.1"@, ast };
    ConstraintV { constraint_id: entity_id("constraint"@, constraint_id_body(c0)), ..c0 }
}

/// The `op` of a goal constraint's Plan IR AST is the comparison as the
/// source writes it: lexed, the `op` text gives back the tokens that the
/// parser reads as that comparison, `=` `=` for `==` and `<=` for `<=`.
pub proof fn lemma_constraint_op_as_written(ce: ConstraintExprV)
    ensures
        obj_lookup(goal_constraint(ce).ast->Object_0, "op"@) matches Some(SJson::Str(op))
            && lex(op) == (match ce.op {
                CmpOp::Eq => Ok::<Seq<SpannedV>, LangErrorV>(
                    seq![SpannedV { token: TokenV::Equals, line: 1 }, SpannedV { token: TokenV::Equals, line: 1 }],
                ),
                CmpOp::LtEq => Ok::<Seq<SpannedV>, LangErrorV>(seq![SpannedV { token: TokenV::LtEq, line: 1 }]),
            }),
{
    reveal_strlit("op");
    reveal_strlit("right");
    reveal_strlit("==");
    reveal_strlit("<=");
    let ps = goal_constraint(ce).ast->Object_0;
    assert(ps.len() == 3);
    assert(ps[2].0 != "op"@) by {
        assert("right"@.len() != "op"@.len());
    }
    assert(ps.drop_last()[1] == ps[1]);
    assert(obj_lookup(ps.drop_last(), "op"@) == Some(ps[1].1));
    let op = ps[1].1->Str_0;
    let e = SpannedV { token: TokenV::Equals, line: 1 };
    match ce.op {
        CmpOp::Eq => {
            assert(op == seq!['=', '=']);
            assert(lex_step(op, 1, 1) == LexStep::Emit(seq![e], 2, 1));
            assert(lex_from(op, 2, 1, seq![e, e]) == Ok::<Seq<SpannedV>, LangErrorV>(seq![e, e]));
            assert(seq![e] + seq![e] =~= seq![e, e]);
            assert(lex_from(op, 1, 1, seq![e]) == lex_from(op, 2, 1, seq![e, e]));
            assert(lex_step(op, 0, 1) == LexStep::Emit(seq![e], 1, 1));
            assert(Seq::<SpannedV>::empty() + seq![e] =~= seq![e]);
            assert(lex_from(op, 0, 1, Seq::empty()) == lex_from(op, 1, 1, seq![e]));
        },
        CmpOp::LtEq => {
            let l = SpannedV { token: TokenV::LtEq, line: 1 };
            assert(op == seq!['<', '=']);
            assert(lex_step(op, 0, 1) == LexStep::Emit(seq![l], 2, 1));
            assert(Seq::<SpannedV>::empty() + seq![l] =~= seq![l]);
            assert(lex_from(op, 2, 1, seq![l]) == Ok::<Seq<SpannedV>, LangErrorV>(seq![l]));
            assert(lex_from(op, 0, 1, Seq::empty()) == lex_from(op, 2, 1, seq![l]));
        },
    }
}

/// The Plan IR AST of a constraint determines the constraint: its operator,
/// its left side (a path or a function of arguments) and its value (a number,
/// a rate with its unit, or a string).
pub proof fn lemma_constraint_ast_determines_constraint(a: ConstraintExprV, b: ConstraintExprV)
    requires
        constraint_parts(a).1 == constraint_parts(b).1,
    ensures
        a == b,
{
    reveal_strlit("==");
    reveal_strlit("<=");
    reveal_strlit("path");
    reveal_strlit("args");
    reveal_strlit("number");
    reveal_strlit("rate");
    reveal_strlit("string");
    assert("=="@[0] != "<="@[0]);
    assert("path"@[0] != "args"@[0]);
    assert("number"@[0] != "string"@[0]);
    assert("rate"@.len() == 4 && "number"@.len() == 6 && "string"@.len() == 6);
    let pa = constraint_parts(a).1->Object_0;
    let pb = constraint_parts(b).1->Object_0;
    assert(pa[0] == pb[0] && pa[1] == pb[1] && pa[2] == pb[2]);
    // the operator
    match (a.op, b.op) {
        (CmpOp::Eq, CmpOp::LtEq) => assert(pa[1].1->Str_0[0] != pb[1].1->Str_0[0]),
        (CmpOp::LtEq, CmpOp::Eq) => assert(pa[1].1->Str_0[0] != pb[1].1->Str_0[0]),
        _ => {},
    }
    // the left side
    let la = pa[0].1->Object_0;
    let lb = pb[0].1->Object_0;
    assert(la[0] == lb[0]);
    match a.left {
        ConstraintLeftV::Path { segments } => {
            assert(b.left is Path);
            let sb = b.left->segments;
            let ea = segments.map_values(|x: Seq<char>| SJson::Str(x));
            let eb = sb.map_values(|x: Seq<char>| SJson::Str(x));
            assert(la[0].1 == SJson::Array(ea));
            assert(lb[0].1 == SJson::Array(eb));
            assert(ea.len() == eb.len());
            assert forall|i: int| 0 <= i < segments.len() implies segments[i] == sb[i] by {
                assert(ea[i] == eb[i]);
            }
            assert(segments =~= sb);
        },
        ConstraintLeftV::FnCall { name, args } => {
            assert(b.left is FnCall);
            assert(la[1] == lb[1]);
            let ab = b.left->args;
            let ea = args.map_values(|x: Seq<char>| jobj(seq![("ident"@, SJson::Str(x))]));
            let eb = ab.map_values(|x: Seq<char>| jobj(seq![("ident"@, SJson::Str(x))]));
            assert(la[0].1 == SJson::Array(ea));
            assert(lb[0].1 == SJson::Array(eb));
            assert(ea.len() == eb.len());
            assert forall|i: int| 0 <= i < args.len() implies args[i] == ab[i] by {
                assert(ea[i] == eb[i]);
                assert(ea[i]->Object_0[0] == eb[i]->Object_0[0]);
            }
            assert(args =~= ab);
        },
    }
    // the value
    let ra = pa[2].1->Object_0;
    let rb = pb[2].1->Object_0;
    assert(ra.len() == rb.len());
    assert(ra[0] == rb[0]);
    match a.right {
        ConstraintValueV::Number { value } => {
            assert(b.right is Number);
        },
        ConstraintValueV::Rate { value, unit } => {
            assert(b.right is Rate);
            assert(ra[1] == rb[1]);
        },
        ConstraintValueV::StringLit { value } => {
            assert(b.right is StringLit);
        },
    }
}

/// The goal's constraints added to the constraint map in order (a later one
/// with the same key replaces an earlier one).
pub open spec fn low_constraints(st: LSt, cs: Seq<ConstraintExprV>) -> LSt
    decreases cs.len(),
{
    if cs.len() == 0 {
        st
    } else {
        let st2 = low_constraints(st, cs.drop_last());
        LSt { constraints: kv_insert(st2.constraints, constraint_parts(cs.last()).0, goal_constraint(cs.last())), ..st2 }
    }
}

// ---------------------------------------------------------------------------
// The Plan IR of a goal
// ---------------------------------------------------------------------------

pub open spec fn alias_type(t: TypeDeclV) -> TypeDefV {
    TypeDefV {
        kind: "alias"@,
        of: Some(t.base),
        fields: None,
        variants: None,
        predicates: match t.constraint {
            Some((v, p)) => Some(seq![(v, p)]),
            None => None,
        },
    }
}

/// The module's types as alias definitions, keyed by name.
pub open spec fn type_map(ts: Seq<TypeDeclV>) -> Seq<(Seq<char>, TypeDefV)>
    decreases ts.len(),
{
    if ts.len() == 0 {
        Seq::empty()
    } else {
        kv_insert(type_map(ts.drop_last()), ts.last().name, alias_type(ts.last()))
    }
}

/// The module's imports as alias to hash, keyed by alias.
pub open spec fn import_map(is: Seq<ImportDeclV>) -> Seq<(Seq<char>, Seq<char>)>
    decreases is.len(),
{
    if is.len() == 0 {
        Seq::empty()
    } else {
        kv_insert(import_map(is.drop_last()), is.last().name, is.last().hash)
    }
}

/// The text of a JSON pointer to a constraint.
pub open spec fn constraint_ref(c: ConstraintV) -> Seq<char> {
    "#/constraints/"@ + c.constraint_id
}

/// The goal entry of the Plan IR, with its content id.
pub open spec fn ir_goal(st: LSt, g: GoalDeclV) -> GoalV {
    let g0 = GoalV {
        goal_id: "placeholder"@,
        name: g.name,
        params: g.params.map_values(|p: crate::lang::ast::ParamV| GoalParamV { name: p.name, ty_name: p.ty_name }),
        returns: seq![GoalParamV { name: "result"@, ty_name: g.returns }],
        constraints: st.constraints.map_values(|p: (Seq<char>, ConstraintV)| constraint_ref(p.1)),
        accept: Seq::empty(),
        entry_nodes: dedup_first(st.entry_nodes),
        exit_nodes: match st.exit_node {
            Some(x) => seq![x],
            None => Seq::empty(),
        },
    };
    GoalV { goal_id: entity_id("goal"@, goal_id_body(g0)), ..g0 }
}

/// The Plan IR assembled from the lowering state.
pub open spec fn build_plan(st: LSt, m: ModuleV, g: GoalDeclV, source: Seq<char>) -> PlanIrV {
    PlanIrV {
        version: "0.1"@,
        module_name: g.name,
        source_fingerprint: hash_text(encode_utf8(source)),
        imports: import_map(m.imports),
        types: type_map(m.types),
        goals: seq![ir_goal(st, g)],
        nodes: st.nodes,
        edges: st.edges,
        constraints: st.constraints,
        subgraphs: st.subgraphs,
        entry_goal: g.name,
    }
}

// ---------------------------------------------------------------------------
// Imports
// ---------------------------------------------------------------------------

pub open spec fn calls_in_expr(e: ExprV, name: Seq<char>) -> bool
    decreases e,
{
    match e {
        ExprV::Call { name: n, args } => n == name || calls_in_exprs(args, name),
        ExprV::Pure { body } => calls_in_expr(*body, name),
        _ => false,
    }
}

pub open spec fn calls_in_exprs(es: Seq<ExprV>, name: Seq<char>) -> bool
    decreases es,
{
    if es.len() == 0 {
        false
    } else {
        calls_in_exprs(es.drop_last(), name) || calls_in_expr(es.last(), name)
    }
}

/// Whether a function of the given name is called anywhere in the statements.
pub open spec fn calls_in_stmts(ss: Seq<StmtV>, name: Seq<char>) -> bool
    decreases ss,
{
    if ss.len() == 0 {
        false
    } else {
        calls_in_stmts(ss.drop_last(), name) || calls_in_stmt(ss.last(), name)
    }
}

pub open spec fn calls_in_stmt(s: StmtV, name: Seq<char>) -> bool
    decreases s,
{
    match s {
        StmtV::Let { expr, .. } => calls_in_expr(expr, name),
        StmtV::Assign { expr, .. } => calls_in_expr(expr, name),
        StmtV::Emit { expr } => calls_in_expr(expr, name),
        StmtV::Return { expr } => calls_in_expr(expr, name),
        StmtV::MapOver { body, .. } => calls_in_stmts(body, name),
        StmtV::Reduce { body, .. } => calls_in_stmts(body, name),
        StmtV::If { condition, true_body, false_body } =>
            calls_in_expr(condition, name) || calls_in_stmts(true_body, name) || calls_in_stmts(false_body, name),
    }
}

/// The Plan IR stored under a hash (`sha256:<hex>` or bare `<hex>`).
pub open spec fn cache_lookup(entries: Seq<(Seq<char>, PlanIrV)>, hex: Seq<char>) -> Option<PlanIrV>
    decreases entries.len(),
{
    if entries.len() == 0 {
        None
    } else if entries.last().0 == hex {
        Some(entries.last().1)
    } else {
        cache_lookup(entries.drop_last(), hex)
    }
}

/// The hex part of a hash text.
pub open spec fn hash_key(hash: Seq<char>) -> Seq<char> {
    if hash.len() >= 7 && hash.take(7) == "sha256:"@ { hash.skip(7) } else { hash }
}

/// The imported Plan IRs that the goal calls, resolved in the cache in
/// import order.  Without a cache any import declaration is an error (for
/// the first import); with one, an import that is declared but never called
/// needs no entry.
pub open spec fn resolve_imports(
    imports: Seq<ImportDeclV>,
    stmts: Seq<StmtV>,
    cache: Option<Seq<(Seq<char>, PlanIrV)>>,
) -> Result<Seq<(Seq<char>, PlanIrV)>, LangErrorV>
    decreases imports.len(),
{
    if imports.len() == 0 {
        Ok(Seq::empty())
    } else {
        match resolve_imports(imports.drop_last(), stmts, cache) {
            Err(e) => Err(e),
            Ok(r) => {
                let imp = imports.last();
                match cache {
                    None => Err(LangErrorV::ImportResolutionRequired(imp.name)),
                    Some(entries) => if !calls_in_stmts(stmts, imp.name) {
                        Ok(r)
                    } else {
                        match cache_lookup(entries, hash_key(imp.hash)) {
                            None => Err(LangErrorV::ImportNotFound(imp.hash)),
                            Some(ir) => Ok(kv_insert(r, imp.name, ir)),
                        }
                    },
                }
            },
        }
    }
}

// ---------------------------------------------------------------------------
// Lowering a goal, a source
// ---------------------------------------------------------------------------

/// The result of lowering one goal.
pub struct LowerOutV {
    pub plan_ir: PlanIrV,
    pub source_hash: Seq<char>,
    pub ast_hash: Seq<char>,
    pub plan_ir_hash: Seq<char>,
}

/// Lowering one goal of a normalized module whose (newline-normalized) source
/// text is `source`.
#[verifier::opaque]
pub open spec fn lower_goal_spec(
    m: ModuleV,
    g: GoalDeclV,
    source: Seq<char>,
    url_count: nat,
    cache: Option<Seq<(Seq<char>, PlanIrV)>>,
) -> Result<LowerOutV, LangErrorV> {
    match resolve_imports(m.imports, g.stmts, cache) {
        Err(e) => Err(e),
        Ok(imports) => {
            let c = LCtx { goal_name: g.name, url_count, caps: m.capabilities, intrs: m.intrinsics, imports };
            match low_stmts(c, empty_state(), g.stmts, Seq::empty(), None) {
                Err(e) => Err(e),
                Ok((st, _)) => {
                    let ir = build_plan(low_constraints(st, g.constraints), m, g, source);
                    Ok(LowerOutV {
                        plan_ir: ir,
                        source_hash: hash_text(encode_utf8(source)),
                        ast_hash: ast_hash_text(m),
                        plan_ir_hash: plan_hash(ir),
                    })
                },
            }
        },
    }
}

/// The normalized module of a source text.
pub open spec fn module_of(source: Seq<char>) -> Result<ModuleV, LangErrorV> {
    match parse_spec(normalize_newlines(source)) {
        Err(e) => Err(e),
        Ok(m) => normalize_spec(m),
    }
}

/// Lowering the first goal of a source text.
pub open spec fn lower_spec(
    source: Seq<char>,
    url_count: nat,
    cache: Option<Seq<(Seq<char>, PlanIrV)>>,
) -> Result<LowerOutV, LangErrorV> {
    match module_of(source) {
        Err(e) => Err(e),
        Ok(m) => if m.goals.len() == 0 {
            Err(LangErrorV::NoGoals)
        } else {
            lower_goal_spec(m, m.goals[0], normalize_newlines(source), url_count, cache)
        },
    }
}

/// The first goal with the given name.
pub open spec fn find_goal(goals: Seq<GoalDeclV>, name: Seq<char>, i: int) -> Option<int>
    decreases goals.len() - i,
{
    if i < 0 || i >= goals.len() {
        None
    } else if goals[i].name == name {
        Some(i)
    } else {
        find_goal(goals, name, i + 1)
    }
}

/// Lowering the first goal of the given name.
pub open spec fn lower_named_spec(
    source: Seq<char>,
    goal_name: Seq<char>,
    url_count: nat,
    cache: Option<Seq<(Seq<char>, PlanIrV)>>,
) -> Result<LowerOutV, LangErrorV> {
    match module_of(source) {
        Err(e) => Err(e),
        Ok(m) => match find_goal(m.goals, goal_name, 0) {
            None => Err(LangErrorV::GoalNotFound(goal_name)),
            Some(i) => lower_goal_spec(m, m.goals[i], normalize_newlines(source), url_count, cache),
        },
    }
}

/// Lowering the goals `0..n` of a module; the first error stops.
pub open spec fn lower_goals(
    m: ModuleV,
    source: Seq<char>,
    url_count: nat,
    cache: Option<Seq<(Seq<char>, PlanIrV)>>,
    n: nat,
) -> Result<Seq<LowerOutV>, LangErrorV>
    decreases n,
{
    if n == 0 {
        Ok(Seq::empty())
    } else {
        match lower_goals(m, source, url_count, cache, (n - 1) as nat) {
            Err(e) => Err(e),
            Ok(outs) => match lower_goal_spec(m, m.goals[n - 1], source, url_count, cache) {
                Err(e) => Err(e),
                Ok(o) => Ok(outs.push(o)),
            },
        }
    }
}

/// Lowering every goal of a source text, in order.
pub open spec fn lower_all_spec(
    source: Seq<char>,
    url_count: nat,
    cache: Option<Seq<(Seq<char>, PlanIrV)>>,
) -> Result<Seq<LowerOutV>, LangErrorV> {
    match module_of(source) {
        Err(e) => Err(e),
        Ok(m) => if m.goals.len() == 0 {
            Err(LangErrorV::NoGoals)
        } else {
            lower_goals(m, normalize_newlines(source), url_count, cache, m.goals.len())
        },
    }
}

// ---------------------------------------------------------------------------
// Laws
// ---------------------------------------------------------------------------

proof fn lemma_lower_goals_each(
    m: ModuleV,
    source: Seq<char>,
    url_count: nat,
    cache: Option<Seq<(Seq<char>, PlanIrV)>>,
    n: nat,
)
    requires
        lower_goals(m, source, url_count, cache, n) is Ok,
    ensures
        lower_goals(m, source, url_count, cache, n)->Ok_0.len() == n,
        forall|i: int| 0 <= i < n ==> #[trigger] lower_goal_spec(m, m.goals[i], source, url_count, cache)
            == Ok::<LowerOutV, LangErrorV>(lower_goals(m, source, url_count, cache, n)->Ok_0[i]),
    decreases n,
{
    if n > 0 {
        lemma_lower_goals_each(m, source, url_count, cache, (n - 1) as nat);
    }
}

/// `lower_all` lowers every goal of the module in order, one output per
/// goal, each as that goal alone is lowered; its first output is what
/// `lower` gives.
pub proof fn lemma_lower_all_is_each_goal(source: Seq<char>, url_count: nat, cache: Option<Seq<(Seq<char>, PlanIrV)>>)
    requires
        lower_all_spec(source, url_count, cache) is Ok,
    ensures
        module_of(source) is Ok,
        lower_all_spec(source, url_count, cache)->Ok_0.len() == module_of(source)->Ok_0.goals.len(),
        forall|i: int| 0 <= i < module_of(source)->Ok_0.goals.len() ==>
            #[trigger] lower_goal_spec(
                module_of(source)->Ok_0,
                module_of(source)->Ok_0.goals[i],
                normalize_newlines(source),
                url_count,
                cache,
            ) == Ok::<LowerOutV, LangErrorV>(lower_all_spec(source, url_count, cache)->Ok_0[i]),
        lower_spec(source, url_count, cache) == Ok::<LowerOutV, LangErrorV>(lower_all_spec(source, url_count, cache)->Ok_0[0]),
{
    let m = module_of(source)->Ok_0;
    lemma_lower_goals_each(m, normalize_newlines(source), url_count, cache, m.goals.len());
    assert(lower_goal_spec(m, m.goals[0], normalize_newlines(source), url_count, cache)
        == Ok::<LowerOutV, LangErrorV>(lower_all_spec(source, url_count, cache)->Ok_0[0]));
}

/// Looking a hash up right after storing a Plan IR under it gives back
/// what was stored.
pub proof fn lemma_lookup_after_store(entries: Seq<(Seq<char>, PlanIrV)>, hash: Seq<char>, ir: PlanIrV)
    ensures
        cache_lookup(entries.push((hash_key(hash), ir)), hash_key(hash)) == Some(ir),
{
    assert(entries.push((hash_key(hash), ir)).drop_last() =~= entries);
}

/// A hash may be given as `sha256:<hex>` or as the bare hexadecimal digits.
pub proof fn lemma_hash_key_forms(hex: Seq<char>)
    requires
        hex.len() == 64,
        forall|i: int| 0 <= i < 64 ==> crate::hash::is_hex_char(#[trigger] hex[i]),
    ensures
        hash_key("sha256:"@ + hex) == hex,
        hash_key(hex) == hex,
{
    reveal_strlit("sha256:");
    assert(("sha256:"@ + hex).take(7) =~= "sha256:"@);
    assert(("sha256:"@ + hex).skip(7) =~= hex);
    if hex.take(7) == "sha256:"@ {
        assert(hex.take(7)[0] == 's');
        assert(!crate::hash::is_hex_char('s'));
    }
}

} // verus!
