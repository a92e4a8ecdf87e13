//! The JSON form of a module's AST, as `serde` shapes it: statements and
//! expressions tagged by a `kind` member, `Param::ty_name` under `type`,
//! comparison operators in snake case, an absent type constraint left out.
use vstd::prelude::*;
use crate::json::{
    JsonValue, SJson, push_member, strings_to_json, str_array, view_elems, view_members,
};
use crate::lang::ast::{
    CapDecl, CapDeclV, CmpOp, ConstraintExpr, ConstraintExprV, ConstraintLeft, ConstraintLeftV,
    ConstraintValue, ConstraintValueV, Expr, ExprV, GoalDecl, GoalDeclV, ImportDecl, ImportDeclV,
    IntrinsicDecl, IntrinsicDeclV, Module, ModuleV, Param, ParamV, Stmt, StmtV, TypeDecl, TypeDeclV,
    expr_view, exprs_view, strings_view, stmt_view, stmts_view,
};

verus! {

pub open spec fn jstr(s: Seq<char>) -> SJson {
    SJson::Str(s)
}

pub open spec fn tagged(kind: Seq<char>, rest: Seq<(Seq<char>, SJson)>) -> SJson {
    SJson::Object(seq![("kind"@, jstr(kind))] + rest)
}

pub open spec fn expr_json(e: ExprV) -> SJson
    decreases e,
{
    match e {
        ExprV::Ident { name } => tagged("Ident"@, seq![("name"@, jstr(name))]),
        ExprV::StringLit { value } => tagged("StringLit"@, seq![("value"@, jstr(value))]),
        ExprV::Call { name, args } => tagged("Call"@, seq![("name"@, jstr(name)), ("args"@, SJson::Array(exprs_json(args)))]),
        ExprV::Pure { body } => tagged("Pure"@, seq![("body"@, expr_json(*body))]),
    }
}

pub open spec fn exprs_json(s: Seq<ExprV>) -> Seq<SJson>
    decreases s,
{
    if s.len() == 0 {
        Seq::empty()
    } else {
        exprs_json(s.drop_last()).push(expr_json(s.last()))
    }
}

pub open spec fn stmt_json(st: StmtV) -> SJson
    decreases st,
{
    match st {
        StmtV::Let { name, expr } => tagged("Let"@, seq![("name"@, jstr(name)), ("expr"@, expr_json(expr))]),
        StmtV::MapOver { list, binder, body } => tagged(
            "Map"@,
            seq![("list"@, jstr(list)), ("binder"@, jstr(binder)), ("body"@, SJson::Array(stmts_json(body)))],
        ),
        StmtV::If { condition, true_body, false_body } => tagged(
            "If"@,
            seq![
                ("condition"@, expr_json(condition)),
                ("true_body"@, SJson::Array(stmts_json(true_body))),
                ("false_body"@, SJson::Array(stmts_json(false_body))),
            ],
        ),
        StmtV::Reduce { list, binder, accum, body } => tagged(
            "Reduce"@,
            seq![
                ("list"@, jstr(list)),
                ("binder"@, jstr(binder)),
                ("accum"@, jstr(accum)),
                ("body"@, SJson::Array(stmts_json(body))),
            ],
        ),
        StmtV::Assign { name, expr } => tagged("Assign"@, seq![("name"@, jstr(name)), ("expr"@, expr_json(expr))]),
        StmtV::Emit { expr } => tagged("Emit"@, seq![("expr"@, expr_json(expr))]),
        StmtV::Return { expr } => tagged("Return"@, seq![("expr"@, expr_json(expr))]),
    }
}

pub open spec fn stmts_json(s: Seq<StmtV>) -> Seq<SJson>
    decreases s,
{
    if s.len() == 0 {
        Seq::empty()
    } else {
        stmts_json(s.drop_last()).push(stmt_json(s.last()))
    }
}

pub open spec fn operator_text(op: CmpOp) -> Seq<char> {
    match op {
        CmpOp::Eq => "eq"@,
        CmpOp::LtEq => "lt_eq"@,
    }
}

pub open spec fn left_json(l: ConstraintLeftV) -> SJson {
    match l {
        ConstraintLeftV::Path { segments } => tagged("Path"@, seq![("segments"@, str_array(segments))]),
        ConstraintLeftV::FnCall { name, args } => tagged("FnCall"@, seq![("name"@, jstr(name)), ("args"@, str_array(args))]),
    }
}

pub open spec fn right_json(r: ConstraintValueV) -> SJson {
    match r {
        ConstraintValueV::Number { value } => tagged("Number"@, seq![("value"@, SJson::Int(value as int))]),
        ConstraintValueV::Rate { value, unit } => tagged("Rate"@, seq![("value"@, SJson::Int(value as int)), ("unit"@, jstr(unit))]),
        ConstraintValueV::StringLit { value } => tagged("StringLit"@, seq![("value"@, jstr(value))]),
    }
}

pub open spec fn constraint_ast_json(c: ConstraintExprV) -> SJson {
    SJson::Object(seq![("op"@, jstr(operator_text(c.op))), ("left"@, left_json(c.left)), ("right"@, right_json(c.right))])
}

pub open spec fn type_decl_json(t: TypeDeclV) -> SJson {
    SJson::Object(
        seq![("name"@, jstr(t.name)), ("base"@, jstr(t.base))] + match t.constraint {
            Some(c) => seq![("constraint"@, SJson::Object(seq![("validator"@, jstr(c.0)), ("pattern"@, jstr(c.1))]))],
            None => Seq::empty(),
        },
    )
}

pub open spec fn goal_decl_json(g: GoalDeclV) -> SJson {
    SJson::Object(
        seq![
            ("name"@, jstr(g.name)),
            ("params"@, SJson::Array(g.params.map_values(
                |p: ParamV| SJson::Object(seq![("name"@, jstr(p.name)), ("type"@, jstr(p.ty_name))]),
            ))),
            ("returns"@, jstr(g.returns)),
            ("want"@, SJson::Object(seq![("stmts"@, SJson::Array(stmts_json(g.stmts)))])),
            ("constraints"@, SJson::Array(g.constraints.map_values(|c: ConstraintExprV| constraint_ast_json(c)))),
        ],
    )
}

/// The JSON form of a module; `imports` is left out when there are none.
pub open spec fn module_json(m: ModuleV) -> SJson {
    SJson::Object(
        seq![("version"@, jstr(m.version))] + (if m.imports.len() == 0 {
            Seq::empty()
        } else {
            seq![("imports"@, SJson::Array(m.imports.map_values(
                |d: ImportDeclV| SJson::Object(seq![("name"@, jstr(d.name)), ("hash"@, jstr(d.hash))]),
            )))]
        }) + seq![
            ("types"@, SJson::Array(m.types.map_values(|t: TypeDeclV| type_decl_json(t)))),
            ("capabilities"@, SJson::Array(m.capabilities.map_values(
                |d: CapDeclV| SJson::Object(seq![("alias"@, jstr(d.alias)), ("signature"@, jstr(d.signature))]),
            ))),
            ("intrinsics"@, SJson::Array(m.intrinsics.map_values(
                |d: IntrinsicDeclV| SJson::Object(seq![("alias"@, jstr(d.alias)), ("signature"@, jstr(d.signature))]),
            ))),
            ("goals"@, SJson::Array(m.goals.map_values(|g: GoalDeclV| goal_decl_json(g)))),
        ],
    )
}

fn str_json(s: &String) -> (j: JsonValue)
    ensures
        j@ == jstr(s@),
{
    JsonValue::Str(s.clone())
}

fn tag(kind: &str) -> (ps: Vec<(String, JsonValue)>)
    ensures
        view_members(ps@) == seq![("kind"@, jstr(kind@))],
{
    let mut ps: Vec<(String, JsonValue)> = Vec::new();
    push_member(&mut ps, "kind", JsonValue::Str(String::from_str(kind)));
    assert(view_members(ps@) =~= seq![("kind"@, jstr(kind@))]);
    ps
}

/// The JSON form of an expression.
pub fn expr_to_json(e: &Expr) -> (j: JsonValue)
    ensures
        j@ == expr_json(e@),
    decreases e,
{
    match e {
        Expr::Ident { name } => {
            let mut ps = tag("Ident");
            push_member(&mut ps, "name", str_json(name));
            assert(view_members(ps@) =~= expr_json(e@)->Object_0);
            JsonValue::Object(ps)
        },
        Expr::StringLit { value } => {
            let mut ps = tag("StringLit");
            push_member(&mut ps, "value", str_json(value));
            assert(view_members(ps@) =~= expr_json(e@)->Object_0);
            JsonValue::Object(ps)
        },
        Expr::Call { name, args } => {
            let mut out: Vec<JsonValue> = Vec::new();
            let mut i: usize = 0;
            while i < args.len()
                invariant
                    i <= args@.len(),
                    *e == (Expr::Call { name: *name, args: *args }),
                    view_elems(out@) == exprs_json(exprs_view(args@.take(i as int))),
                decreases args@.len() - i,
            {
                proof {
                    assert(decreases_to!(*e => e->args));
                    assert(decreases_to!(*args => args@));
                    assert(decreases_to!(args@ => args@[i as int]));
                }
                let ghost before = out@;
                let x = expr_to_json(&args[i]);
                let ghost gx = x;
                out.push(x);
                proof {
                    assert(out@.drop_last() =~= before);
                    assert(out@.last() == gx);
                    assert(args@.take(i + 1).drop_last() =~= args@.take(i as int));
                    let ev = exprs_view(args@.take(i + 1));
                    assert(ev.drop_last() == exprs_view(args@.take(i as int)));
                    assert(ev.last() == expr_view(args@[i as int]));
                    assert(exprs_json(ev) == exprs_json(ev.drop_last()).push(expr_json(ev.last())));
                }
                i += 1;
            }
            assert(args@.take(args@.len() as int) =~= args@);
            let mut ps = tag("Call");
            push_member(&mut ps, "name", str_json(name));
            push_member(&mut ps, "args", JsonValue::Array(out));
            assert(view_members(ps@) =~= expr_json(e@)->Object_0);
            JsonValue::Object(ps)
        },
        Expr::Pure { body } => {
            let b = expr_to_json(body);
            let mut ps = tag("Pure");
            push_member(&mut ps, "body", b);
            assert(view_members(ps@) =~= expr_json(e@)->Object_0);
            JsonValue::Object(ps)
        },
    }
}

/// The JSON array of a statement list.
fn stmts_to_json(s: &Vec<Stmt>) -> (j: JsonValue)
    ensures
        j@ == SJson::Array(stmts_json(stmts_view(s@))),
    decreases s@,
{
    let mut out: Vec<JsonValue> = Vec::new();
    let mut i: usize = 0;
    while i < s.len()
        invariant
            i <= s@.len(),
            view_elems(out@) == stmts_json(stmts_view(s@.take(i as int))),
        decreases s@.len() - i,
    {
        proof {
            assert(decreases_to!(s@ => s@[i as int]));
        }
        let ghost before = out@;
        let x = stmt_to_json(&s[i]);
        let ghost gx = x;
        out.push(x);
        proof {
            assert(out@.drop_last() =~= before);
            assert(out@.last() == gx);
            assert(s@.take(i + 1).drop_last() =~= s@.take(i as int));
            let sv = stmts_view(s@.take(i + 1));
            assert(sv.drop_last() == stmts_view(s@.take(i as int)));
            assert(sv.last() == stmt_view(s@[i as int]));
            assert(stmts_json(sv) == stmts_json(sv.drop_last()).push(stmt_json(sv.last())));
        }
        i += 1;
    }
    assert(s@.take(s@.len() as int) =~= s@);
    JsonValue::Array(out)
}

/// The JSON form of a statement.
pub fn stmt_to_json(st: &Stmt) -> (j: JsonValue)
    ensures
        j@ == stmt_json(st@),
    decreases st,
{
    match st {
        Stmt::Let { name, expr } => {
            let mut ps = tag("Let");
            push_member(&mut ps, "name", str_json(name));
            push_member(&mut ps, "expr", expr_to_json(expr));
            assert(view_members(ps@) =~= stmt_json(st@)->Object_0);
            JsonValue::Object(ps)
        },
        Stmt::MapOver { list, binder, body } => {
            proof {
                assert(decreases_to!(*st => st->MapOver_body));
                assert(decreases_to!(st->MapOver_body => st->MapOver_body@));
            }
            let b = stmts_to_json(body);
            let mut ps = tag("Map");
            push_member(&mut ps, "list", str_json(list));
            push_member(&mut ps, "binder", str_json(binder));
            push_member(&mut ps, "body", b);
            assert(view_members(ps@) =~= stmt_json(st@)->Object_0);
            JsonValue::Object(ps)
        },
        Stmt::If { condition, true_body, false_body } => {
            proof {
                assert(decreases_to!(*st => st->true_body));
                assert(decreases_to!(st->true_body => st->true_body@));
                assert(decreases_to!(*st => st->false_body));
                assert(decreases_to!(st->false_body => st->false_body@));
            }
            let c = expr_to_json(condition);
            let t = stmts_to_json(true_body);
            let f = stmts_to_json(false_body);
            let mut ps = tag("If");
            push_member(&mut ps, "condition", c);
            push_member(&mut ps, "true_body", t);
            push_member(&mut ps, "false_body", f);
            assert(view_members(ps@) =~= stmt_json(st@)->Object_0);
            JsonValue::Object(ps)
        },
        Stmt::Reduce { list, binder, accum, body } => {
            proof {
                assert(decreases_to!(*st => st->Reduce_body));
                assert(decreases_to!(st->Reduce_body => st->Reduce_body@));
            }
            let b = stmts_to_json(body);
            let mut ps = tag("Reduce");
            push_member(&mut ps, "list", str_json(list));
            push_member(&mut ps, "binder", str_json(binder));
            push_member(&mut ps, "accum", str_json(accum));
            push_member(&mut ps, "body", b);
            assert(view_members(ps@) =~= stmt_json(st@)->Object_0);
            JsonValue::Object(ps)
        },
        Stmt::Assign { name, expr } => {
            let mut ps = tag("Assign");
            push_member(&mut ps, "name", str_json(name));
            push_member(&mut ps, "expr", expr_to_json(expr));
            assert(view_members(ps@) =~= stmt_json(st@)->Object_0);
            JsonValue::Object(ps)
        },
        Stmt::Emit { expr } => {
            let mut ps = tag("Emit");
            push_member(&mut ps, "expr", expr_to_json(expr));
            assert(view_members(ps@) =~= stmt_json(st@)->Object_0);
            JsonValue::Object(ps)
        },
        Stmt::Return { expr } => {
            let mut ps = tag("Return");
            push_member(&mut ps, "expr", expr_to_json(expr));
            assert(view_members(ps@) =~= stmt_json(st@)->Object_0);
            JsonValue::Object(ps)
        },
    }
}


fn imports_to_json(v: &Vec<ImportDecl>) -> (j: JsonValue)
    ensures
        j@ == SJson::Array(v@.map_values(|x: ImportDecl| SJson::Object(seq![("name"@, jstr(x@.name)), ("hash"@, jstr(x@.hash))]))),
{
    let mut out: Vec<JsonValue> = Vec::new();
    let mut i: usize = 0;
    while i < v.len()
        invariant
            i <= v@.len(),
            view_elems(out@) == v@.take(i as int).map_values(|x: ImportDecl| SJson::Object(seq![("name"@, jstr(x@.name)), ("hash"@, jstr(x@.hash))])),
        decreases v@.len() - i,
    {
        let ghost before = out@;
        let x = &v[i];
        let mut ps: Vec<(String, JsonValue)> = Vec::new();
        push_member(&mut ps, "name", str_json(&x.name));
        push_member(&mut ps, "hash", str_json(&x.hash));
        assert(view_members(ps@) =~= SJson::Object(seq![("name"@, jstr(x@.name)), ("hash"@, jstr(x@.hash))])->Object_0);
        let e = JsonValue::Object(ps);
        assert(e@ == SJson::Object(seq![("name"@, jstr(x@.name)), ("hash"@, jstr(x@.hash))]));

        let ghost ge = e;
        out.push(e);
        proof {
            assert(out@.drop_last() =~= before);
            assert(out@.last() == ge);
            assert(v@.take(i + 1).map_values(|x: ImportDecl| SJson::Object(seq![("name"@, jstr(x@.name)), ("hash"@, jstr(x@.hash))]))
                =~= v@.take(i as int).map_values(|x: ImportDecl| SJson::Object(seq![("name"@, jstr(x@.name)), ("hash"@, jstr(x@.hash))])).push(ge@));
        }
        i += 1;
    }
    assert(v@.take(v@.len() as int) =~= v@);
    JsonValue::Array(out)
}

fn types_to_json(v: &Vec<TypeDecl>) -> (j: JsonValue)
    ensures
        j@ == SJson::Array(v@.map_values(|x: TypeDecl| type_decl_json(x@))),
{
    let mut out: Vec<JsonValue> = Vec::new();
    let mut i: usize = 0;
    while i < v.len()
        invariant
            i <= v@.len(),
            view_elems(out@) == v@.take(i as int).map_values(|x: TypeDecl| type_decl_json(x@)),
        decreases v@.len() - i,
    {
        let ghost before = out@;
        let x = &v[i];
        let mut ps: Vec<(String, JsonValue)> = Vec::new();
        push_member(&mut ps, "name", str_json(&x.name));
        push_member(&mut ps, "base", str_json(&x.base));
        match &x.constraint {
            Some(c) => {
                let mut cs: Vec<(String, JsonValue)> = Vec::new();
                push_member(&mut cs, "validator", str_json(&c.validator));
                push_member(&mut cs, "pattern", str_json(&c.pattern));
                assert(view_members(cs@) =~= seq![("validator"@, jstr(c.validator@)), ("pattern"@, jstr(c.pattern@))]);
                push_member(&mut ps, "constraint", JsonValue::Object(cs));
            },
            None => {},
        }
        assert(view_members(ps@) =~= type_decl_json(x@)->Object_0);
        let e = JsonValue::Object(ps);
        assert(e@ == type_decl_json(x@));

        let ghost ge = e;
        out.push(e);
        proof {
            assert(out@.drop_last() =~= before);
            assert(out@.last() == ge);
            assert(v@.take(i + 1).map_values(|x: TypeDecl| type_decl_json(x@))
                =~= v@.take(i as int).map_values(|x: TypeDecl| type_decl_json(x@)).push(ge@));
        }
        i += 1;
    }
    assert(v@.take(v@.len() as int) =~= v@);
    JsonValue::Array(out)
}

fn caps_to_json(v: &Vec<CapDecl>) -> (j: JsonValue)
    ensures
        j@ == SJson::Array(v@.map_values(|x: CapDecl| SJson::Object(seq![("alias"@, jstr(x@.alias)), ("signature"@, jstr(x@.signature))]))),
{
    let mut out: Vec<JsonValue> = Vec::new();
    let mut i: usize = 0;
    while i < v.len()
        invariant
            i <= v@.len(),
            view_elems(out@) == v@.take(i as int).map_values(|x: CapDecl| SJson::Object(seq![("alias"@, jstr(x@.alias)), ("signature"@, jstr(x@.signature))])),
        decreases v@.len() - i,
    {
        let ghost before = out@;
        let x = &v[i];
        let mut ps: Vec<(String, JsonValue)> = Vec::new();
        push_member(&mut ps, "alias", str_json(&x.alias));
        push_member(&mut ps, "signature", str_json(&x.signature));
        assert(view_members(ps@) =~= SJson::Object(seq![("alias"@, jstr(x@.alias)), ("signature"@, jstr(x@.signature))])->Object_0);
        let e = JsonValue::Object(ps);
        assert(e@ == SJson::Object(seq![("alias"@, jstr(x@.alias)), ("signature"@, jstr(x@.signature))]));

        let ghost ge = e;
        out.push(e);
        proof {
            assert(out@.drop_last() =~= before);
            assert(out@.last() == ge);
            assert(v@.take(i + 1).map_values(|x: CapDecl| SJson::Object(seq![("alias"@, jstr(x@.alias)), ("signature"@, jstr(x@.signature))]))
                =~= v@.take(i as int).map_values(|x: CapDecl| SJson::Object(seq![("alias"@, jstr(x@.alias)), ("signature"@, jstr(x@.signature))])).push(ge@));
        }
        i += 1;
    }
    assert(v@.take(v@.len() as int) =~= v@);
    JsonValue::Array(out)
}

fn intrinsics_to_json(v: &Vec<IntrinsicDecl>) -> (j: JsonValue)
    ensures
        j@ == SJson::Array(v@.map_values(|x: IntrinsicDecl| SJson::Object(seq![("alias"@, jstr(x@.alias)), ("signature"@, jstr(x@.signature))]))),
{
    let mut out: Vec<JsonValue> = Vec::new();
    let mut i: usize = 0;
    while i < v.len()
        invariant
            i <= v@.len(),
            view_elems(out@) == v@.take(i as int).map_values(|x: IntrinsicDecl| SJson::Object(seq![("alias"@, jstr(x@.alias)), ("signature"@, jstr(x@.signature))])),
        decreases v@.len() - i,
    {
        let ghost before = out@;
        let x = &v[i];
        let mut ps: Vec<(String, JsonValue)> = Vec::new();
        push_member(&mut ps, "alias", str_json(&x.alias));
        push_member(&mut ps, "signature", str_json(&x.signature));
        assert(view_members(ps@) =~= SJson::Object(seq![("alias"@, jstr(x@.alias)), ("signature"@, jstr(x@.signature))])->Object_0);
        let e = JsonValue::Object(ps);
        assert(e@ == SJson::Object(seq![("alias"@, jstr(x@.alias)), ("signature"@, jstr(x@.signature))]));

        let ghost ge = e;
        out.push(e);
        proof {
            assert(out@.drop_last() =~= before);
            assert(out@.last() == ge);
            assert(v@.take(i + 1).map_values(|x: IntrinsicDecl| SJson::Object(seq![("alias"@, jstr(x@.alias)), ("signature"@, jstr(x@.signature))]))
                =~= v@.take(i as int).map_values(|x: IntrinsicDecl| SJson::Object(seq![("alias"@, jstr(x@.alias)), ("signature"@, jstr(x@.signature))])).push(ge@));
        }
        i += 1;
    }
    assert(v@.take(v@.len() as int) =~= v@);
    JsonValue::Array(out)
}

fn params_to_json(v: &Vec<Param>) -> (j: JsonValue)
    ensures
        j@ == SJson::Array(v@.map_values(|x: Param| SJson::Object(seq![("name"@, jstr(x@.name)), ("type"@, jstr(x@.ty_name))]))),
{
    let mut out: Vec<JsonValue> = Vec::new();
    let mut i: usize = 0;
    while i < v.len()
        invariant
            i <= v@.len(),
            view_elems(out@) == v@.take(i as int).map_values(|x: Param| SJson::Object(seq![("name"@, jstr(x@.name)), ("type"@, jstr(x@.ty_name))])),
        decreases v@.len() - i,
    {
        let ghost before = out@;
        let x = &v[i];
        let mut ps: Vec<(String, JsonValue)> = Vec::new();
        push_member(&mut ps, "name", str_json(&x.name));
        push_member(&mut ps, "type", str_json(&x.ty_name));
        assert(view_members(ps@) =~= SJson::Object(seq![("name"@, jstr(x@.name)), ("type"@, jstr(x@.ty_name))])->Object_0);
        let e = JsonValue::Object(ps);
        assert(e@ == SJson::Object(seq![("name"@, jstr(x@.name)), ("type"@, jstr(x@.ty_name))]));

        let ghost ge = e;
        out.push(e);
        proof {
            assert(out@.drop_last() =~= before);
            assert(out@.last() == ge);
            assert(v@.take(i + 1).map_values(|x: Param| SJson::Object(seq![("name"@, jstr(x@.name)), ("type"@, jstr(x@.ty_name))]))
                =~= v@.take(i as int).map_values(|x: Param| SJson::Object(seq![("name"@, jstr(x@.name)), ("type"@, jstr(x@.ty_name))])).push(ge@));
        }
        i += 1;
    }
    assert(v@.take(v@.len() as int) =~= v@);
    JsonValue::Array(out)
}

fn constraints_to_json(v: &Vec<ConstraintExpr>) -> (j: JsonValue)
    ensures
        j@ == SJson::Array(v@.map_values(|x: ConstraintExpr| constraint_ast_json(x@))),
{
    let mut out: Vec<JsonValue> = Vec::new();
    let mut i: usize = 0;
    while i < v.len()
        invariant
            i <= v@.len(),
            view_elems(out@) == v@.take(i as int).map_values(|x: ConstraintExpr| constraint_ast_json(x@)),
        decreases v@.len() - i,
    {
        let ghost before = out@;
        let x = &v[i];
        let e = constraint_to_json(x);

        let ghost ge = e;
        out.push(e);
        proof {
            assert(out@.drop_last() =~= before);
            assert(out@.last() == ge);
            assert(v@.take(i + 1).map_values(|x: ConstraintExpr| constraint_ast_json(x@))
                =~= v@.take(i as int).map_values(|x: ConstraintExpr| constraint_ast_json(x@)).push(ge@));
        }
        i += 1;
    }
    assert(v@.take(v@.len() as int) =~= v@);
    JsonValue::Array(out)
}

fn goals_to_json(v: &Vec<GoalDecl>) -> (j: JsonValue)
    ensures
        j@ == SJson::Array(v@.map_values(|x: GoalDecl| goal_decl_json(x@))),
{
    let mut out: Vec<JsonValue> = Vec::new();
    let mut i: usize = 0;
    while i < v.len()
        invariant
            i <= v@.len(),
            view_elems(out@) == v@.take(i as int).map_values(|x: GoalDecl| goal_decl_json(x@)),
        decreases v@.len() - i,
    {
        let ghost before = out@;
        let x = &v[i];
        let e = goal_to_json(x);

        let ghost ge = e;
        out.push(e);
        proof {
            assert(out@.drop_last() =~= before);
            assert(out@.last() == ge);
            assert(v@.take(i + 1).map_values(|x: GoalDecl| goal_decl_json(x@))
                =~= v@.take(i as int).map_values(|x: GoalDecl| goal_decl_json(x@)).push(ge@));
        }
        i += 1;
    }
    assert(v@.take(v@.len() as int) =~= v@);
    JsonValue::Array(out)
}

fn left_to_json(c: &ConstraintExpr) -> (j: JsonValue)
    ensures
        j@ == left_json(c@.left),
{
    match &c.left {
        ConstraintLeft::Path { segments } => {
            let mut ps = tag("Path");
            push_member(&mut ps, "segments", strings_to_json(segments));
            assert(view_members(ps@) =~= tagged("Path"@, seq![("segments"@, str_array(strings_view(segments@)))])->Object_0);
            let j = JsonValue::Object(ps);
            assert(j@ == SJson::Object(view_members(ps@)));
            assert(j@ == left_json(c@.left));
            assert(c@.left == ConstraintLeftV::Path { segments: strings_view(segments@) });
            assert(j@ == tagged("Path"@, seq![("segments"@, str_array(strings_view(segments@)))]));
            j
        },
        ConstraintLeft::FnCall { name, args } => {
            let mut ps = tag("FnCall");
            push_member(&mut ps, "name", str_json(name));
            push_member(&mut ps, "args", strings_to_json(args));
            assert(view_members(ps@) =~= tagged("FnCall"@, seq![("name"@, jstr(name@)), ("args"@, str_array(strings_view(args@)))])->Object_0);
            let j = JsonValue::Object(ps);
            assert(c@.left == ConstraintLeftV::FnCall { name: name@, args: strings_view(args@) });
            assert(j@ == SJson::Object(view_members(ps@)));
            assert(j@ == left_json(c@.left));
            j
        },
    }
}

fn right_to_json(c: &ConstraintExpr) -> (j: JsonValue)
    ensures
        j@ == right_json(c@.right),
{
    match &c.right {
        ConstraintValue::Number { value } => {
            let mut ps = tag("Number");
            push_member(&mut ps, "value", JsonValue::Int(*value as i128));
            assert(view_members(ps@) =~= tagged("Number"@, seq![("value"@, SJson::Int(*value as int))])->Object_0);
            let j = JsonValue::Object(ps);
            assert(c@.right == ConstraintValueV::Number { value: *value as nat });
            assert(j@ == SJson::Object(view_members(ps@)));
            j
        },
        ConstraintValue::Rate { value, unit } => {
            let mut ps = tag("Rate");
            push_member(&mut ps, "value", JsonValue::Int(*value as i128));
            push_member(&mut ps, "unit", str_json(unit));
            assert(view_members(ps@) =~= tagged("Rate"@, seq![("value"@, SJson::Int(*value as int)), ("unit"@, jstr(unit@))])->Object_0);
            let j = JsonValue::Object(ps);
            assert(c@.right == ConstraintValueV::Rate { value: *value as nat, unit: unit@ });
            assert(j@ == SJson::Object(view_members(ps@)));
            j
        },
        ConstraintValue::StringLit { value } => {
            let mut ps = tag("StringLit");
            push_member(&mut ps, "value", str_json(value));
            assert(view_members(ps@) =~= tagged("StringLit"@, seq![("value"@, jstr(value@))])->Object_0);
            let j = JsonValue::Object(ps);
            assert(c@.right == ConstraintValueV::StringLit { value: value@ });
            assert(j@ == SJson::Object(view_members(ps@)));
            j
        },
    }
}

fn constraint_to_json(c: &ConstraintExpr) -> (j: JsonValue)
    ensures
        j@ == constraint_ast_json(c@),
{
    let op = match c.op {
        CmpOp::Eq => JsonValue::Str(String::from_str("eq")),
        CmpOp::LtEq => JsonValue::Str(String::from_str("lt_eq")),
    };
    let mut ps: Vec<(String, JsonValue)> = Vec::new();
    push_member(&mut ps, "op", op);
    push_member(&mut ps, "left", left_to_json(c));
    push_member(&mut ps, "right", right_to_json(c));
    assert(view_members(ps@) =~= constraint_ast_json(c@)->Object_0);
    JsonValue::Object(ps)
}

fn goal_to_json(g: &GoalDecl) -> (j: JsonValue)
    ensures
        j@ == goal_decl_json(g@),
{
    let mut want: Vec<(String, JsonValue)> = Vec::new();
    push_member(&mut want, "stmts", stmts_to_json(&g.want.stmts));
    assert(view_members(want@) =~= seq![("stmts"@, SJson::Array(stmts_json(stmts_view(g.want.stmts@))))]);
    let mut ps: Vec<(String, JsonValue)> = Vec::new();
    push_member(&mut ps, "name", str_json(&g.name));
    push_member(&mut ps, "params", params_to_json(&g.params));
    push_member(&mut ps, "returns", str_json(&g.returns));
    push_member(&mut ps, "want", JsonValue::Object(want));
    push_member(&mut ps, "constraints", constraints_to_json(&g.constraints));
    proof {
        assert(g@.params.map_values(|p: ParamV| SJson::Object(seq![("name"@, jstr(p.name)), ("type"@, jstr(p.ty_name))]))
            =~= g.params@.map_values(|x: Param| SJson::Object(seq![("name"@, jstr(x@.name)), ("type"@, jstr(x@.ty_name))])));
        assert(g@.constraints.map_values(|c: ConstraintExprV| constraint_ast_json(c))
            =~= g.constraints@.map_values(|x: ConstraintExpr| constraint_ast_json(x@)));
    }
    assert(view_members(ps@) =~= goal_decl_json(g@)->Object_0);
    JsonValue::Object(ps)
}

/// The JSON form of a module.
pub fn module_to_json(m: &Module) -> (j: JsonValue)
    ensures
        j@ == module_json(m@),
{
    let mut ps: Vec<(String, JsonValue)> = Vec::new();
    push_member(&mut ps, "version", str_json(&m.version));
    if m.imports.len() > 0 {
        push_member(&mut ps, "imports", imports_to_json(&m.imports));
    }
    push_member(&mut ps, "types", types_to_json(&m.types));
    push_member(&mut ps, "capabilities", caps_to_json(&m.capabilities));
    push_member(&mut ps, "intrinsics", intrinsics_to_json(&m.intrinsics));
    push_member(&mut ps, "goals", goals_to_json(&m.goals));
    proof {
        assert(m@.imports.map_values(|d: ImportDeclV| SJson::Object(seq![("name"@, jstr(d.name)), ("hash"@, jstr(d.hash))]))
            =~= m.imports@.map_values(|x: ImportDecl| SJson::Object(seq![("name"@, jstr(x@.name)), ("hash"@, jstr(x@.hash))])));
        assert(m@.types.map_values(|t: TypeDeclV| type_decl_json(t)) =~= m.types@.map_values(|x: TypeDecl| type_decl_json(x@)));
        assert(m@.capabilities.map_values(|d: CapDeclV| SJson::Object(seq![("alias"@, jstr(d.alias)), ("signature"@, jstr(d.signature))]))
            =~= m.capabilities@.map_values(|x: CapDecl| SJson::Object(seq![("alias"@, jstr(x@.alias)), ("signature"@, jstr(x@.signature))])));
        assert(m@.intrinsics.map_values(|d: IntrinsicDeclV| SJson::Object(seq![("alias"@, jstr(d.alias)), ("signature"@, jstr(d.signature))]))
            =~= m.intrinsics@.map_values(|x: IntrinsicDecl| SJson::Object(seq![("alias"@, jstr(x@.alias)), ("signature"@, jstr(x@.signature))])));
        assert(m@.goals.map_values(|g: GoalDeclV| goal_decl_json(g)) =~= m.goals@.map_values(|x: GoalDecl| goal_decl_json(x@)));
    }
    assert(view_members(ps@) =~= module_json(m@)->Object_0);
    JsonValue::Object(ps)
}

// ---------------------------------------------------------------------------
// The JSON form tells ASTs apart
// ---------------------------------------------------------------------------

proof fn lemma_str_array_injective(a: Seq<Seq<char>>, b: Seq<Seq<char>>)
    requires
        str_array(a) == str_array(b),
    ensures
        a == b,
{
    let ma = a.map_values(|x: Seq<char>| SJson::Str(x));
    let mb = b.map_values(|x: Seq<char>| SJson::Str(x));
    assert(ma.len() == mb.len());
    assert forall|i: int| 0 <= i < a.len() implies a[i] == b[i] by {
        assert(ma[i] == mb[i]);
    }
    assert(a =~= b);
}

/// The JSON of a constraint value determines it: its kind, its number (a
/// rate limit's value among them) and its unit or text.
pub proof fn lemma_right_json_injective(a: ConstraintValueV, b: ConstraintValueV)
    requires
        right_json(a) == right_json(b),
    ensures
        a == b,
{
    reveal_strlit("Number");
    reveal_strlit("Rate");
    reveal_strlit("StringLit");
    let pa = right_json(a)->Object_0;
    let pb = right_json(b)->Object_0;
    assert(pa[0] == pb[0]);
    assert(pa[1] == pb[1]);
    assert("Rate"@.len() != "Number"@.len() && "Rate"@.len() != "StringLit"@.len());
    match a {
        ConstraintValueV::Rate { value, unit } => {
            assert(b is Rate);
            assert(pa.len() == 3);
            assert(pa[2] == pb[2]);
            assert(pa[1].1 == SJson::Int(value as int));
            assert(pb[1].1 == SJson::Int(b->Rate_value as int));
            assert(unit == b->Rate_unit);
        },
        _ => {},
    }
}

/// The JSON of a constraint determines it: its operator, its left side and
/// its value.
pub proof fn lemma_constraint_json_injective(a: ConstraintExprV, b: ConstraintExprV)
    requires
        constraint_ast_json(a) == constraint_ast_json(b),
    ensures
        a == b,
{
    reveal_strlit("eq");
    reveal_strlit("lt_eq");
    reveal_strlit("Path");
    reveal_strlit("FnCall");
    let pa = constraint_ast_json(a)->Object_0;
    let pb = constraint_ast_json(b)->Object_0;
    assert(pa[0] == pb[0]);
    assert(pa[1] == pb[1]);
    assert(pa[2] == pb[2]);
    assert(operator_text(a.op).len() == operator_text(b.op).len());
    lemma_right_json_injective(a.right, b.right);
    let la = left_json(a.left)->Object_0;
    let lb = left_json(b.left)->Object_0;
    assert(la[0] == lb[0]);
    match a.left {
        ConstraintLeftV::Path { segments } => {
            assert(la[1] == lb[1]);
            lemma_str_array_injective(segments, b.left->segments);
        },
        ConstraintLeftV::FnCall { name, args } => {
            assert(la[1] == lb[1]);
            assert(la[2] == lb[2]);
            lemma_str_array_injective(args, b.left->args);
        },
    }
}

/// Modules with the same JSON have the same goal constraints: two modules
/// that differ in any goal constraint (a rate limit's value, say) have
/// different JSON.
pub proof fn lemma_module_json_determines_constraints(m1: ModuleV, m2: ModuleV)
    requires
        module_json(m1) == module_json(m2),
    ensures
        m1.goals.len() == m2.goals.len(),
        forall|g: int| 0 <= g < m1.goals.len() ==> #[trigger] m1.goals[g].constraints == m2.goals[g].constraints,
{
    let p1 = module_json(m1)->Object_0;
    let p2 = module_json(m2)->Object_0;
    assert(p1.len() == p2.len());
    assert(p1[p1.len() - 1] == p2[p2.len() - 1]);
    let g1 = m1.goals.map_values(|g: GoalDeclV| goal_decl_json(g));
    let g2 = m2.goals.map_values(|g: GoalDeclV| goal_decl_json(g));
    assert(p1[p1.len() - 1].1 == SJson::Array(g1));
    assert(p2[p2.len() - 1].1 == SJson::Array(g2));
    assert(g1.len() == g2.len());
    assert forall|g: int| 0 <= g < m1.goals.len() implies #[trigger] m1.goals[g].constraints == m2.goals[g].constraints by {
        assert(g1[g] == g2[g]);
        let a = m1.goals[g];
        let b = m2.goals[g];
        let qa = goal_decl_json(a)->Object_0;
        let qb = goal_decl_json(b)->Object_0;
        assert(qa[4] == qb[4]);
        let ca = a.constraints.map_values(|c: ConstraintExprV| constraint_ast_json(c));
        let cb = b.constraints.map_values(|c: ConstraintExprV| constraint_ast_json(c));
        assert(qa[4].1 == SJson::Array(ca));
        assert(qb[4].1 == SJson::Array(cb));
        assert(ca.len() == cb.len());
        assert forall|i: int| 0 <= i < a.constraints.len() implies a.constraints[i] == b.constraints[i] by {
            assert(ca[i] == cb[i]);
            lemma_constraint_json_injective(a.constraints[i], b.constraints[i]);
        }
        assert(a.constraints =~= b.constraints);
    }
}

/// The JSON of an expression determines it.
pub proof fn lemma_expr_json_injective(a: ExprV, b: ExprV)
    requires
        expr_json(a) == expr_json(b),
    ensures
        a == b,
    decreases a,
{
    reveal_strlit("Ident");
    reveal_strlit("StringLit");
    reveal_strlit("Call");
    reveal_strlit("Pure");
    assert("Call"@[0] != "Pure"@[0]);
    assert("Ident"@.len() == 5 && "StringLit"@.len() == 9 && "Call"@.len() == 4 && "Pure"@.len() == 4);
    let pa = expr_json(a)->Object_0;
    let pb = expr_json(b)->Object_0;
    assert(pa[0] == pb[0]);
    assert(pa[1] == pb[1]);
    match a {
        ExprV::Ident { name } => {
            assert(b is Ident);
        },
        ExprV::StringLit { value } => {
            assert(b is StringLit);
        },
        ExprV::Call { name, args } => {
            assert(b is Call);
            assert(pa[2] == pb[2]);
            lemma_exprs_json_injective(args, b->Call_args);
        },
        ExprV::Pure { body } => {
            assert(b is Pure);
            lemma_expr_json_injective(*body, *b->Pure_body);
        },
    }
}

/// The JSON of a list of expressions determines it.
pub proof fn lemma_exprs_json_injective(a: Seq<ExprV>, b: Seq<ExprV>)
    requires
        exprs_json(a) == exprs_json(b),
    ensures
        a == b,
    decreases a,
{
    if a.len() == 0 {
        if b.len() > 0 {
            assert(exprs_json(b).len() > 0);
        }
        assert(a =~= b);
    } else {
        assert(b.len() > 0) by {
            if b.len() == 0 {
                assert(exprs_json(a).len() > 0);
            }
        }
        let la = exprs_json(a).len() - 1;
        assert(exprs_json(a)[la] == exprs_json(b)[la]);
        assert(exprs_json(a)[la] == expr_json(a.last()));
        assert(exprs_json(b).len() - 1 == la);
        assert(exprs_json(b)[la] == expr_json(b.last()));
        assert(exprs_json(a).drop_last() == exprs_json(b).drop_last());
        assert(exprs_json(a).drop_last() =~= exprs_json(a.drop_last()));
        assert(exprs_json(b).drop_last() =~= exprs_json(b.drop_last()));
        lemma_expr_json_injective(a.last(), b.last());
        lemma_exprs_json_injective(a.drop_last(), b.drop_last());
        assert(a =~= a.drop_last().push(a.last()));
        assert(b =~= b.drop_last().push(b.last()));
    }
}

/// The JSON of a statement determines it.
pub proof fn lemma_stmt_json_injective(a: StmtV, b: StmtV)
    requires
        stmt_json(a) == stmt_json(b),
    ensures
        a == b,
    decreases a,
{
    reveal_strlit("Let");
    reveal_strlit("Map");
    reveal_strlit("If");
    reveal_strlit("Reduce");
    reveal_strlit("Assign");
    reveal_strlit("Emit");
    reveal_strlit("Return");
    assert("Let"@[0] != "Map"@[0]);
    assert("Let"@.len() == 3 && "Map"@.len() == 3 && "If"@.len() == 2 && "Emit"@.len() == 4);
    assert("Reduce"@.len() == 6 && "Assign"@.len() == 6 && "Return"@.len() == 6);
    assert("Reduce"@[0] != "Assign"@[0] && "Assign"@[0] != "Return"@[0] && "Reduce"@[2] != "Return"@[2]);
    let pa = stmt_json(a)->Object_0;
    let pb = stmt_json(b)->Object_0;
    assert(pa[0] == pb[0]);
    assert(pa[1] == pb[1]);
    match a {
        StmtV::Let { name, expr } => {
            assert(b is Let);
            assert(pa[2] == pb[2]);
            lemma_expr_json_injective(expr, b->Let_expr);
        },
        StmtV::MapOver { list, binder, body } => {
            assert(b is MapOver);
            assert(pa[2] == pb[2]);
            assert(pa[3] == pb[3]);
            lemma_stmts_json_injective(body, b->MapOver_body);
        },
        StmtV::If { condition, true_body, false_body } => {
            assert(b is If);
            assert(pa[2] == pb[2]);
            assert(pa[3] == pb[3]);
            lemma_expr_json_injective(condition, b->condition);
            lemma_stmts_json_injective(true_body, b->true_body);
            lemma_stmts_json_injective(false_body, b->false_body);
        },
        StmtV::Reduce { list, binder, accum, body } => {
            assert(b is Reduce);
            assert(pa[2] == pb[2]);
            assert(pa[3] == pb[3]);
            assert(pa[4] == pb[4]);
            lemma_stmts_json_injective(body, b->Reduce_body);
        },
        StmtV::Assign { name, expr } => {
            assert(b is Assign);
            assert(pa[2] == pb[2]);
            lemma_expr_json_injective(expr, b->Assign_expr);
        },
        StmtV::Emit { expr } => {
            assert(b is Emit);
            lemma_expr_json_injective(expr, b->Emit_expr);
        },
        StmtV::Return { expr } => {
            assert(b is Return);
            lemma_expr_json_injective(expr, b->Return_expr);
        },
    }
}

/// The JSON of a list of statements determines it.
pub proof fn lemma_stmts_json_injective(a: Seq<StmtV>, b: Seq<StmtV>)
    requires
        stmts_json(a) == stmts_json(b),
    ensures
        a == b,
    decreases a,
{
    if a.len() == 0 {
        if b.len() > 0 {
            assert(stmts_json(b).len() > 0);
        }
        assert(a =~= b);
    } else {
        assert(b.len() > 0) by {
            if b.len() == 0 {
                assert(stmts_json(a).len() > 0);
            }
        }
        let la = stmts_json(a).len() - 1;
        assert(stmts_json(a)[la] == stmts_json(b)[la]);
        assert(stmts_json(a)[la] == stmt_json(a.last()));
        assert(stmts_json(b).len() - 1 == la);
        assert(stmts_json(b)[la] == stmt_json(b.last()));
        assert(stmts_json(a).drop_last() == stmts_json(b).drop_last());
        assert(stmts_json(a).drop_last() =~= stmts_json(a.drop_last()));
        assert(stmts_json(b).drop_last() =~= stmts_json(b.drop_last()));
        lemma_stmt_json_injective(a.last(), b.last());
        lemma_stmts_json_injective(a.drop_last(), b.drop_last());
        assert(a =~= a.drop_last().push(a.last()));
        assert(b =~= b.drop_last().push(b.last()));
    }
}

/// The JSON of a type declaration determines it.
pub proof fn lemma_type_decl_json_injective(a: TypeDeclV, b: TypeDeclV)
    requires
        type_decl_json(a) == type_decl_json(b),
    ensures
        a == b,
{
    let pa = type_decl_json(a)->Object_0;
    let pb = type_decl_json(b)->Object_0;
    assert(pa.len() == pb.len());
    assert(pa[0] == pb[0]);
    assert(pa[1] == pb[1]);
    if a.constraint is Some {
        assert(b.constraint is Some);
        assert(pa[2] == pb[2]);
        let ca = pa[2].1->Object_0;
        let cb = pb[2].1->Object_0;
        assert(ca[0] == cb[0] && ca[1] == cb[1]);
    } else {
        assert(b.constraint is None);
    }
}

/// The JSON of a goal declaration determines it: name, parameters, return
/// type, statements and constraints.
pub proof fn lemma_goal_decl_json_injective(a: GoalDeclV, b: GoalDeclV)
    requires
        goal_decl_json(a) == goal_decl_json(b),
    ensures
        a == b,
{
    let pa = goal_decl_json(a)->Object_0;
    let pb = goal_decl_json(b)->Object_0;
    assert(pa[0] == pb[0] && pa[1] == pb[1] && pa[2] == pb[2] && pa[3] == pb[3] && pa[4] == pb[4]);
    let fa = a.params.map_values(|p: ParamV| SJson::Object(seq![("name"@, jstr(p.name)), ("type"@, jstr(p.ty_name))]));
    let fb = b.params.map_values(|p: ParamV| SJson::Object(seq![("name"@, jstr(p.name)), ("type"@, jstr(p.ty_name))]));
    assert(pa[1].1 == SJson::Array(fa));
    assert(pb[1].1 == SJson::Array(fb));
    assert(fa.len() == fb.len());
    assert forall|i: int| 0 <= i < a.params.len() implies a.params[i] == b.params[i] by {
        assert(fa[i] == fb[i]);
        let oa = fa[i]->Object_0;
        let ob = fb[i]->Object_0;
        assert(oa[0] == ob[0] && oa[1] == ob[1]);
    }
    assert(a.params =~= b.params);
    let wa = pa[3].1->Object_0;
    let wb = pb[3].1->Object_0;
    assert(wa[0] == wb[0]);
    lemma_stmts_json_injective(a.stmts, b.stmts);
    let ca = a.constraints.map_values(|c: ConstraintExprV| constraint_ast_json(c));
    let cb = b.constraints.map_values(|c: ConstraintExprV| constraint_ast_json(c));
    assert(pa[4].1 == SJson::Array(ca));
    assert(pb[4].1 == SJson::Array(cb));
    assert(ca.len() == cb.len());
    assert forall|i: int| 0 <= i < a.constraints.len() implies a.constraints[i] == b.constraints[i] by {
        assert(ca[i] == cb[i]);
        lemma_constraint_json_injective(a.constraints[i], b.constraints[i]);
    }
    assert(a.constraints =~= b.constraints);
}

/// The JSON of a module determines the module: modules that differ in
/// anything (a rate limit's value, a statement, a declaration) have
/// different JSON.
pub proof fn lemma_module_json_injective(m1: ModuleV, m2: ModuleV)
    requires
        module_json(m1) == module_json(m2),
    ensures
        m1 == m2,
{
    let p1 = module_json(m1)->Object_0;
    let p2 = module_json(m2)->Object_0;
    assert(p1.len() == p2.len());
    let n = p1.len();
    assert(p1[0] == p2[0]);
    assert(m1.imports.len() == 0 <==> m2.imports.len() == 0);
    if m1.imports.len() > 0 {
        assert(p1[1] == p2[1]);
        let ia = m1.imports.map_values(|d: ImportDeclV| SJson::Object(seq![("name"@, jstr(d.name)), ("hash"@, jstr(d.hash))]));
        let ib = m2.imports.map_values(|d: ImportDeclV| SJson::Object(seq![("name"@, jstr(d.name)), ("hash"@, jstr(d.hash))]));
        assert(p1[1].1 == SJson::Array(ia));
        assert(p2[1].1 == SJson::Array(ib));
        assert(ia.len() == ib.len());
        assert forall|i: int| 0 <= i < m1.imports.len() implies m1.imports[i] == m2.imports[i] by {
            assert(ia[i] == ib[i]);
            let oa = ia[i]->Object_0;
            let ob = ib[i]->Object_0;
            assert(oa[0] == ob[0] && oa[1] == ob[1]);
        }
    }
    assert(m1.imports =~= m2.imports);
    assert(p1[n - 4] == p2[n - 4] && p1[n - 3] == p2[n - 3] && p1[n - 2] == p2[n - 2] && p1[n - 1] == p2[n - 1]);
    // types
    let ta = m1.types.map_values(|t: TypeDeclV| type_decl_json(t));
    let tb = m2.types.map_values(|t: TypeDeclV| type_decl_json(t));
    assert(p1[n - 4].1 == SJson::Array(ta));
    assert(p2[n - 4].1 == SJson::Array(tb));
    assert(ta.len() == tb.len());
    assert forall|i: int| 0 <= i < m1.types.len() implies m1.types[i] == m2.types[i] by {
        assert(ta[i] == tb[i]);
        lemma_type_decl_json_injective(m1.types[i], m2.types[i]);
    }
    assert(m1.types =~= m2.types);
    // capabilities
    let ca = m1.capabilities.map_values(|d: CapDeclV| SJson::Object(seq![("alias"@, jstr(d.alias)), ("signature"@, jstr(d.signature))]));
    let cb = m2.capabilities.map_values(|d: CapDeclV| SJson::Object(seq![("alias"@, jstr(d.alias)), ("signature"@, jstr(d.signature))]));
    assert(p1[n - 3].1 == SJson::Array(ca));
    assert(p2[n - 3].1 == SJson::Array(cb));
    assert(ca.len() == cb.len());
    assert forall|i: int| 0 <= i < m1.capabilities.len() implies m1.capabilities[i] == m2.capabilities[i] by {
        assert(ca[i] == cb[i]);
        let oa = ca[i]->Object_0;
        let ob = cb[i]->Object_0;
        assert(oa[0] == ob[0] && oa[1] == ob[1]);
    }
    assert(m1.capabilities =~= m2.capabilities);
    // intrinsics
    let xa = m1.intrinsics.map_values(|d: IntrinsicDeclV| SJson::Object(seq![("alias"@, jstr(d.alias)), ("signature"@, jstr(d.signature))]));
    let xb = m2.intrinsics.map_values(|d: IntrinsicDeclV| SJson::Object(seq![("alias"@, jstr(d.alias)), ("signature"@, jstr(d.signature))]));
    assert(p1[n - 2].1 == SJson::Array(xa));
    assert(p2[n - 2].1 == SJson::Array(xb));
    assert(xa.len() == xb.len());
    assert forall|i: int| 0 <= i < m1.intrinsics.len() implies m1.intrinsics[i] == m2.intrinsics[i] by {
        assert(xa[i] == xb[i]);
        let oa = xa[i]->Object_0;
        let ob = xb[i]->Object_0;
        assert(oa[0] == ob[0] && oa[1] == ob[1]);
    }
    assert(m1.intrinsics =~= m2.intrinsics);
    // goals
    let ga = m1.goals.map_values(|g: GoalDeclV| goal_decl_json(g));
    let gb = m2.goals.map_values(|g: GoalDeclV| goal_decl_json(g));
    assert(p1[n - 1].1 == SJson::Array(ga));
    assert(p2[n - 1].1 == SJson::Array(gb));
    assert(ga.len() == gb.len());
    assert forall|i: int| 0 <= i < m1.goals.len() implies m1.goals[i] == m2.goals[i] by {
        assert(ga[i] == gb[i]);
        lemma_goal_decl_json_injective(m1.goals[i], m2.goals[i]);
    }
    assert(m1.goals =~= m2.goals);
}

} // verus!
