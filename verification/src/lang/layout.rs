//! The parse depends on the tokens alone: their lines only reach the error
//! messages.  Two sources whose tokens agree, however they are laid out over
//! lines, give the same module and hence the same AST hash.
use vstd::prelude::*;
use crate::lang::ast::{ConstraintExprV, ConstraintLeftV, ExprV, ModuleV, ParamV, StmtV};
use crate::lang::error::LangErrorV;
use crate::lang::lexer::{TokenV, lex};
use crate::lang::lowering::{lower_goal_spec, lower_spec, module_of};
use crate::lang::parser::{lemma_normalize_newlines_idempotent, lemma_no_cr_normalized};
use crate::lang::spacing::{
    kinds, is_layout, is_blank, lex_visits, blanks_swapped, lemma_added_layout_keeps_tokens,
    lemma_blanks_interchangeable, quote_free, double_spaces, lemma_double_chars,
    lemma_doubled_spaces_lex_alike,
};
use crate::ir::PlanIrV;
use crate::lang::grammar::{
    Toks, PRes, is_tok, at_close, sp_expect, sp_ident, sp_sep, sp_version, sp_type_expr, sp_sig_args,
    sp_signature, sp_import_decl, sp_type_decl, sp_fn_decl, sp_params, sp_expr, sp_args, sp_let,
    sp_assign, sp_emit_or_return, sp_stmt_list, sp_block, sp_map, sp_if, sp_reduce, sp_ident_args,
    sp_path, sp_constraint, sp_constraint_list, sp_constraints_block, sp_want, sp_goal, sp_decl,
    sp_decls, sp_module, toks_of, normalize_newlines, parse_spec,
};

verus! {

/// The two token sequences agree token for token; their lines may differ.
pub open spec fn same_tokens(t1: Toks, t2: Toks) -> bool {
    &&& t1.len() == t2.len()
    &&& forall|i: int| #![trigger t1[i]] #![trigger t2[i]] 0 <= i < t1.len() ==> t1[i].0 == t2[i].0
}

/// The two results both fail, or both succeed with the same value.
pub open spec fn agree<T>(r1: Result<T, LangErrorV>, r2: Result<T, LangErrorV>) -> bool {
    &&& (r1 is Ok <==> r2 is Ok)
    &&& (r1 is Ok ==> r1 == r2)
}

proof fn lemma_basics(t1: Toks, t2: Toks)
    requires
        same_tokens(t1, t2),
    ensures
        forall|p: int, k| #[trigger] is_tok(t1, p, k) == is_tok(t2, p, k),
        forall|p: int, k| #[trigger] at_close(t1, p, k) == at_close(t2, p, k),
        forall|p: int, k, d| agree(#[trigger] sp_expect(t1, p, k, d), sp_expect(t2, p, k, d)),
        forall|p: int| agree(#[trigger] sp_ident(t1, p), sp_ident(t2, p)),
        forall|p: int, f: bool| agree(#[trigger] sp_sep(t1, p, f), sp_sep(t2, p, f)),
        forall|p: int| agree(#[trigger] sp_version(t1, p), sp_version(t2, p)),
{
    assert forall|p: int| agree(#[trigger] sp_version(t1, p), sp_version(t2, p)) by {
        if 0 <= p < t1.len() {
            assert(t1[p].0 == t2[p].0);
        }
        if 0 <= p + 2 < t1.len() {
            assert(t1[p + 2].0 == t2[p + 2].0);
        }
    }
}

proof fn lemma_type_expr(t1: Toks, t2: Toks, pos: int)
    requires
        same_tokens(t1, t2),
    ensures
        agree(sp_type_expr(t1, pos), sp_type_expr(t2, pos)),
    decreases t1.len() - pos,
{
    lemma_basics(t1, t2);
    if 0 <= pos && pos + 2 <= t1.len() {
        lemma_type_expr(t1, t2, pos + 2);
    }
}

proof fn lemma_type_expr_all(t1: Toks, t2: Toks)
    requires
        same_tokens(t1, t2),
    ensures
        forall|p: int| agree(#[trigger] sp_type_expr(t1, p), sp_type_expr(t2, p)),
{
    assert forall|p: int| agree(#[trigger] sp_type_expr(t1, p), sp_type_expr(t2, p)) by {
        lemma_type_expr(t1, t2, p);
    }
}

proof fn lemma_sig_args(t1: Toks, t2: Toks, pos: int, acc: Seq<Seq<char>>)
    requires
        same_tokens(t1, t2),
    ensures
        agree(sp_sig_args(t1, pos, acc), sp_sig_args(t2, pos, acc)),
    decreases t1.len() - pos,
{
    lemma_basics(t1, t2);
    lemma_type_expr_all(t1, t2);
    if !at_close(t1, pos, TokenV::RParen) {
        let f = acc.len() == 0;
        assert(agree(sp_sep(t1, pos, f), sp_sep(t2, pos, f)));
        match sp_sep(t1, pos, f) {
            Ok(p1) => {
                assert(agree(sp_type_expr(t1, p1), sp_type_expr(t2, p1)));
                match sp_type_expr(t1, p1) {
                    Ok((ty, p2)) => {
                        if pos < p2 <= t1.len() {
                            lemma_sig_args(t1, t2, p2, acc.push(ty));
                        }
                    },
                    Err(_) => {},
                }
            },
            Err(_) => {},
        }
    }
}

proof fn lemma_signature_all(t1: Toks, t2: Toks)
    requires
        same_tokens(t1, t2),
    ensures
        forall|p: int| agree(#[trigger] sp_signature(t1, p), sp_signature(t2, p)),
{
    lemma_basics(t1, t2);
    lemma_type_expr_all(t1, t2);
    assert forall|p: int, a: Seq<Seq<char>>| agree(#[trigger] sp_sig_args(t1, p, a), sp_sig_args(t2, p, a)) by {
        lemma_sig_args(t1, t2, p, a);
    }
}

proof fn lemma_import_decl_all(t1: Toks, t2: Toks)
    requires
        same_tokens(t1, t2),
    ensures
        forall|p: int| agree(#[trigger] sp_import_decl(t1, p), sp_import_decl(t2, p)),
{
    lemma_basics(t1, t2);
    assert forall|p: int| agree(#[trigger] sp_import_decl(t1, p), sp_import_decl(t2, p)) by {
        reveal(sp_import_decl);
        if 0 <= p + 3 < t1.len() {
            assert(t1[p + 3].0 == t2[p + 3].0);
        }
    }
}

proof fn lemma_type_decl_all(t1: Toks, t2: Toks)
    requires
        same_tokens(t1, t2),
    ensures
        forall|p: int| agree(#[trigger] sp_type_decl(t1, p), sp_type_decl(t2, p)),
{
    lemma_basics(t1, t2);
    lemma_type_expr_all(t1, t2);
    assert forall|p: int| agree(#[trigger] sp_type_decl(t1, p), sp_type_decl(t2, p)) by {
        reveal(sp_type_decl);
        match sp_type_expr(t1, p + 3) {
            Ok((_, p4)) => {
                if 0 <= p4 + 3 < t1.len() {
                    assert(t1[p4 + 3].0 == t2[p4 + 3].0);
                }
            },
            Err(_) => {},
        }
    }
}

proof fn lemma_fn_decl_all(t1: Toks, t2: Toks)
    requires
        same_tokens(t1, t2),
    ensures
        forall|p: int, k, d| agree(#[trigger] sp_fn_decl(t1, p, k, d), sp_fn_decl(t2, p, k, d)),
{
    lemma_basics(t1, t2);
    lemma_signature_all(t1, t2);
    assert forall|p: int, k, d| agree(#[trigger] sp_fn_decl(t1, p, k, d), sp_fn_decl(t2, p, k, d)) by {
        reveal(sp_fn_decl);
    }
}

proof fn lemma_params(t1: Toks, t2: Toks, pos: int, acc: Seq<ParamV>)
    requires
        same_tokens(t1, t2),
    ensures
        agree(sp_params(t1, pos, acc), sp_params(t2, pos, acc)),
    decreases t1.len() - pos,
{
    lemma_basics(t1, t2);
    lemma_type_expr_all(t1, t2);
    if !at_close(t1, pos, TokenV::RParen) {
        let f = acc.len() == 0;
        match sp_sep(t1, pos, f) {
            Ok(p1) => match sp_ident(t1, p1) {
                Ok((name, p2)) => match sp_expect(t1, p2, TokenV::Colon, "':'"@) {
                    Ok(p3) => match sp_type_expr(t1, p3) {
                        Ok((ty, p4)) => {
                            if pos < p4 <= t1.len() {
                                lemma_params(t1, t2, p4, acc.push(ParamV { name, ty_name: ty }));
                            }
                        },
                        Err(_) => {},
                    },
                    Err(_) => {},
                },
                Err(_) => {},
            },
            Err(_) => {},
        }
    }
}

proof fn lemma_expr_args(t1: Toks, t2: Toks, pos: int)
    requires
        same_tokens(t1, t2),
    ensures
        agree(sp_expr(t1, pos), sp_expr(t2, pos)),
        forall|acc: Seq<ExprV>| agree(#[trigger] sp_args(t1, pos, acc), sp_args(t2, pos, acc)),
    decreases t1.len() - pos,
{
    lemma_basics(t1, t2);
    if 0 <= pos < t1.len() {
        assert(t1[pos].0 == t2[pos].0);
        if pos + 2 <= t1.len() {
            lemma_expr_args(t1, t2, pos + 2);
            let e: Seq<ExprV> = Seq::empty();
            assert(agree(sp_args(t1, pos + 2, e), sp_args(t2, pos + 2, e)));
            assert(agree(sp_expr(t1, pos + 2), sp_expr(t2, pos + 2)));
        }
        lemma_expr_args(t1, t2, pos + 1);
        match t1[pos].0 {
            TokenV::Ident(name) => {
                if is_tok(t1, pos + 1, TokenV::LParen) {
                    match sp_args(t1, pos + 2, Seq::empty()) {
                        Ok((args, p1)) => {
                            assert(agree(sp_expect(t1, p1, TokenV::RParen, "')'"@), sp_expect(t2, p1, TokenV::RParen, "')'"@)));
                        },
                        Err(_) => {},
                    }
                }
            },
            TokenV::Pure => {
                if is_tok(t1, pos + 1, TokenV::LBrace) {
                    match sp_expr(t1, pos + 2) {
                        Ok((body, p1)) => {
                            assert(agree(
                                sp_expect(t1, p1, TokenV::RBrace, "'}' closing pure"@),
                                sp_expect(t2, p1, TokenV::RBrace, "'}' closing pure"@),
                            ));
                        },
                        Err(_) => {},
                    }
                }
            },
            _ => {},
        }
    }
    assert(agree(sp_expr(t1, pos), sp_expr(t2, pos)));
    assert forall|acc: Seq<ExprV>| agree(#[trigger] sp_args(t1, pos, acc), sp_args(t2, pos, acc)) by {
        if !(at_close(t1, pos, TokenV::RParen) || pos < 0) {
            let f = acc.len() == 0;
            assert(agree(sp_sep(t1, pos, f), sp_sep(t2, pos, f)));
            match sp_sep(t1, pos, f) {
                Ok(p1) => if pos <= p1 <= pos + 1 {
                    assert(agree(sp_expr(t1, p1), sp_expr(t2, p1)));
                    match sp_expr(t1, p1) {
                        Ok((e, p2)) => if pos < p2 <= t1.len() {
                            lemma_expr_args(t1, t2, p2);
                            assert(agree(sp_args(t1, p2, acc.push(e)), sp_args(t2, p2, acc.push(e))));
                        },
                        Err(_) => {},
                    }
                },
                Err(_) => {},
            }
        }
    }
}

proof fn lemma_expr_all(t1: Toks, t2: Toks)
    requires
        same_tokens(t1, t2),
    ensures
        forall|p: int| agree(#[trigger] sp_expr(t1, p), sp_expr(t2, p)),
{
    assert forall|p: int| agree(#[trigger] sp_expr(t1, p), sp_expr(t2, p)) by {
        lemma_expr_args(t1, t2, p);
    }
}

proof fn lemma_simple_stmts_all(t1: Toks, t2: Toks)
    requires
        same_tokens(t1, t2),
    ensures
        forall|p: int| agree(#[trigger] sp_let(t1, p), sp_let(t2, p)),
        forall|p: int| agree(#[trigger] sp_assign(t1, p), sp_assign(t2, p)),
        forall|p: int, b: bool| agree(#[trigger] sp_emit_or_return(t1, p, b), sp_emit_or_return(t2, p, b)),
{
    lemma_basics(t1, t2);
    lemma_expr_all(t1, t2);
}

/// The statement forms at `pos`: blocks, `map`, `if`, `reduce` and lists.
pub open spec fn stmts_agree_at(t1: Toks, t2: Toks, pos: int) -> bool {
    &&& agree(sp_map(t1, pos), sp_map(t2, pos))
    &&& agree(sp_if(t1, pos), sp_if(t2, pos))
    &&& agree(sp_reduce(t1, pos), sp_reduce(t2, pos))
    &&& forall|d1: Seq<char>, d2: Seq<char>| agree(#[trigger] sp_block(t1, pos, d1, d2), sp_block(t2, pos, d1, d2))
    &&& forall|acc: Seq<StmtV>| agree(#[trigger] sp_stmt_list(t1, pos, acc), sp_stmt_list(t2, pos, acc))
}

/// What the statement lemmas may use: the statement forms agree past `pos`.
pub open spec fn stmts_agree_after(t1: Toks, t2: Toks, pos: int) -> bool {
    forall|p: int| pos < p <= t1.len() ==> #[trigger] stmts_agree_at(t1, t2, p)
}

proof fn lemma_block_at(t1: Toks, t2: Toks, pos: int)
    requires
        same_tokens(t1, t2),
        stmts_agree_after(t1, t2, pos),
    ensures
        forall|d1: Seq<char>, d2: Seq<char>| agree(#[trigger] sp_block(t1, pos, d1, d2), sp_block(t2, pos, d1, d2)),
{
    lemma_basics(t1, t2);
    assert forall|d1: Seq<char>, d2: Seq<char>| agree(#[trigger] sp_block(t1, pos, d1, d2), sp_block(t2, pos, d1, d2)) by {
        match sp_expect(t1, pos, TokenV::LBrace, d1) {
            Ok(p1) => if pos < p1 <= t1.len() {
                assert(stmts_agree_at(t1, t2, p1));
                let e: Seq<StmtV> = Seq::empty();
                assert(agree(sp_stmt_list(t1, p1, e), sp_stmt_list(t2, p1, e)));
            },
            Err(_) => {},
        }
    }
}

proof fn lemma_map_at(t1: Toks, t2: Toks, pos: int)
    requires
        same_tokens(t1, t2),
        stmts_agree_after(t1, t2, pos),
    ensures
        agree(sp_map(t1, pos), sp_map(t2, pos)),
{
    lemma_basics(t1, t2);
    if 0 <= pos && pos + 4 <= t1.len() {
        assert(stmts_agree_at(t1, t2, pos + 4));
        let d1 = "'{' after map binder"@;
        let d2 = "'}' closing map"@;
        assert(agree(sp_block(t1, pos + 4, d1, d2), sp_block(t2, pos + 4, d1, d2)));
    }
}

proof fn lemma_reduce_at(t1: Toks, t2: Toks, pos: int)
    requires
        same_tokens(t1, t2),
        stmts_agree_after(t1, t2, pos),
    ensures
        agree(sp_reduce(t1, pos), sp_reduce(t2, pos)),
{
    lemma_basics(t1, t2);
    if 0 <= pos && pos + 6 <= t1.len() {
        assert(stmts_agree_at(t1, t2, pos + 6));
        let d1 = "'{' after reduce"@;
        let d2 = "'}' closing reduce"@;
        assert(agree(sp_block(t1, pos + 6, d1, d2), sp_block(t2, pos + 6, d1, d2)));
    }
}

proof fn lemma_if_at(t1: Toks, t2: Toks, pos: int)
    requires
        same_tokens(t1, t2),
        stmts_agree_after(t1, t2, pos),
    ensures
        agree(sp_if(t1, pos), sp_if(t2, pos)),
{
    lemma_basics(t1, t2);
    lemma_expr_all(t1, t2);
    match sp_expect(t1, pos, TokenV::If, "if"@) {
        Ok(p1) => match sp_expr(t1, p1) {
            Ok((condition, p2)) => if pos < p2 <= t1.len() {
                assert(stmts_agree_at(t1, t2, p2));
                let d1 = "'{' after if condition"@;
                let d2 = "'}' closing if"@;
                assert(agree(sp_block(t1, p2, d1, d2), sp_block(t2, p2, d1, d2)));
                match sp_block(t1, p2, d1, d2) {
                    Ok((true_body, p3)) => if is_tok(t1, p3, TokenV::Else) && pos < p3 {
                        assert(stmts_agree_at(t1, t2, p3 + 1));
                        let e1 = "'{' after else"@;
                        let e2 = "'}' closing else"@;
                        assert(agree(sp_block(t1, p3 + 1, e1, e2), sp_block(t2, p3 + 1, e1, e2)));
                    },
                    Err(_) => {},
                }
            },
            Err(_) => {},
        },
        Err(_) => {},
    }
}

proof fn lemma_stmt_list_at(t1: Toks, t2: Toks, pos: int)
    requires
        same_tokens(t1, t2),
        stmts_agree_after(t1, t2, pos),
        agree(sp_map(t1, pos), sp_map(t2, pos)),
        agree(sp_reduce(t1, pos), sp_reduce(t2, pos)),
        agree(sp_if(t1, pos), sp_if(t2, pos)),
    ensures
        forall|acc: Seq<StmtV>| agree(#[trigger] sp_stmt_list(t1, pos, acc), sp_stmt_list(t2, pos, acc)),
{
    lemma_simple_stmts_all(t1, t2);
    assert forall|acc: Seq<StmtV>| agree(#[trigger] sp_stmt_list(t1, pos, acc), sp_stmt_list(t2, pos, acc)) by {
        if 0 <= pos < t1.len() {
            assert(t1[pos].0 == t2[pos].0);
            assert(agree(sp_let(t1, pos), sp_let(t2, pos)));
            assert(agree(sp_assign(t1, pos), sp_assign(t2, pos)));
            assert(agree(sp_emit_or_return(t1, pos, false), sp_emit_or_return(t2, pos, false)));
            assert(agree(sp_emit_or_return(t1, pos, true), sp_emit_or_return(t2, pos, true)));
            let r: PRes<StmtV> = match t1[pos].0 {
                TokenV::Let => sp_let(t1, pos),
                TokenV::MapKeyword => sp_map(t1, pos),
                TokenV::If => sp_if(t1, pos),
                TokenV::Reduce => sp_reduce(t1, pos),
                TokenV::Emit => sp_emit_or_return(t1, pos, false),
                TokenV::Return => sp_emit_or_return(t1, pos, true),
                TokenV::Ident(_) => sp_assign(t1, pos),
                _ => Err(LangErrorV::NoGoals),
            };
            match r {
                Ok((st, p)) => if !(t1[pos].0 is Return) && pos < p <= t1.len() {
                    assert(stmts_agree_at(t1, t2, p));
                    assert(agree(sp_stmt_list(t1, p, acc.push(st)), sp_stmt_list(t2, p, acc.push(st))));
                },
                Err(_) => {},
            }
        }
    }
}

proof fn lemma_stmts(t1: Toks, t2: Toks, pos: int)
    requires
        same_tokens(t1, t2),
    ensures
        stmts_agree_at(t1, t2, pos),
    decreases t1.len() - pos,
{
    assert forall|p: int| pos < p <= t1.len() implies #[trigger] stmts_agree_at(t1, t2, p) by {
        lemma_stmts(t1, t2, p);
    }
    lemma_block_at(t1, t2, pos);
    lemma_map_at(t1, t2, pos);
    lemma_reduce_at(t1, t2, pos);
    lemma_if_at(t1, t2, pos);
    lemma_stmt_list_at(t1, t2, pos);
}

proof fn lemma_ident_args(t1: Toks, t2: Toks, pos: int, acc: Seq<Seq<char>>)
    requires
        same_tokens(t1, t2),
    ensures
        agree(sp_ident_args(t1, pos, acc), sp_ident_args(t2, pos, acc)),
    decreases t1.len() - pos,
{
    lemma_basics(t1, t2);
    if !at_close(t1, pos, TokenV::RParen) {
        let f = acc.len() == 0;
        match sp_sep(t1, pos, f) {
            Ok(p1) => match sp_ident(t1, p1) {
                Ok((a, p2)) => if pos < p2 <= t1.len() {
                    lemma_ident_args(t1, t2, p2, acc.push(a));
                },
                Err(_) => {},
            },
            Err(_) => {},
        }
    }
}

proof fn lemma_path(t1: Toks, t2: Toks, pos: int, acc: Seq<Seq<char>>)
    requires
        same_tokens(t1, t2),
    ensures
        agree(sp_path(t1, pos, acc), sp_path(t2, pos, acc)),
    decreases t1.len() - pos,
{
    lemma_basics(t1, t2);
    if is_tok(t1, pos, TokenV::Dot) {
        match sp_ident(t1, pos + 1) {
            Ok((seg, p1)) => if pos < p1 <= t1.len() {
                lemma_path(t1, t2, p1, acc.push(seg));
            },
            Err(_) => {},
        }
    }
}

proof fn lemma_constraint_all(t1: Toks, t2: Toks)
    requires
        same_tokens(t1, t2),
    ensures
        forall|p: int| agree(#[trigger] sp_constraint(t1, p), sp_constraint(t2, p)),
{
    lemma_basics(t1, t2);
    assert forall|p: int| agree(#[trigger] sp_constraint(t1, p), sp_constraint(t2, p)) by {
        match sp_ident(t1, p) {
            Ok((first, p1)) => {
                lemma_ident_args(t1, t2, p1 + 1, Seq::empty());
                lemma_path(t1, t2, p1, seq![first]);
                let left: PRes<ConstraintLeftV> = if is_tok(t1, p1, TokenV::LParen) {
                    match sp_ident_args(t1, p1 + 1, Seq::empty()) {
                        Err(e) => Err(e),
                        Ok((args, p2)) => match sp_expect(t1, p2, TokenV::RParen, "')'"@) {
                            Err(e) => Err(e),
                            Ok(p3) => Ok((ConstraintLeftV::FnCall { name: first, args }, p3)),
                        },
                    }
                } else {
                    match sp_path(t1, p1, seq![first]) {
                        Err(e) => Err(e),
                        Ok((segments, p2)) => Ok((ConstraintLeftV::Path { segments }, p2)),
                    }
                };
                match left {
                    Ok((l, p4)) => {
                        if 0 <= p4 < t1.len() {
                            assert(t1[p4].0 == t2[p4].0);
                        }
                        let p6: int = if 0 <= p4 < t1.len() && t1[p4].0 is Equals { p4 + 2 } else { p4 + 1 };
                        if 0 <= p6 < t1.len() {
                            assert(t1[p6].0 == t2[p6].0);
                        }
                    },
                    Err(_) => {},
                }
            },
            Err(_) => {},
        }
    }
}

proof fn lemma_constraint_list(t1: Toks, t2: Toks, pos: int, acc: Seq<ConstraintExprV>)
    requires
        same_tokens(t1, t2),
    ensures
        agree(sp_constraint_list(t1, pos, acc), sp_constraint_list(t2, pos, acc)),
    decreases t1.len() - pos,
{
    lemma_basics(t1, t2);
    lemma_constraint_all(t1, t2);
    if !at_close(t1, pos, TokenV::RBrace) {
        match sp_constraint(t1, pos) {
            Ok((c, p1)) => if pos < p1 <= t1.len() {
                lemma_constraint_list(t1, t2, p1, acc.push(c));
            },
            Err(_) => {},
        }
    }
}

proof fn lemma_goal_parts_all(t1: Toks, t2: Toks)
    requires
        same_tokens(t1, t2),
    ensures
        forall|p: int| agree(#[trigger] sp_constraints_block(t1, p), sp_constraints_block(t2, p)),
        forall|p: int| agree(#[trigger] sp_want(t1, p), sp_want(t2, p)),
{
    lemma_basics(t1, t2);
    assert forall|p: int| agree(#[trigger] sp_constraints_block(t1, p), sp_constraints_block(t2, p)) by {
        lemma_constraint_list(t1, t2, p + 2, Seq::empty());
    }
    assert forall|p: int| agree(#[trigger] sp_want(t1, p), sp_want(t2, p)) by {
        lemma_stmts(t1, t2, p + 1);
        let d1 = "'{' after want"@;
        let d2 = "'}' closing want"@;
        assert(agree(sp_block(t1, p + 1, d1, d2), sp_block(t2, p + 1, d1, d2)));
    }
}

proof fn lemma_goal_all(t1: Toks, t2: Toks)
    requires
        same_tokens(t1, t2),
    ensures
        forall|p: int| agree(#[trigger] sp_goal(t1, p), sp_goal(t2, p)),
{
    lemma_basics(t1, t2);
    lemma_type_expr_all(t1, t2);
    lemma_goal_parts_all(t1, t2);
    assert forall|p: int| agree(#[trigger] sp_goal(t1, p), sp_goal(t2, p)) by {
        reveal(sp_goal);
        lemma_params(t1, t2, p + 3, Seq::empty());
    }
}

proof fn lemma_decl_all(t1: Toks, t2: Toks)
    requires
        same_tokens(t1, t2),
    ensures
        forall|p: int, m: ModuleV| 0 <= p < t1.len() ==> agree(#[trigger] sp_decl(t1, p, m), sp_decl(t2, p, m)),
{
    lemma_basics(t1, t2);
    lemma_import_decl_all(t1, t2);
    lemma_type_decl_all(t1, t2);
    lemma_fn_decl_all(t1, t2);
    lemma_goal_all(t1, t2);
    assert forall|p: int, m: ModuleV| 0 <= p < t1.len() implies agree(#[trigger] sp_decl(t1, p, m), sp_decl(t2, p, m)) by {
        reveal(sp_decl);
        assert(t1[p].0 == t2[p].0);
    }
}

proof fn lemma_decls(t1: Toks, t2: Toks, pos: int, m: ModuleV)
    requires
        same_tokens(t1, t2),
    ensures
        agree(sp_decls(t1, pos, m), sp_decls(t2, pos, m)),
    decreases t1.len() - pos,
{
    lemma_decl_all(t1, t2);
    if 0 <= pos < t1.len() {
        match sp_decl(t1, pos, m) {
            Ok((m2, p)) => if pos < p <= t1.len() {
                lemma_decls(t1, t2, p, m2);
            },
            Err(_) => {},
        }
    }
}

/// Tokens that agree token for token, whatever their lines, parse to the
/// same module, or both fail.
pub proof fn lemma_module_ignores_lines(t1: Toks, t2: Toks)
    requires
        same_tokens(t1, t2),
    ensures
        agree(sp_module(t1), sp_module(t2)),
{
    lemma_basics(t1, t2);
    if t1.len() > 0 {
        assert(t1[0].0 == t2[0].0);
    }
    match sp_version(t1, 1) {
        Ok((version, p1)) => match sp_expect(t1, p1, TokenV::Semicolon, "';' after version"@) {
            Ok(p2) => {
                let m = ModuleV {
                    version,
                    imports: Seq::empty(),
                    types: Seq::empty(),
                    capabilities: Seq::empty(),
                    intrinsics: Seq::empty(),
                    goals: Seq::empty(),
                };
                lemma_decls(t1, t2, p2, m);
            },
            Err(_) => {},
        },
        Err(_) => {},
    }
}

/// The two sources lex, after their line endings are normalized, to the same
/// tokens; only the lines of the tokens may differ.
pub open spec fn lexes_alike(a: Seq<char>, b: Seq<char>) -> bool {
    match (lex(normalize_newlines(a)), lex(normalize_newlines(b))) {
        (Ok(ta), Ok(tb)) => kinds(ta) == kinds(tb),
        _ => false,
    }
}

/// Layout is not part of the AST: two sources that lex to the same tokens,
/// however they are spread over lines and spaced, have the same normalized
/// module (or both fail to parse), lower alike, and give the same AST hash.
pub proof fn lemma_ast_hash_ignores_layout(
    a: Seq<char>,
    b: Seq<char>,
    url_count: nat,
    cache: Option<Seq<(Seq<char>, PlanIrV)>>,
)
    requires
        lexes_alike(a, b),
    ensures
        agree(module_of(a), module_of(b)),
        lower_spec(a, url_count, cache) is Ok <==> lower_spec(b, url_count, cache) is Ok,
        lower_spec(a, url_count, cache) is Ok ==> lower_spec(a, url_count, cache)->Ok_0.ast_hash
            == lower_spec(b, url_count, cache)->Ok_0.ast_hash,
{
    lemma_normalize_newlines_idempotent(a);
    lemma_normalize_newlines_idempotent(b);
    let ta = lex(normalize_newlines(a))->Ok_0;
    let tb = lex(normalize_newlines(b))->Ok_0;
    let t1 = toks_of(ta);
    let t2 = toks_of(tb);
    assert(ta.len() == tb.len()) by {
        assert(kinds(ta).len() == kinds(tb).len());
    }
    assert forall|i: int| 0 <= i < t1.len() implies t1[i].0 == t2[i].0 by {
        assert(kinds(ta)[i] == kinds(tb)[i]);
    }
    lemma_module_ignores_lines(t1, t2);
    assert(parse_spec(normalize_newlines(a)) == sp_module(t1));
    assert(parse_spec(normalize_newlines(b)) == sp_module(t2));
    reveal(lower_goal_spec);
}

/// A space, a tab or a line feed added where the lexer is skipping layout
/// (see `lemma_added_layout_keeps_tokens`) keeps the module and the AST hash
/// of a source whose line endings are line feeds.
pub proof fn lemma_added_layout_keeps_ast_hash(
    s: Seq<char>,
    i: int,
    c: char,
    url_count: nat,
    cache: Option<Seq<(Seq<char>, PlanIrV)>>,
)
    requires
        0 <= i < s.len(),
        is_layout(s[i]),
        is_layout(c),
        lex_visits(s, 0, 1, i),
        forall|k: int| 0 <= k < s.len() ==> #[trigger] s[k] != '\r',
        lex(s) is Ok,
    ensures
        agree(module_of(s), module_of(s.insert(i, c))),
        lower_spec(s, url_count, cache) is Ok <==> lower_spec(s.insert(i, c), url_count, cache) is Ok,
        lower_spec(s, url_count, cache) is Ok ==> lower_spec(s, url_count, cache)->Ok_0.ast_hash
            == lower_spec(s.insert(i, c), url_count, cache)->Ok_0.ast_hash,
{
    let s2 = s.insert(i, c);
    s.insert_ensures(i, c);
    assert forall|k: int| 0 <= k < s2.len() implies #[trigger] s2[k] != '\r' by {
        if k > i {
            assert(s2[(k - 1) + 1] == s[k - 1]);
        }
    }
    lemma_no_cr_normalized(s);
    lemma_no_cr_normalized(s2);
    lemma_added_layout_keeps_tokens(s, i, c);
    lemma_ast_hash_ignores_layout(s, s2, url_count, cache);
}

/// Spaces and tabs are interchangeable (see `lemma_blanks_interchangeable`):
/// a source without string literals whose line endings are line feeds keeps
/// its module and its AST hash when spaces become tabs or tabs spaces.
pub proof fn lemma_blanks_keep_ast_hash(
    a: Seq<char>,
    b: Seq<char>,
    url_count: nat,
    cache: Option<Seq<(Seq<char>, PlanIrV)>>,
)
    requires
        blanks_swapped(a, b),
        forall|k: int| 0 <= k < a.len() ==> #[trigger] a[k] != '\r',
        lex(a) is Ok,
    ensures
        agree(module_of(a), module_of(b)),
        lower_spec(a, url_count, cache) is Ok <==> lower_spec(b, url_count, cache) is Ok,
        lower_spec(a, url_count, cache) is Ok ==> lower_spec(a, url_count, cache)->Ok_0.ast_hash
            == lower_spec(b, url_count, cache)->Ok_0.ast_hash,
{
    assert forall|k: int| 0 <= k < b.len() implies #[trigger] b[k] != '\r' by {
        assert(a[k] == b[k] || (is_blank(a[k]) && is_blank(b[k])));
    }
    lemma_no_cr_normalized(a);
    lemma_no_cr_normalized(b);
    lemma_blanks_interchangeable(a, b);
    lemma_ast_hash_ignores_layout(a, b, url_count, cache);
}

/// Writing every space twice in a source without string literals whose line
/// endings are line feeds keeps its module and its AST hash.
pub proof fn lemma_doubled_spaces_keep_ast_hash(a: Seq<char>, url_count: nat, cache: Option<Seq<(Seq<char>, PlanIrV)>>)
    requires
        quote_free(a),
        forall|k: int| 0 <= k < a.len() ==> #[trigger] a[k] != '\r',
        lex(a) is Ok,
    ensures
        agree(module_of(a), module_of(double_spaces(a))),
        lower_spec(a, url_count, cache) is Ok <==> lower_spec(double_spaces(a), url_count, cache) is Ok,
        lower_spec(a, url_count, cache) is Ok ==> lower_spec(a, url_count, cache)->Ok_0.ast_hash
            == lower_spec(double_spaces(a), url_count, cache)->Ok_0.ast_hash,
{
    let b = double_spaces(a);
    lemma_double_chars(a, '\r');
    lemma_no_cr_normalized(a);
    lemma_no_cr_normalized(b);
    lemma_doubled_spaces_lex_alike(a);
    lemma_ast_hash_ignores_layout(a, b, url_count, cache);
}

} // verus!
