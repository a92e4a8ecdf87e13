//! The Conclave grammar as a recursive-descent parse over the token sequence.
//! Each function takes the tokens (with their lines) and a position and gives
//! the parsed value with the position after it, or the first error.
use vstd::prelude::*;
use crate::lang::ast::{
    CmpOp, ConstraintExprV, ConstraintLeftV, ConstraintValueV, ExprV, GoalDeclV, ImportDeclV,
    ModuleV, ParamV, StmtV, TypeDeclV, CapDeclV, IntrinsicDeclV,
};
use crate::lang::error::LangErrorV;
use crate::lang::lexer::{TokenV, SpannedV, lex};
use crate::text::decimal;

verus! {

/// Tokens with their lines.
pub type Toks = Seq<(TokenV, nat)>;

/// A parse result: the value and the next position, or an error.
pub type PRes<T> = Result<(T, int), LangErrorV>;

/// The tokens of a lexed text, with their lines.
pub open spec fn toks_of(ts: Seq<SpannedV>) -> Toks {
    ts.map_values(|s: SpannedV| (s.token, s.line))
}

/// Which kind of token (tokens of one kind differ at most in their payload).
pub open spec fn kind_index(t: TokenV) -> nat {
    match t {
        TokenV::Version => 0,
        TokenV::Import => 1,
        TokenV::Type => 2,
        TokenV::Capability => 3,
        TokenV::Intrinsic => 4,
        TokenV::Goal => 5,
        TokenV::Want => 6,
        TokenV::MapKeyword => 7,
        TokenV::As => 8,
        TokenV::Let => 9,
        TokenV::Emit => 10,
        TokenV::Return => 11,
        TokenV::Constraints => 12,
        TokenV::Where => 13,
        TokenV::If => 14,
        TokenV::Else => 15,
        TokenV::Reduce => 16,
        TokenV::Into => 17,
        TokenV::Pure => 18,
        TokenV::LBrace => 19,
        TokenV::RBrace => 20,
        TokenV::LParen => 21,
        TokenV::RParen => 22,
        TokenV::LAngle => 23,
        TokenV::RAngle => 24,
        TokenV::Semicolon => 25,
        TokenV::Comma => 26,
        TokenV::Colon => 27,
        TokenV::Equals => 28,
        TokenV::Arrow => 29,
        TokenV::LtEq => 30,
        TokenV::Dot => 31,
        TokenV::Ident(_) => 32,
        TokenV::StringLit(_) => 33,
        TokenV::Number(_) => 34,
        TokenV::ReqPerSec => 35,
    }
}

/// How a token is shown in error messages.
pub open spec fn display(t: TokenV) -> Seq<char> {
    match t {
        TokenV::Version => "version"@,
        TokenV::Import => "import"@,
        TokenV::Type => "type"@,
        TokenV::Capability => "capability"@,
        TokenV::Intrinsic => "intrinsic"@,
        TokenV::Goal => "goal"@,
        TokenV::Want => "want"@,
        TokenV::MapKeyword => "map"@,
        TokenV::As => "as"@,
        TokenV::Let => "let"@,
        TokenV::Emit => "emit"@,
        TokenV::Return => "return"@,
        TokenV::Constraints => "constraints"@,
        TokenV::Where => "where"@,
        TokenV::If => "if"@,
        TokenV::Else => "else"@,
        TokenV::Reduce => "reduce"@,
        TokenV::Into => "into"@,
        TokenV::Pure => "pure"@,
        TokenV::LBrace => "{"@,
        TokenV::RBrace => "}"@,
        TokenV::LParen => "("@,
        TokenV::RParen => ")"@,
        TokenV::LAngle => "<"@,
        TokenV::RAngle => ">"@,
        TokenV::Semicolon => ";"@,
        TokenV::Comma => ","@,
        TokenV::Colon => ":"@,
        TokenV::Equals => "="@,
        TokenV::Arrow => "->"@,
        TokenV::LtEq => "<="@,
        TokenV::Dot => "."@,
        TokenV::Ident(s) => s,
        TokenV::StringLit(s) => seq!['"'] + s + seq!['"'],
        TokenV::Number(n) => decimal(n),
        TokenV::ReqPerSec => "req/s"@,
    }
}

/// The token at `pos` is of the kind of `k`.
pub open spec fn is_tok(t: Toks, pos: int, k: TokenV) -> bool {
    0 <= pos < t.len() && kind_index(t[pos].0) == kind_index(k)
}

/// At the end of the tokens, or at a token of the kind of `k`.
pub open spec fn at_close(t: Toks, pos: int, k: TokenV) -> bool {
    pos >= t.len() || is_tok(t, pos, k)
}

/// The line of the token at `pos`, 0 past the end.
pub open spec fn line_at(t: Toks, pos: int) -> nat {
    if 0 <= pos < t.len() { t[pos].1 } else { 0 }
}

/// The error for the token at `pos` when `desc` was expected.
pub open spec fn unexpected_at(t: Toks, pos: int, desc: Seq<char>) -> LangErrorV {
    if 0 <= pos < t.len() {
        LangErrorV::UnexpectedToken { expected: desc, got: display(t[pos].0), line: t[pos].1 }
    } else {
        LangErrorV::UnexpectedEof { expected: desc }
    }
}

/// Consume a token of the kind of `k`.
pub open spec fn sp_expect(t: Toks, pos: int, k: TokenV, desc: Seq<char>) -> Result<int, LangErrorV> {
    if is_tok(t, pos, k) { Ok(pos + 1) } else { Err(unexpected_at(t, pos, desc)) }
}

/// Consume an identifier.
pub open spec fn sp_ident(t: Toks, pos: int) -> PRes<Seq<char>> {
    if 0 <= pos < t.len() && t[pos].0 is Ident {
        Ok((t[pos].0->Ident_0, pos + 1))
    } else {
        Err(unexpected_at(t, pos, "identifier"@))
    }
}

/// `IDENT` or `IDENT < TYPE >`.
pub open spec fn sp_type_expr(t: Toks, pos: int) -> PRes<Seq<char>>
    decreases t.len() - pos,
{
    match sp_ident(t, pos) {
        Err(e) => Err(e),
        Ok((name, p1)) => if is_tok(t, p1, TokenV::LAngle) && pos < p1 {
            match sp_type_expr(t, p1 + 1) {
                Err(e) => Err(e),
                Ok((inner, p2)) => match sp_expect(t, p2, TokenV::RAngle, "'>'"@) {
                    Err(e) => Err(e),
                    Ok(p3) => Ok((name + seq!['<'] + inner + seq!['>'], p3)),
                },
            }
        } else {
            Ok((name, p1))
        },
    }
}

/// Strings joined by `, `.
pub open spec fn join_comma(s: Seq<Seq<char>>) -> Seq<char>
    decreases s.len(),
{
    if s.len() == 0 {
        Seq::empty()
    } else if s.len() == 1 {
        s[0]
    } else {
        join_comma(s.drop_last()) + seq![',', ' '] + s.last()
    }
}

/// Joining one item gives that item.
pub proof fn lemma_join_comma_one(x: Seq<char>)
    ensures
        join_comma(seq![x]) == x,
{
}

/// Joining two nonempty lists one after the other is joining each of them
/// with `, ` in between: the items keep their order.
pub proof fn lemma_join_comma_append(a: Seq<Seq<char>>, b: Seq<Seq<char>>)
    requires
        a.len() > 0,
        b.len() > 0,
    ensures
        join_comma(a + b) == join_comma(a) + seq![',', ' '] + join_comma(b),
    decreases b.len(),
{
    if b.len() == 1 {
        assert((a + b).drop_last() =~= a);
        assert((a + b).last() == b[0]);
    } else {
        let c = b.drop_last();
        lemma_join_comma_append(a, c);
        assert((a + b).drop_last() =~= a + c);
        assert((a + b).last() == b.last());
        assert(join_comma(a + b) =~= join_comma(a) + seq![',', ' '] + join_comma(b));
    }
}

/// A list of two or more items joins to its first item, `, `, and the rest
/// joined: the first item comes first.
pub proof fn lemma_join_comma_first(s: Seq<Seq<char>>)
    requires
        s.len() >= 2,
    ensures
        join_comma(s) == s[0] + seq![',', ' '] + join_comma(s.drop_first()),
{
    assert(s =~= seq![s[0]] + s.drop_first());
    lemma_join_comma_append(seq![s[0]], s.drop_first());
}

/// A comma before every item but the first.
pub open spec fn sp_sep(t: Toks, pos: int, first: bool) -> Result<int, LangErrorV> {
    if first { Ok(pos) } else { sp_expect(t, pos, TokenV::Comma, "','"@) }
}

/// Type arguments of a signature, up to `)`.
pub open spec fn sp_sig_args(t: Toks, pos: int, acc: Seq<Seq<char>>) -> PRes<Seq<Seq<char>>>
    decreases t.len() - pos,
{
    if at_close(t, pos, TokenV::RParen) {
        Ok((acc, pos))
    } else {
        match sp_sep(t, pos, acc.len() == 0) {
            Err(e) => Err(e),
            Ok(p1) => match sp_type_expr(t, p1) {
                Err(e) => Err(e),
                Ok((ty, p2)) => if pos < p2 <= t.len() { sp_sig_args(t, p2, acc.push(ty)) } else { Ok((acc, pos)) },
            },
        }
    }
}

/// The type arguments of a signature are collected in source order: what
/// was collected before stays in front, and the first type read comes
/// right after it.
pub proof fn lemma_sig_args_in_order(t: Toks, pos: int, acc: Seq<Seq<char>>)
    requires
        sp_sig_args(t, pos, acc) is Ok,
    ensures
        sp_sig_args(t, pos, acc)->Ok_0.0.len() >= acc.len(),
        sp_sig_args(t, pos, acc)->Ok_0.0.take(acc.len() as int) == acc,
        !at_close(t, pos, TokenV::RParen) && sp_sig_args(t, pos, acc)->Ok_0.0.len() > acc.len() ==> (
            sp_sep(t, pos, acc.len() == 0) matches Ok(p1)
                && sp_type_expr(t, p1) matches Ok((ty, _))
                && sp_sig_args(t, pos, acc)->Ok_0.0[acc.len() as int] == ty),
    decreases t.len() - pos,
{
    if !at_close(t, pos, TokenV::RParen) {
        match sp_sep(t, pos, acc.len() == 0) {
            Err(e) => {},
            Ok(p1) => match sp_type_expr(t, p1) {
                Err(e) => {},
                Ok((ty, p2)) => {
                    if pos < p2 <= t.len() {
                        lemma_sig_args_in_order(t, p2, acc.push(ty));
                        let r = sp_sig_args(t, p2, acc.push(ty))->Ok_0.0;
                        assert(r.take(acc.len() + 1int).take(acc.len() as int) =~= r.take(acc.len() as int));
                        assert(acc.push(ty).take(acc.len() as int) =~= acc);
                        assert(r[acc.len() as int] == r.take(acc.len() + 1int)[acc.len() as int]);
                    }
                },
            },
        }
    }
}

/// `NAME ( TYPES ) -> TYPE`, as the text `NAME(T1, T2)->R`.
pub open spec fn sp_signature(t: Toks, pos: int) -> PRes<Seq<char>> {
    match sp_ident(t, pos) {
        Err(e) => Err(e),
        Ok((name, p1)) => match sp_expect(t, p1, TokenV::LParen, "'('"@) {
            Err(e) => Err(e),
            Ok(p2) => match sp_sig_args(t, p2, Seq::empty()) {
                Err(e) => Err(e),
                Ok((args, p3)) => match sp_expect(t, p3, TokenV::RParen, "')'"@) {
                    Err(e) => Err(e),
                    Ok(p4) => match sp_expect(t, p4, TokenV::Arrow, "'->'"@) {
                        Err(e) => Err(e),
                        Ok(p5) => match sp_type_expr(t, p5) {
                            Err(e) => Err(e),
                            Ok((ret, p6)) => Ok((
                                name + seq!['('] + join_comma(args) + seq![')', '-', '>'] + ret,
                                p6,
                            )),
                        },
                    },
                },
            },
        },
    }
}

/// `version N;` or `version N.M;` gives `N` or `N.M`.
pub open spec fn sp_version(t: Toks, pos: int) -> PRes<Seq<char>> {
    if 0 <= pos < t.len() && t[pos].0 is Number {
        let major = t[pos].0->Number_0;
        if is_tok(t, pos + 1, TokenV::Dot) {
            if pos + 2 < t.len() && t[pos + 2].0 is Number {
                Ok((decimal(major) + seq!['.'] + decimal(t[pos + 2].0->Number_0), pos + 3))
            } else {
                Err(unexpected_at(t, pos + 2, "minor version number"@))
            }
        } else {
            Ok((decimal(major), pos + 1))
        }
    } else {
        Err(unexpected_at(t, pos, "version number"@))
    }
}

/// `import NAME : "HASH" ;`
#[verifier::opaque]
pub open spec fn sp_import_decl(t: Toks, pos: int) -> PRes<ImportDeclV> {
    match sp_expect(t, pos, TokenV::Import, "import"@) {
        Err(e) => Err(e),
        Ok(p1) => match sp_ident(t, p1) {
            Err(e) => Err(e),
            Ok((name, p2)) => match sp_expect(t, p2, TokenV::Colon, "':'"@) {
                Err(e) => Err(e),
                Ok(p3) => if 0 <= p3 < t.len() && t[p3].0 is StringLit {
                    match sp_expect(t, p3 + 1, TokenV::Semicolon, "';'"@) {
                        Err(e) => Err(e),
                        Ok(p5) => Ok((ImportDeclV { name, hash: t[p3].0->StringLit_0 }, p5)),
                    }
                } else {
                    Err(unexpected_at(t, p3, "import hash string"@))
                },
            },
        },
    }
}

/// `type NAME = TYPE (where VALIDATOR("PATTERN"))? ;`
#[verifier::opaque]
pub open spec fn sp_type_decl(t: Toks, pos: int) -> PRes<TypeDeclV> {
    match sp_expect(t, pos, TokenV::Type, "type"@) {
        Err(e) => Err(e),
        Ok(p1) => match sp_ident(t, p1) {
            Err(e) => Err(e),
            Ok((name, p2)) => match sp_expect(t, p2, TokenV::Equals, "'='"@) {
                Err(e) => Err(e),
                Ok(p3) => match sp_type_expr(t, p3) {
                    Err(e) => Err(e),
                    Ok((base, p4)) => {
                        let c: PRes<Option<(Seq<char>, Seq<char>)>> = if is_tok(t, p4, TokenV::Where) {
                            match sp_ident(t, p4 + 1) {
                                Err(e) => Err(e),
                                Ok((validator, p5)) => match sp_expect(t, p5, TokenV::LParen, "'('"@) {
                                    Err(e) => Err(e),
                                    Ok(p6) => if 0 <= p6 < t.len() && t[p6].0 is StringLit {
                                        match sp_expect(t, p6 + 1, TokenV::RParen, "')'"@) {
                                            Err(e) => Err(e),
                                            Ok(p8) => Ok((Some((validator, t[p6].0->StringLit_0)), p8)),
                                        }
                                    } else {
                                        Err(unexpected_at(t, p6, "string pattern"@))
                                    },
                                },
                            }
                        } else {
                            Ok((None, p4))
                        };
                        match c {
                            Err(e) => Err(e),
                            Ok((constraint, p9)) => match sp_expect(t, p9, TokenV::Semicolon, "';'"@) {
                                Err(e) => Err(e),
                                Ok(p10) => Ok((TypeDeclV { name, base, constraint }, p10)),
                            },
                        }
                    },
                },
            },
        },
    }
}

/// `KEYWORD ALIAS : SIGNATURE ;` for capabilities and intrinsics.
#[verifier::opaque]
pub open spec fn sp_fn_decl(t: Toks, pos: int, kw: TokenV, desc: Seq<char>) -> PRes<(Seq<char>, Seq<char>)> {
    match sp_expect(t, pos, kw, desc) {
        Err(e) => Err(e),
        Ok(p1) => match sp_ident(t, p1) {
            Err(e) => Err(e),
            Ok((alias, p2)) => match sp_expect(t, p2, TokenV::Colon, "':'"@) {
                Err(e) => Err(e),
                Ok(p3) => match sp_signature(t, p3) {
                    Err(e) => Err(e),
                    Ok((sig, p4)) => match sp_expect(t, p4, TokenV::Semicolon, "';'"@) {
                        Err(e) => Err(e),
                        Ok(p5) => Ok(((alias, sig), p5)),
                    },
                },
            },
        },
    }
}

/// Goal parameters `NAME : TYPE` separated by commas, up to `)`.
pub open spec fn sp_params(t: Toks, pos: int, acc: Seq<ParamV>) -> PRes<Seq<ParamV>>
    decreases t.len() - pos,
{
    if at_close(t, pos, TokenV::RParen) {
        Ok((acc, pos))
    } else {
        match sp_sep(t, pos, acc.len() == 0) {
            Err(e) => Err(e),
            Ok(p1) => match sp_ident(t, p1) {
                Err(e) => Err(e),
                Ok((name, p2)) => match sp_expect(t, p2, TokenV::Colon, "':'"@) {
                    Err(e) => Err(e),
                    Ok(p3) => match sp_type_expr(t, p3) {
                        Err(e) => Err(e),
                        Ok((ty, p4)) => if pos < p4 <= t.len() {
                            sp_params(t, p4, acc.push(ParamV { name, ty_name: ty }))
                        } else {
                            Ok((acc, pos))
                        },
                    },
                },
            },
        }
    }
}

// ---------------------------------------------------------------------------
// Expressions
// ---------------------------------------------------------------------------

/// An identifier, a string literal, a call `NAME(ARGS)` or `pure { EXPR }`.
pub open spec fn sp_expr(t: Toks, pos: int) -> PRes<ExprV>
    decreases t.len() - pos, 0nat,
{
    if 0 <= pos < t.len() {
        match t[pos].0 {
            TokenV::Ident(name) => if is_tok(t, pos + 1, TokenV::LParen) {
                match sp_args(t, pos + 2, Seq::empty()) {
                    Err(e) => Err(e),
                    Ok((args, p1)) => match sp_expect(t, p1, TokenV::RParen, "')'"@) {
                        Err(e) => Err(e),
                        Ok(p2) => Ok((ExprV::Call { name, args }, p2)),
                    },
                }
            } else {
                Ok((ExprV::Ident { name }, pos + 1))
            },
            TokenV::StringLit(value) => Ok((ExprV::StringLit { value }, pos + 1)),
            TokenV::Pure => if is_tok(t, pos + 1, TokenV::LBrace) {
                match sp_expr(t, pos + 2) {
                    Err(e) => Err(e),
                    Ok((body, p1)) => match sp_expect(t, p1, TokenV::RBrace, "'}' closing pure"@) {
                        Err(e) => Err(e),
                        Ok(p2) => Ok((ExprV::Pure { body: Box::new(body) }, p2)),
                    },
                }
            } else {
                Err(unexpected_at(t, pos + 1, "'{' after pure"@))
            },
            _ => Err(unexpected_at(t, pos, "expression"@)),
        }
    } else {
        Err(unexpected_at(t, pos, "expression"@))
    }
}

/// Call arguments separated by commas, up to `)`.
pub open spec fn sp_args(t: Toks, pos: int, acc: Seq<ExprV>) -> PRes<Seq<ExprV>>
    decreases t.len() - pos, 1nat,
{
    if at_close(t, pos, TokenV::RParen) || pos < 0 {
        Ok((acc, pos))
    } else {
        match sp_sep(t, pos, acc.len() == 0) {
            Err(e) => Err(e),
            Ok(p1) => if pos <= p1 <= pos + 1 {
                match sp_expr(t, p1) {
                    Err(e) => Err(e),
                    Ok((e, p2)) => if pos < p2 <= t.len() { sp_args(t, p2, acc.push(e)) } else { Ok((acc, pos)) },
                }
            } else {
                Ok((acc, pos))
            },
        }
    }
}

// ---------------------------------------------------------------------------
// Statements
// ---------------------------------------------------------------------------

/// Followed by `;`.
pub open spec fn sp_then_semi<T>(t: Toks, r: PRes<T>) -> PRes<T> {
    match r {
        Err(e) => Err(e),
        Ok((v, p)) => match sp_expect(t, p, TokenV::Semicolon, "';'"@) {
            Err(e) => Err(e),
            Ok(p2) => Ok((v, p2)),
        },
    }
}

/// `let NAME = CALL ;` where the value is a call or a `pure` block.
pub open spec fn sp_let(t: Toks, pos: int) -> PRes<StmtV> {
    match sp_expect(t, pos, TokenV::Let, "let"@) {
        Err(e) => Err(e),
        Ok(p1) => match sp_ident(t, p1) {
            Err(e) => Err(e),
            Ok((name, p2)) => match sp_expect(t, p2, TokenV::Equals, "'='"@) {
                Err(e) => Err(e),
                Ok(p3) => match sp_expr(t, p3) {
                    Err(e) => Err(e),
                    Ok((expr, p4)) => if expr is Call || expr is Pure {
                        sp_then_semi(t, Ok((StmtV::Let { name, expr }, p4)))
                    } else {
                        Err(LangErrorV::UnexpectedToken {
                            expected: "function call"@,
                            got: "non-call expression"@,
                            line: line_at(t, p4),
                        })
                    },
                },
            },
        },
    }
}

/// `NAME = EXPR ;`
pub open spec fn sp_assign(t: Toks, pos: int) -> PRes<StmtV> {
    match sp_ident(t, pos) {
        Err(e) => Err(e),
        Ok((name, p1)) => match sp_expect(t, p1, TokenV::Equals, "'='"@) {
            Err(e) => Err(e),
            Ok(p2) => match sp_expr(t, p2) {
                Err(e) => Err(e),
                Ok((expr, p3)) => sp_then_semi(t, Ok((StmtV::Assign { name, expr }, p3))),
            },
        },
    }
}

/// `emit EXPR ;` (`is_return` false) or `return EXPR ;` (`is_return` true).
pub open spec fn sp_emit_or_return(t: Toks, pos: int, is_return: bool) -> PRes<StmtV> {
    let r = if is_return {
        sp_expect(t, pos, TokenV::Return, "return"@)
    } else {
        sp_expect(t, pos, TokenV::Emit, "emit"@)
    };
    match r {
        Err(e) => Err(e),
        Ok(p1) => match sp_expr(t, p1) {
            Err(e) => Err(e),
            Ok((expr, p2)) => sp_then_semi(
                t,
                Ok((if is_return { StmtV::Return { expr } } else { StmtV::Emit { expr } }, p2)),
            ),
        },
    }
}

/// Statements up to `}` (a `return` ends the list).
pub open spec fn sp_stmt_list(t: Toks, pos: int, acc: Seq<StmtV>) -> PRes<Seq<StmtV>>
    decreases t.len() - pos, 2nat,
{
    if pos < 0 || pos >= t.len() {
        Ok((acc, pos))
    } else {
        let r: PRes<StmtV> = match t[pos].0 {
            TokenV::RBrace => Ok((StmtV::Emit { expr: ExprV::Ident { name: Seq::empty() } }, pos)),
            TokenV::Let => sp_let(t, pos),
            TokenV::MapKeyword => sp_map(t, pos),
            TokenV::If => sp_if(t, pos),
            TokenV::Reduce => sp_reduce(t, pos),
            TokenV::Emit => sp_emit_or_return(t, pos, false),
            TokenV::Return => sp_emit_or_return(t, pos, true),
            TokenV::Ident(_) => sp_assign(t, pos),
            _ => Err(unexpected_at(t, pos, "let, map, emit, or return"@)),
        };
        if t[pos].0 is RBrace {
            Ok((acc, pos))
        } else {
            match r {
                Err(e) => Err(e),
                Ok((s, p)) => if t[pos].0 is Return {
                    Ok((acc.push(s), p))
                } else if pos < p <= t.len() {
                    sp_stmt_list(t, p, acc.push(s))
                } else {
                    Ok((acc, pos))
                },
            }
        }
    }
}

/// `{ STATEMENTS }` after the position of `{`.
pub open spec fn sp_block(t: Toks, pos: int, open_desc: Seq<char>, close_desc: Seq<char>) -> PRes<Seq<StmtV>>
    decreases t.len() - pos, 1nat,
{
    match sp_expect(t, pos, TokenV::LBrace, open_desc) {
        Err(e) => Err(e),
        Ok(p1) => if pos < p1 <= t.len() {
            match sp_stmt_list(t, p1, Seq::empty()) {
                Err(e) => Err(e),
                Ok((body, p2)) => match sp_expect(t, p2, TokenV::RBrace, close_desc) {
                    Err(e) => Err(e),
                    Ok(p3) => Ok((body, p3)),
                },
            }
        } else {
            Ok((Seq::empty(), pos))
        },
    }
}

/// `map LIST as BINDER { BODY }`
pub open spec fn sp_map(t: Toks, pos: int) -> PRes<StmtV>
    decreases t.len() - pos, 1nat,
{
    match sp_expect(t, pos, TokenV::MapKeyword, "map"@) {
        Err(e) => Err(e),
        Ok(p1) => match sp_ident(t, p1) {
            Err(e) => Err(e),
            Ok((list, p2)) => match sp_expect(t, p2, TokenV::As, "as"@) {
                Err(e) => Err(e),
                Ok(p3) => match sp_ident(t, p3) {
                    Err(e) => Err(e),
                    Ok((binder, p4)) => if pos < p4 <= t.len() {
                        match sp_block(t, p4, "'{' after map binder"@, "'}' closing map"@) {
                            Err(e) => Err(e),
                            Ok((body, p5)) => Ok((StmtV::MapOver { list, binder, body }, p5)),
                        }
                    } else {
                        Ok((StmtV::MapOver { list, binder, body: Seq::empty() }, pos))
                    },
                },
            },
        },
    }
}

/// `if COND { BODY } (else { BODY })?`
pub open spec fn sp_if(t: Toks, pos: int) -> PRes<StmtV>
    decreases t.len() - pos, 1nat,
{
    match sp_expect(t, pos, TokenV::If, "if"@) {
        Err(e) => Err(e),
        Ok(p1) => match sp_expr(t, p1) {
            Err(e) => Err(e),
            Ok((condition, p2)) => if pos < p2 <= t.len() {
                match sp_block(t, p2, "'{' after if condition"@, "'}' closing if"@) {
                    Err(e) => Err(e),
                    Ok((true_body, p3)) => if is_tok(t, p3, TokenV::Else) && pos < p3 {
                        match sp_block(t, p3 + 1, "'{' after else"@, "'}' closing else"@) {
                            Err(e) => Err(e),
                            Ok((false_body, p4)) => Ok((StmtV::If { condition, true_body, false_body }, p4)),
                        }
                    } else {
                        Ok((StmtV::If { condition, true_body, false_body: Seq::empty() }, p3))
                    },
                }
            } else {
                Ok((StmtV::If { condition, true_body: Seq::empty(), false_body: Seq::empty() }, pos))
            },
        },
    }
}

/// `reduce LIST as BINDER into ACCUM { BODY }`
pub open spec fn sp_reduce(t: Toks, pos: int) -> PRes<StmtV>
    decreases t.len() - pos, 1nat,
{
    match sp_expect(t, pos, TokenV::Reduce, "reduce"@) {
        Err(e) => Err(e),
        Ok(p1) => match sp_ident(t, p1) {
            Err(e) => Err(e),
            Ok((list, p2)) => match sp_expect(t, p2, TokenV::As, "as"@) {
                Err(e) => Err(e),
                Ok(p3) => match sp_ident(t, p3) {
                    Err(e) => Err(e),
                    Ok((binder, p4)) => match sp_expect(t, p4, TokenV::Into, "into"@) {
                        Err(e) => Err(e),
                        Ok(p5) => match sp_ident(t, p5) {
                            Err(e) => Err(e),
                            Ok((accum, p6)) => if pos < p6 <= t.len() {
                                match sp_block(t, p6, "'{' after reduce"@, "'}' closing reduce"@) {
                                    Err(e) => Err(e),
                                    Ok((body, p7)) => Ok((StmtV::Reduce { list, binder, accum, body }, p7)),
                                }
                            } else {
                                Ok((StmtV::Reduce { list, binder, accum, body: Seq::empty() }, pos))
                            },
                        },
                    },
                },
            },
        },
    }
}

// ---------------------------------------------------------------------------
// Constraints
// ---------------------------------------------------------------------------

/// Identifier arguments separated by commas, up to `)`.
pub open spec fn sp_ident_args(t: Toks, pos: int, acc: Seq<Seq<char>>) -> PRes<Seq<Seq<char>>>
    decreases t.len() - pos,
{
    if at_close(t, pos, TokenV::RParen) {
        Ok((acc, pos))
    } else {
        match sp_sep(t, pos, acc.len() == 0) {
            Err(e) => Err(e),
            Ok(p1) => match sp_ident(t, p1) {
                Err(e) => Err(e),
                Ok((a, p2)) => if pos < p2 <= t.len() { sp_ident_args(t, p2, acc.push(a)) } else { Ok((acc, pos)) },
            },
        }
    }
}

/// More `.IDENT` path segments.
pub open spec fn sp_path(t: Toks, pos: int, acc: Seq<Seq<char>>) -> PRes<Seq<Seq<char>>>
    decreases t.len() - pos,
{
    if is_tok(t, pos, TokenV::Dot) {
        match sp_ident(t, pos + 1) {
            Err(e) => Err(e),
            Ok((seg, p1)) => if pos < p1 <= t.len() { sp_path(t, p1, acc.push(seg)) } else { Ok((acc, pos)) },
        }
    } else {
        Ok((acc, pos))
    }
}

/// `LEFT (== | <=) VALUE ;`
pub open spec fn sp_constraint(t: Toks, pos: int) -> PRes<ConstraintExprV> {
    match sp_ident(t, pos) {
        Err(e) => Err(e),
        Ok((first, p1)) => {
            let left: PRes<ConstraintLeftV> = if is_tok(t, p1, TokenV::LParen) {
                match sp_ident_args(t, p1 + 1, Seq::empty()) {
                    Err(e) => Err(e),
                    Ok((args, p2)) => match sp_expect(t, p2, TokenV::RParen, "')'"@) {
                        Err(e) => Err(e),
                        Ok(p3) => Ok((ConstraintLeftV::FnCall { name: first, args }, p3)),
                    },
                }
            } else {
                match sp_path(t, p1, seq![first]) {
                    Err(e) => Err(e),
                    Ok((segments, p2)) => Ok((ConstraintLeftV::Path { segments }, p2)),
                }
            };
            match left {
                Err(e) => Err(e),
                Ok((left, p4)) => {
                    let op: PRes<CmpOp> = if 0 <= p4 < t.len() && t[p4].0 is Equals {
                        match sp_expect(t, p4 + 1, TokenV::Equals, "'=' (second = of ==)"@) {
                            Err(e) => Err(e),
                            Ok(p5) => Ok((CmpOp::Eq, p5)),
                        }
                    } else if 0 <= p4 < t.len() && t[p4].0 is LtEq {
                        Ok((CmpOp::LtEq, p4 + 1))
                    } else {
                        Err(unexpected_at(t, p4, "'==' or '<='"@))
                    };
                    match op {
                        Err(e) => Err(e),
                        Ok((op, p6)) => {
                            let right: PRes<ConstraintValueV> = if 0 <= p6 < t.len() && t[p6].0 is StringLit {
                                Ok((ConstraintValueV::StringLit { value: t[p6].0->StringLit_0 }, p6 + 1))
                            } else if 0 <= p6 < t.len() && t[p6].0 is Number {
                                if is_tok(t, p6 + 1, TokenV::ReqPerSec) {
                                    Ok((ConstraintValueV::Rate { value: t[p6].0->Number_0, unit: "req/s"@ }, p6 + 2))
                                } else {
                                    Ok((ConstraintValueV::Number { value: t[p6].0->Number_0 }, p6 + 1))
                                }
                            } else {
                                Err(unexpected_at(t, p6, "constraint value"@))
                            };
                            match right {
                                Err(e) => Err(e),
                                Ok((right, p7)) => sp_then_semi(t, Ok((ConstraintExprV { op, left, right }, p7))),
                            }
                        },
                    }
                },
            }
        },
    }
}

/// Constraints up to `}`.
pub open spec fn sp_constraint_list(t: Toks, pos: int, acc: Seq<ConstraintExprV>) -> PRes<Seq<ConstraintExprV>>
    decreases t.len() - pos,
{
    if at_close(t, pos, TokenV::RBrace) {
        Ok((acc, pos))
    } else {
        match sp_constraint(t, pos) {
            Err(e) => Err(e),
            Ok((c, p1)) => if pos < p1 <= t.len() { sp_constraint_list(t, p1, acc.push(c)) } else { Ok((acc, pos)) },
        }
    }
}

/// `constraints { CONSTRAINTS }`
pub open spec fn sp_constraints_block(t: Toks, pos: int) -> PRes<Seq<ConstraintExprV>> {
    match sp_expect(t, pos, TokenV::Constraints, "constraints"@) {
        Err(e) => Err(e),
        Ok(p1) => match sp_expect(t, p1, TokenV::LBrace, "'{' after constraints"@) {
            Err(e) => Err(e),
            Ok(p2) => match sp_constraint_list(t, p2, Seq::empty()) {
                Err(e) => Err(e),
                Ok((cs, p3)) => match sp_expect(t, p3, TokenV::RBrace, "'}' closing constraints"@) {
                    Err(e) => Err(e),
                    Ok(p4) => Ok((cs, p4)),
                },
            },
        },
    }
}

// ---------------------------------------------------------------------------
// Goals and the module
// ---------------------------------------------------------------------------

/// `want { STATEMENTS }`
pub open spec fn sp_want(t: Toks, pos: int) -> PRes<Seq<StmtV>> {
    match sp_expect(t, pos, TokenV::Want, "want"@) {
        Err(e) => Err(e),
        Ok(p1) => sp_block(t, p1, "'{' after want"@, "'}' closing want"@),
    }
}

/// `goal NAME ( PARAMS ) -> TYPE { want { ... } (constraints { ... })? }`
#[verifier::opaque]
pub open spec fn sp_goal(t: Toks, pos: int) -> PRes<GoalDeclV> {
    match sp_expect(t, pos, TokenV::Goal, "goal"@) {
        Err(e) => Err(e),
        Ok(p1) => match sp_ident(t, p1) {
            Err(e) => Err(e),
            Ok((name, p2)) => match sp_expect(t, p2, TokenV::LParen, "'('"@) {
                Err(e) => Err(e),
                Ok(p3) => match sp_params(t, p3, Seq::empty()) {
                    Err(e) => Err(e),
                    Ok((params, p4)) => match sp_expect(t, p4, TokenV::RParen, "')'"@) {
                        Err(e) => Err(e),
                        Ok(p5) => match sp_expect(t, p5, TokenV::Arrow, "'->'"@) {
                            Err(e) => Err(e),
                            Ok(p6) => match sp_type_expr(t, p6) {
                                Err(e) => Err(e),
                                Ok((ret_ty, p7)) => match sp_expect(t, p7, TokenV::LBrace, "'{'"@) {
                                    Err(e) => Err(e),
                                    Ok(p8) => match sp_want(t, p8) {
                                        Err(e) => Err(e),
                                        Ok((stmts, p9)) => {
                                            let cs: PRes<Seq<ConstraintExprV>> = if is_tok(t, p9, TokenV::Constraints) {
                                                sp_constraints_block(t, p9)
                                            } else {
                                                Ok((Seq::empty(), p9))
                                            };
                                            match cs {
                                                Err(e) => Err(e),
                                                Ok((constraints, p10)) => match sp_expect(
                                                    t,
                                                    p10,
                                                    TokenV::RBrace,
                                                    "'}' closing goal"@,
                                                ) {
                                                    Err(e) => Err(e),
                                                    Ok(p11) => Ok((
                                                        GoalDeclV { name, params, returns: ret_ty, stmts, constraints },
                                                        p11,
                                                    )),
                                                },
                                            }
                                        },
                                    },
                                },
                            },
                        },
                    },
                },
            },
        },
    }
}

/// One declaration at `pos` (which is in range), added to `m`.
#[verifier::opaque]
pub open spec fn sp_decl(t: Toks, pos: int, m: ModuleV) -> PRes<ModuleV> {
    match t[pos].0 {
        TokenV::Import => match sp_import_decl(t, pos) {
            Err(e) => Err(e),
            Ok((d, p)) => Ok((ModuleV { imports: m.imports.push(d), ..m }, p)),
        },
        TokenV::Type => match sp_type_decl(t, pos) {
            Err(e) => Err(e),
            Ok((d, p)) => Ok((ModuleV { types: m.types.push(d), ..m }, p)),
        },
        TokenV::Capability => match sp_fn_decl(t, pos, TokenV::Capability, "capability"@) {
            Err(e) => Err(e),
            Ok((d, p)) => Ok((ModuleV { capabilities: m.capabilities.push(CapDeclV { alias: d.0, signature: d.1 }), ..m }, p)),
        },
        TokenV::Intrinsic => match sp_fn_decl(t, pos, TokenV::Intrinsic, "intrinsic"@) {
            Err(e) => Err(e),
            Ok((d, p)) => Ok((ModuleV { intrinsics: m.intrinsics.push(IntrinsicDeclV { alias: d.0, signature: d.1 }), ..m }, p)),
        },
        TokenV::Goal => match sp_goal(t, pos) {
            Err(e) => Err(e),
            Ok((d, p)) => Ok((ModuleV { goals: m.goals.push(d), ..m }, p)),
        },
        _ => Err(unexpected_at(t, pos, "import, type, capability, intrinsic, or goal declaration"@)),
    }
}

/// Declarations up to the end of the tokens, added to `m`.
pub open spec fn sp_decls(t: Toks, pos: int, m: ModuleV) -> Result<ModuleV, LangErrorV>
    decreases t.len() - pos,
{
    if pos < 0 || pos >= t.len() {
        Ok(m)
    } else {
        match sp_decl(t, pos, m) {
            Err(e) => Err(e),
            Ok((m2, p)) => if pos < p <= t.len() { sp_decls(t, p, m2) } else { Ok(m2) },
        }
    }
}

/// `version N(.M)? ;` followed by declarations.
pub open spec fn sp_module(t: Toks) -> Result<ModuleV, LangErrorV> {
    if t.len() > 0 && t[0].0 is Version {
        match sp_version(t, 1) {
            Err(e) => Err(e),
            Ok((version, p1)) => match sp_expect(t, p1, TokenV::Semicolon, "';' after version"@) {
                Err(e) => Err(e),
                Ok(p2) => sp_decls(
                    t,
                    p2,
                    ModuleV {
                        version,
                        imports: Seq::empty(),
                        types: Seq::empty(),
                        capabilities: Seq::empty(),
                        intrinsics: Seq::empty(),
                        goals: Seq::empty(),
                    },
                ),
            },
        }
    } else {
        Err(unexpected_at(t, 0, "version"@))
    }
}

/// Line endings normalized: `\r\n` and a lone `\r` become `\n`.
pub open spec fn normalize_newlines(s: Seq<char>) -> Seq<char>
    decreases s.len(),
{
    if s.len() == 0 {
        Seq::empty()
    } else if s[0] == '\r' && s.len() >= 2 && s[1] == '\n' {
        seq!['\n'] + normalize_newlines(s.skip(2))
    } else if s[0] == '\r' {
        seq!['\n'] + normalize_newlines(s.skip(1))
    } else {
        seq![s[0]] + normalize_newlines(s.skip(1))
    }
}

/// The module of a source text, or the first lexing or parsing error.
pub open spec fn parse_spec(source: Seq<char>) -> Result<ModuleV, LangErrorV> {
    match lex(normalize_newlines(source)) {
        Err(e) => Err(e),
        Ok(ts) => sp_module(toks_of(ts)),
    }
}

} // verus!
