//! The Conclave parser: source text to an AST `Module` (not yet normalized).
use vstd::prelude::*;
use crate::lang::ast::{
    CapDecl, CmpOp, ConstraintExpr, ConstraintLeft, ConstraintValue, Expr, GoalDecl, ImportDecl,
    IntrinsicDecl, Module, Param, Stmt, TypeConstraint, TypeDecl, WantBlock, exprs_view, stmts_view,
    strings_view, ModuleV,
};
use crate::lang::error::{LangError, LangErrorV, unexpected, unexpected_eof};
use crate::lang::grammar::{
    Toks, PRes, kind_index, display, is_tok, at_close, line_at, unexpected_at, sp_expect, sp_ident,
    sp_type_expr, join_comma, sp_sig_args, sp_signature, sp_version, sp_import_decl, sp_type_decl,
    sp_fn_decl, sp_params, sp_expr, sp_args, sp_let, sp_assign, sp_emit_or_return, sp_stmt_list,
    sp_block, sp_map, sp_if, sp_reduce, sp_ident_args, sp_path, sp_constraint, sp_constraint_list,
    sp_constraints_block, sp_want, sp_goal, sp_decls, sp_decl, sp_module, normalize_newlines,
    parse_spec, toks_of,
};
use crate::lang::lexer::{
    Spanned, Token, TokenV, tokenize, spanned_views, cuts_char, lexing_cuts_char,
};
use crate::text::{push_char, push_str, u64_to_decimal, decimal, chars_of};

verus! {

/// How a parse result relates to its grammar function: the same value and end
/// position, or the same error.
pub open spec fn agrees<T: View>(sr: PRes<T::V>, r: Result<T, LangError>, end: int) -> bool {
    match sr {
        Ok((v, p)) => r matches Ok(x) && x@ == v && end == p,
        Err(e) => r matches Err(x) && x@ == e,
    }
}

/// A token stream with a read position.
struct Tokens {
    items: Vec<(Token, usize)>,
    pos: usize,
}

impl Tokens {
    spec fn toks(&self) -> Toks {
        self.items@.map_values(|p: (Token, usize)| (p.0@, p.1 as nat))
    }

    spec fn wf(&self) -> bool {
        self.pos <= self.items@.len()
    }

    spec fn at_pos(&self) -> int {
        self.pos as int
    }

    fn new(spanned: Vec<Spanned>) -> (ts: Tokens)
        ensures
            ts.wf(),
            ts.pos == 0,
            ts.toks() == toks_of(spanned_views(spanned@)),
    {
        let mut items: Vec<(Token, usize)> = Vec::new();
        let mut i: usize = 0;
        while i < spanned.len()
            invariant
                i <= spanned@.len(),
                items@.len() == i,
                forall|k: int| 0 <= k < i ==> (#[trigger] items@[k]).0@ == spanned@[k].token@ && items@[k].1 == spanned@[k].line,
            decreases spanned@.len() - i,
        {
            items.push((copy_token(&spanned[i].token), spanned[i].line));
            i += 1;
        }
        let ts = Tokens { items, pos: 0 };
        assert(ts.toks() =~= toks_of(spanned_views(spanned@)));
        ts
    }

    /// The current token is of the kind of `k`.
    fn at(&self, k: &Token) -> (r: bool)
        requires
            self.wf(),
        ensures
            r == is_tok(self.toks(), self.pos as int, k@),
    {
        self.pos < self.items.len() && token_eq(&self.items[self.pos].0, k)
    }

    /// At the end, or the current token is of the kind of `k`.
    fn at_close(&self, k: &Token) -> (r: bool)
        requires
            self.wf(),
        ensures
            r == at_close(self.toks(), self.pos as int, k@),
    {
        self.pos >= self.items.len() || token_eq(&self.items[self.pos].0, k)
    }

    fn peek_line(&self) -> (l: usize)
        requires
            self.wf(),
        ensures
            l == line_at(self.toks(), self.pos as int),
    {
        if self.pos < self.items.len() { self.items[self.pos].1 } else { 0 }
    }

    fn at_end(&self) -> (r: bool)
        requires
            self.wf(),
        ensures
            r == (self.pos >= self.items@.len()),
    {
        self.pos >= self.items.len()
    }

    /// The current token, if any.
    fn peek(&self) -> (r: Option<&Token>)
        requires
            self.wf(),
        ensures
            self.pos < self.items@.len() ==> r == Some(&self.items@[self.pos as int].0),
            self.pos >= self.items@.len() ==> r is None,
    {
        if self.pos < self.items.len() { Some(&self.items[self.pos].0) } else { None }
    }

    /// The error for the current token when `desc` was expected.
    fn error_here(&self, desc: &str) -> (e: LangError)
        requires
            self.wf(),
        ensures
            e@ == unexpected_at(self.toks(), self.pos as int, desc@),
    {
        if self.pos < self.items.len() {
            unexpected(desc, token_display(&self.items[self.pos].0), self.items[self.pos].1)
        } else {
            unexpected_eof(desc)
        }
    }

    fn skip(&mut self)
        requires
            old(self).wf(),
            old(self).pos < old(self).items@.len(),
        ensures
            final(self).wf(),
            final(self).items == old(self).items,
            final(self).pos == old(self).pos + 1,
    {
        assert(self.items@.len() == self.items.len());
        self.pos = self.pos + 1;
    }

    /// Consume a token of the kind of `k`; its line on success.
    fn expect_token(&mut self, k: &Token, desc: &str) -> (r: Result<usize, LangError>)
        requires
            old(self).wf(),
        ensures
            moved(*old(self), *final(self)),
            match sp_expect(old(self).toks(), old(self).pos as int, k@, desc@) {
                Ok(p) => r is Ok && final(self).pos == p,
                Err(e) => r matches Err(x) && x@ == e,
            },
    {
        if self.at(k) {
            let l = self.items[self.pos].1;
            assert(self.items@.len() == self.items.len());
            self.pos = self.pos + 1;
            Ok(l)
        } else {
            Err(self.error_here(desc))
        }
    }

    /// Consume an identifier.
    fn expect_ident(&mut self) -> (r: Result<String, LangError>)
        requires
            old(self).wf(),
        ensures
            moved(*old(self), *final(self)),
            agrees(sp_ident(old(self).toks(), old(self).pos as int), r, final(self).pos as int),
    {
        if self.pos < self.items.len() {
            if let Token::Ident(s) = &self.items[self.pos].0 {
                let name = s.clone();
                self.pos = self.pos + 1;
                return Ok(name);
            }
        }
        Err(self.error_here("identifier"))
    }
}

/// A copy of a token.
fn copy_token(t: &Token) -> (r: Token)
    ensures
        r@ == t@,
{
    match t {
        Token::Ident(s) => Token::Ident(s.clone()),
        Token::StringLit(s) => Token::StringLit(s.clone()),
        Token::Number(n) => Token::Number(*n),
        Token::Version => Token::Version,
        Token::Import => Token::Import,
        Token::Type => Token::Type,
        Token::Capability => Token::Capability,
        Token::Intrinsic => Token::Intrinsic,
        Token::Goal => Token::Goal,
        Token::Want => Token::Want,
        Token::MapKeyword => Token::MapKeyword,
        Token::As => Token::As,
        Token::Let => Token::Let,
        Token::Emit => Token::Emit,
        Token::Return => Token::Return,
        Token::Constraints => Token::Constraints,
        Token::Where => Token::Where,
        Token::If => Token::If,
        Token::Else => Token::Else,
        Token::Reduce => Token::Reduce,
        Token::Into => Token::Into,
        Token::Pure => Token::Pure,
        Token::LBrace => Token::LBrace,
        Token::RBrace => Token::RBrace,
        Token::LParen => Token::LParen,
        Token::RParen => Token::RParen,
        Token::LAngle => Token::LAngle,
        Token::RAngle => Token::RAngle,
        Token::Semicolon => Token::Semicolon,
        Token::Comma => Token::Comma,
        Token::Colon => Token::Colon,
        Token::Equals => Token::Equals,
        Token::Arrow => Token::Arrow,
        Token::LtEq => Token::LtEq,
        Token::Dot => Token::Dot,
        Token::ReqPerSec => Token::ReqPerSec,
    }
}

fn token_kind(t: &Token) -> (k: usize)
    ensures
        k == kind_index(t@),
{
    match t {
        Token::Version => 0,
        Token::Import => 1,
        Token::Type => 2,
        Token::Capability => 3,
        Token::Intrinsic => 4,
        Token::Goal => 5,
        Token::Want => 6,
        Token::MapKeyword => 7,
        Token::As => 8,
        Token::Let => 9,
        Token::Emit => 10,
        Token::Return => 11,
        Token::Constraints => 12,
        Token::Where => 13,
        Token::If => 14,
        Token::Else => 15,
        Token::Reduce => 16,
        Token::Into => 17,
        Token::Pure => 18,
        Token::LBrace => 19,
        Token::RBrace => 20,
        Token::LParen => 21,
        Token::RParen => 22,
        Token::LAngle => 23,
        Token::RAngle => 24,
        Token::Semicolon => 25,
        Token::Comma => 26,
        Token::Colon => 27,
        Token::Equals => 28,
        Token::Arrow => 29,
        Token::LtEq => 30,
        Token::Dot => 31,
        Token::Ident(_) => 32,
        Token::StringLit(_) => 33,
        Token::Number(_) => 34,
        Token::ReqPerSec => 35,
    }
}

/// Two tokens are of the same kind (payloads are not compared).
pub fn token_eq(a: &Token, b: &Token) -> (r: bool)
    ensures
        r == (kind_index(a@) == kind_index(b@)),
{
    token_kind(a) == token_kind(b)
}

/// How a token is shown in error messages.
pub fn token_display(tok: &Token) -> (s: String)
    ensures
        s@ == display(tok@),
{
    match tok {
        Token::Version => String::from_str("version"),
        Token::Import => String::from_str("import"),
        Token::Type => String::from_str("type"),
        Token::Capability => String::from_str("capability"),
        Token::Intrinsic => String::from_str("intrinsic"),
        Token::Goal => String::from_str("goal"),
        Token::Want => String::from_str("want"),
        Token::MapKeyword => String::from_str("map"),
        Token::As => String::from_str("as"),
        Token::Let => String::from_str("let"),
        Token::Emit => String::from_str("emit"),
        Token::Return => String::from_str("return"),
        Token::Constraints => String::from_str("constraints"),
        Token::Where => String::from_str("where"),
        Token::If => String::from_str("if"),
        Token::Else => String::from_str("else"),
        Token::Reduce => String::from_str("reduce"),
        Token::Into => String::from_str("into"),
        Token::Pure => String::from_str("pure"),
        Token::LBrace => String::from_str("{"),
        Token::RBrace => String::from_str("}"),
        Token::LParen => String::from_str("("),
        Token::RParen => String::from_str(")"),
        Token::LAngle => String::from_str("<"),
        Token::RAngle => String::from_str(">"),
        Token::Semicolon => String::from_str(";"),
        Token::Comma => String::from_str(","),
        Token::Colon => String::from_str(":"),
        Token::Equals => String::from_str("="),
        Token::Arrow => String::from_str("->"),
        Token::LtEq => String::from_str("<="),
        Token::Dot => String::from_str("."),
        Token::Ident(s) => s.clone(),
        Token::StringLit(s) => {
            let mut r = String::new();
            push_char(&mut r, '"');
            push_str(&mut r, s.as_str());
            push_char(&mut r, '"');
            assert(r@ =~= seq!['"'] + s@ + seq!['"']);
            r
        },
        Token::Number(n) => u64_to_decimal(*n),
        Token::ReqPerSec => String::from_str("req/s"),
    }
}


/// A parse result and a conversion of the value to its model.
pub open spec fn agrees_by<T, V>(sr: PRes<V>, r: Result<T, LangError>, f: spec_fn(T) -> V, end: int) -> bool {
    match sr {
        Ok((v, p)) => r matches Ok(x) && f(x) == v && end == p,
        Err(e) => r matches Err(x) && x@ == e,
    }
}

/// The token stream after a parse step: same tokens, position not moved back.
spec fn moved(a: Tokens, b: Tokens) -> bool {
    &&& b.wf()
    &&& b.items == a.items
    &&& a.pos <= b.pos
}

/// `IDENT` or `IDENT < TYPE >`, as text.
fn parse_type_expr(ts: &mut Tokens) -> (r: Result<String, LangError>)
    requires
        old(ts).wf(),
    ensures
        moved(*old(ts), *final(ts)),
        agrees(sp_type_expr(old(ts).toks(), old(ts).pos as int), r, final(ts).pos as int),
        r is Ok ==> final(ts).pos > old(ts).pos,
    decreases old(ts).items@.len() - old(ts).pos,
{
    let name = match ts.expect_ident() {
        Ok(n) => n,
        Err(e) => return Err(e),
    };
    if ts.at(&Token::LAngle) {
        ts.skip();
        let inner = match parse_type_expr(ts) {
            Ok(x) => x,
            Err(e) => return Err(e),
        };
        match ts.expect_token(&Token::RAngle, "'>'") {
            Ok(_) => {},
            Err(e) => return Err(e),
        }
        let ghost nm = name@;
        let mut out = name;
        push_char(&mut out, '<');
        push_str(&mut out, inner.as_str());
        push_char(&mut out, '>');
        assert(out@ =~= nm + seq!['<'] + inner@ + seq!['>']);
        Ok(out)
    } else {
        Ok(name)
    }
}

/// Strings joined by `, `.
fn join_with_comma(items: &Vec<String>) -> (s: String)
    ensures
        s@ == join_comma(strings_view(items@)),
{
    let mut s = String::new();
    let mut i: usize = 0;
    while i < items.len()
        invariant
            i <= items@.len(),
            s@ == join_comma(strings_view(items@.take(i as int))),
        decreases items@.len() - i,
    {
        proof {
            assert(items@.take(i + 1).drop_last() =~= items@.take(i as int));
            assert(strings_view(items@.take(i + 1)) =~= strings_view(items@.take(i as int)).push(items@[i as int]@));
            assert(strings_view(items@.take(i + 1)).drop_last() =~= strings_view(items@.take(i as int)));
        }
        if i > 0 {
            push_char(&mut s, ',');
            push_char(&mut s, ' ');
        }
        push_str(&mut s, items[i].as_str());
        proof {
            if i == 0 {
                assert(s@ =~= items@[0]@);
            } else {
                assert(s@ =~= join_comma(strings_view(items@.take(i as int))) + seq![',', ' '] + items@[i as int]@);
            }
        }
        i += 1;
    }
    assert(items@.take(items@.len() as int) =~= items@);
    s
}

/// Type arguments of a signature, up to `)`.
fn parse_sig_args(ts: &mut Tokens) -> (r: Result<Vec<String>, LangError>)
    requires
        old(ts).wf(),
    ensures
        moved(*old(ts), *final(ts)),
        agrees_by(
            sp_sig_args(old(ts).toks(), old(ts).pos as int, Seq::empty()),
            r,
            |x: Vec<String>| strings_view(x@),
            final(ts).pos as int,
        ),
{
    let ghost t = ts.toks();
    let ghost p0 = ts.pos as int;
    let mut args: Vec<String> = Vec::new();
    assert(strings_view(args@) =~= Seq::empty());
    while !ts.at_close(&Token::RParen)
        invariant
            ts.wf(),
            ts.items == old(ts).items,
            ts.toks() == t,
            old(ts).pos <= ts.pos,
            p0 == old(ts).pos,
            sp_sig_args(t, p0, Seq::empty()) == sp_sig_args(t, ts.pos as int, strings_view(args@)),
            strings_view(args@).len() == args@.len(),
        decreases ts.items@.len() - ts.pos,
    {
        if args.len() > 0 {
            match ts.expect_token(&Token::Comma, "','") {
                Ok(_) => {},
                Err(e) => return Err(e),
            }
        }
        let ty = match parse_type_expr(ts) {
            Ok(x) => x,
            Err(e) => return Err(e),
        };
        proof {
            assert(strings_view(args@.push(ty)) =~= strings_view(args@).push(ty@));
        }
        args.push(ty);
    }
    Ok(args)
}

/// `NAME ( TYPES ) -> TYPE`, as the text `NAME(T1, T2)->R`.
fn parse_signature(ts: &mut Tokens) -> (r: Result<String, LangError>)
    requires
        old(ts).wf(),
    ensures
        moved(*old(ts), *final(ts)),
        agrees(sp_signature(old(ts).toks(), old(ts).pos as int), r, final(ts).pos as int),
{
    let name = match ts.expect_ident() {
        Ok(n) => n,
        Err(e) => return Err(e),
    };
    match ts.expect_token(&Token::LParen, "'('") {
        Ok(_) => {},
        Err(e) => return Err(e),
    }
    let args = match parse_sig_args(ts) {
        Ok(a) => a,
        Err(e) => return Err(e),
    };
    match ts.expect_token(&Token::RParen, "')'") {
        Ok(_) => {},
        Err(e) => return Err(e),
    }
    match ts.expect_token(&Token::Arrow, "'->'") {
        Ok(_) => {},
        Err(e) => return Err(e),
    }
    let ret = match parse_type_expr(ts) {
        Ok(x) => x,
        Err(e) => return Err(e),
    };
    let joined = join_with_comma(&args);
    let ghost nm = name@;
    let mut out = name;
    push_char(&mut out, '(');
    push_str(&mut out, joined.as_str());
    push_char(&mut out, ')');
    push_char(&mut out, '-');
    push_char(&mut out, '>');
    push_str(&mut out, ret.as_str());
    proof {
        assert(out@ =~= nm + seq!['('] + join_comma(strings_view(args@)) + seq![')', '-', '>'] + ret@);
    }
    Ok(out)
}

/// `N` or `N.M` after `version`.
fn parse_version_number(ts: &mut Tokens) -> (r: Result<String, LangError>)
    requires
        old(ts).wf(),
    ensures
        moved(*old(ts), *final(ts)),
        agrees(sp_version(old(ts).toks(), old(ts).pos as int), r, final(ts).pos as int),
{
    if ts.pos < ts.items.len() {
        if let Token::Number(major) = &ts.items[ts.pos].0 {
            let major = *major;
            ts.skip();
            if ts.at(&Token::Dot) {
                ts.skip();
                if ts.pos < ts.items.len() {
                    if let Token::Number(minor) = &ts.items[ts.pos].0 {
                        let minor = *minor;
                        ts.skip();
                        let mut out = u64_to_decimal(major);
                        push_char(&mut out, '.');
                        let m = u64_to_decimal(minor);
                        push_str(&mut out, m.as_str());
                        assert(out@ =~= decimal(major as nat) + seq!['.'] + decimal(minor as nat));
                        return Ok(out);
                    }
                }
                return Err(ts.error_here("minor version number"));
            }
            return Ok(u64_to_decimal(major));
        }
    }
    Err(ts.error_here("version number"))
}

/// `import NAME : "HASH" ;`
fn parse_import_decl(ts: &mut Tokens) -> (r: Result<ImportDecl, LangError>)
    requires
        old(ts).wf(),
    ensures
        moved(*old(ts), *final(ts)),
        agrees(sp_import_decl(old(ts).toks(), old(ts).pos as int), r, final(ts).pos as int),
        r is Ok ==> final(ts).pos > old(ts).pos,
{
    reveal(sp_import_decl);
    match ts.expect_token(&Token::Import, "import") {
        Ok(_) => {},
        Err(e) => return Err(e),
    }
    let name = match ts.expect_ident() {
        Ok(n) => n,
        Err(e) => return Err(e),
    };
    match ts.expect_token(&Token::Colon, "':'") {
        Ok(_) => {},
        Err(e) => return Err(e),
    }
    if ts.pos < ts.items.len() {
        if let Token::StringLit(h) = &ts.items[ts.pos].0 {
            let hash = h.clone();
            ts.skip();
            match ts.expect_token(&Token::Semicolon, "';'") {
                Ok(_) => {},
                Err(e) => return Err(e),
            }
            return Ok(ImportDecl { name, hash });
        }
    }
    Err(ts.error_here("import hash string"))
}

/// `type NAME = TYPE (where VALIDATOR("PATTERN"))? ;`
fn parse_type_decl(ts: &mut Tokens) -> (r: Result<TypeDecl, LangError>)
    requires
        old(ts).wf(),
    ensures
        moved(*old(ts), *final(ts)),
        agrees(sp_type_decl(old(ts).toks(), old(ts).pos as int), r, final(ts).pos as int),
        r is Ok ==> final(ts).pos > old(ts).pos,
{
    reveal(sp_type_decl);
    match ts.expect_token(&Token::Type, "type") {
        Ok(_) => {},
        Err(e) => return Err(e),
    }
    let name = match ts.expect_ident() {
        Ok(n) => n,
        Err(e) => return Err(e),
    };
    match ts.expect_token(&Token::Equals, "'='") {
        Ok(_) => {},
        Err(e) => return Err(e),
    }
    let base = match parse_type_expr(ts) {
        Ok(x) => x,
        Err(e) => return Err(e),
    };
    let constraint = if ts.at(&Token::Where) {
        ts.skip();
        let validator = match ts.expect_ident() {
            Ok(n) => n,
            Err(e) => return Err(e),
        };
        match ts.expect_token(&Token::LParen, "'('") {
            Ok(_) => {},
            Err(e) => return Err(e),
        }
        let pattern = if ts.pos < ts.items.len() {
            if let Token::StringLit(pat) = &ts.items[ts.pos].0 {
                let pattern = pat.clone();
                ts.skip();
                pattern
            } else {
                return Err(ts.error_here("string pattern"));
            }
        } else {
            return Err(ts.error_here("string pattern"));
        };
        match ts.expect_token(&Token::RParen, "')'") {
            Ok(_) => {},
            Err(e) => return Err(e),
        }
        Some(TypeConstraint { validator, pattern })
    } else {
        None
    };
    match ts.expect_token(&Token::Semicolon, "';'") {
        Ok(_) => {},
        Err(e) => return Err(e),
    }
    Ok(TypeDecl { name, base, constraint })
}

/// `KEYWORD ALIAS : SIGNATURE ;`: the alias and the signature.
fn parse_fn_decl(ts: &mut Tokens, kw: &Token, desc: &str) -> (r: Result<(String, String), LangError>)
    requires
        old(ts).wf(),
    ensures
        moved(*old(ts), *final(ts)),
        agrees_by(
            sp_fn_decl(old(ts).toks(), old(ts).pos as int, kw@, desc@),
            r,
            |x: (String, String)| (x.0@, x.1@),
            final(ts).pos as int,
        ),
        r is Ok ==> final(ts).pos > old(ts).pos,
{
    reveal(sp_fn_decl);
    match ts.expect_token(kw, desc) {
        Ok(_) => {},
        Err(e) => return Err(e),
    }
    let alias = match ts.expect_ident() {
        Ok(n) => n,
        Err(e) => return Err(e),
    };
    match ts.expect_token(&Token::Colon, "':'") {
        Ok(_) => {},
        Err(e) => return Err(e),
    }
    let signature = match parse_signature(ts) {
        Ok(x) => x,
        Err(e) => return Err(e),
    };
    match ts.expect_token(&Token::Semicolon, "';'") {
        Ok(_) => {},
        Err(e) => return Err(e),
    }
    Ok((alias, signature))
}

/// `capability ALIAS : SIGNATURE ;`
fn parse_cap_decl(ts: &mut Tokens) -> (r: Result<CapDecl, LangError>)
    requires
        old(ts).wf(),
    ensures
        moved(*old(ts), *final(ts)),
        agrees_by(
            sp_fn_decl(old(ts).toks(), old(ts).pos as int, TokenV::Capability, "capability"@),
            r,
            |x: CapDecl| (x.alias@, x.signature@),
            final(ts).pos as int,
        ),
        r is Ok ==> final(ts).pos > old(ts).pos,
{
    match parse_fn_decl(ts, &Token::Capability, "capability") {
        Ok((alias, signature)) => Ok(CapDecl { alias, signature }),
        Err(e) => Err(e),
    }
}

/// `intrinsic ALIAS : SIGNATURE ;`
fn parse_intrinsic_decl(ts: &mut Tokens) -> (r: Result<IntrinsicDecl, LangError>)
    requires
        old(ts).wf(),
    ensures
        moved(*old(ts), *final(ts)),
        agrees_by(
            sp_fn_decl(old(ts).toks(), old(ts).pos as int, TokenV::Intrinsic, "intrinsic"@),
            r,
            |x: IntrinsicDecl| (x.alias@, x.signature@),
            final(ts).pos as int,
        ),
        r is Ok ==> final(ts).pos > old(ts).pos,
{
    match parse_fn_decl(ts, &Token::Intrinsic, "intrinsic") {
        Ok((alias, signature)) => Ok(IntrinsicDecl { alias, signature }),
        Err(e) => Err(e),
    }
}

/// Goal parameters `NAME : TYPE` separated by commas, up to `)`.
fn parse_param_list(ts: &mut Tokens) -> (r: Result<Vec<Param>, LangError>)
    requires
        old(ts).wf(),
    ensures
        moved(*old(ts), *final(ts)),
        agrees_by(
            sp_params(old(ts).toks(), old(ts).pos as int, Seq::empty()),
            r,
            |x: Vec<Param>| x@.map_values(|q: Param| q@),
            final(ts).pos as int,
        ),
{
    let ghost t = ts.toks();
    let ghost p0 = ts.pos as int;
    let mut params: Vec<Param> = Vec::new();
    assert(params@.map_values(|q: Param| q@) =~= Seq::empty());
    while !ts.at_close(&Token::RParen)
        invariant
            ts.wf(),
            ts.items == old(ts).items,
            ts.toks() == t,
            old(ts).pos <= ts.pos,
            p0 == old(ts).pos,
            sp_params(t, p0, Seq::empty()) == sp_params(t, ts.pos as int, params@.map_values(|q: Param| q@)),
            params@.map_values(|q: Param| q@).len() == params@.len(),
        decreases ts.items@.len() - ts.pos,
    {
        if params.len() > 0 {
            match ts.expect_token(&Token::Comma, "','") {
                Ok(_) => {},
                Err(e) => return Err(e),
            }
        }
        let name = match ts.expect_ident() {
            Ok(n) => n,
            Err(e) => return Err(e),
        };
        match ts.expect_token(&Token::Colon, "':'") {
            Ok(_) => {},
            Err(e) => return Err(e),
        }
        let ty_name = match parse_type_expr(ts) {
            Ok(x) => x,
            Err(e) => return Err(e),
        };
        let param = Param { name, ty_name };
        proof {
            assert(params@.push(param).map_values(|q: Param| q@) =~= params@.map_values(|q: Param| q@).push(param@));
        }
        params.push(param);
    }
    Ok(params)
}


/// An identifier, a string literal, a call `NAME(ARGS)` or `pure { EXPR }`.
fn parse_expr(ts: &mut Tokens) -> (r: Result<Expr, LangError>)
    requires
        old(ts).wf(),
    ensures
        moved(*old(ts), *final(ts)),
        agrees(sp_expr(old(ts).toks(), old(ts).pos as int), r, final(ts).pos as int),
        r is Ok ==> final(ts).pos > old(ts).pos,
    decreases old(ts).items@.len() - old(ts).pos, 0nat,
{
    if ts.pos >= ts.items.len() {
        return Err(ts.error_here("expression"));
    }
    match &ts.items[ts.pos].0 {
        Token::Ident(n) => {
            let name = n.clone();
            ts.skip();
            if ts.at(&Token::LParen) {
                ts.skip();
                let args = match parse_call_args(ts) {
                    Ok(a) => a,
                    Err(e) => return Err(e),
                };
                match ts.expect_token(&Token::RParen, "')'") {
                    Ok(_) => {},
                    Err(e) => return Err(e),
                }
                Ok(Expr::Call { name, args })
            } else {
                Ok(Expr::Ident { name })
            }
        },
        Token::StringLit(v) => {
            let value = v.clone();
            ts.skip();
            Ok(Expr::StringLit { value })
        },
        Token::Pure => {
            ts.skip();
            if !ts.at(&Token::LBrace) {
                return Err(ts.error_here("'{' after pure"));
            }
            ts.skip();
            let body = match parse_expr(ts) {
                Ok(b) => b,
                Err(e) => return Err(e),
            };
            match ts.expect_token(&Token::RBrace, "'}' closing pure") {
                Ok(_) => {},
                Err(e) => return Err(e),
            }
            Ok(Expr::Pure { body: Box::new(body) })
        },
        _ => Err(ts.error_here("expression")),
    }
}

/// Call arguments separated by commas, up to `)`.
fn parse_call_args(ts: &mut Tokens) -> (r: Result<Vec<Expr>, LangError>)
    requires
        old(ts).wf(),
    ensures
        moved(*old(ts), *final(ts)),
        agrees_by(
            sp_args(old(ts).toks(), old(ts).pos as int, Seq::empty()),
            r,
            |x: Vec<Expr>| exprs_view(x@),
            final(ts).pos as int,
        ),
    decreases old(ts).items@.len() - old(ts).pos, 1nat,
{
    let ghost t = ts.toks();
    let ghost p0 = ts.pos as int;
    let mut args: Vec<Expr> = Vec::new();
    while !ts.at_close(&Token::RParen)
        invariant
            ts.wf(),
            ts.items == old(ts).items,
            ts.toks() == t,
            old(ts).pos <= ts.pos,
            p0 == old(ts).pos,
            sp_args(t, p0, Seq::empty()) == sp_args(t, ts.pos as int, exprs_view(args@)),
            exprs_view(args@).len() == args@.len(),
        decreases ts.items@.len() - ts.pos,
    {
        if args.len() > 0 {
            match ts.expect_token(&Token::Comma, "','") {
                Ok(_) => {},
                Err(e) => return Err(e),
            }
        }
        let e = match parse_expr(ts) {
            Ok(x) => x,
            Err(e) => return Err(e),
        };
        proof {
            assert(args@.push(e).drop_last() =~= args@);
        }
        args.push(e);
    }
    Ok(args)
}

/// `let NAME = CALL ;` where the value is a call or a `pure` block.
fn parse_let_stmt(ts: &mut Tokens) -> (r: Result<Stmt, LangError>)
    requires
        old(ts).wf(),
    ensures
        moved(*old(ts), *final(ts)),
        agrees(sp_let(old(ts).toks(), old(ts).pos as int), r, final(ts).pos as int),
        r is Ok ==> final(ts).pos > old(ts).pos,
{
    match ts.expect_token(&Token::Let, "let") {
        Ok(_) => {},
        Err(e) => return Err(e),
    }
    let name = match ts.expect_ident() {
        Ok(n) => n,
        Err(e) => return Err(e),
    };
    match ts.expect_token(&Token::Equals, "'='") {
        Ok(_) => {},
        Err(e) => return Err(e),
    }
    let expr = match parse_expr(ts) {
        Ok(x) => x,
        Err(e) => return Err(e),
    };
    match &expr {
        Expr::Call { .. } | Expr::Pure { .. } => {},
        _ => {
            return Err(unexpected("function call", String::from_str("non-call expression"), ts.peek_line()));
        },
    }
    match ts.expect_token(&Token::Semicolon, "';'") {
        Ok(_) => {},
        Err(e) => return Err(e),
    }
    Ok(Stmt::Let { name, expr })
}

/// `NAME = EXPR ;`
fn parse_assign_stmt(ts: &mut Tokens) -> (r: Result<Stmt, LangError>)
    requires
        old(ts).wf(),
    ensures
        moved(*old(ts), *final(ts)),
        agrees(sp_assign(old(ts).toks(), old(ts).pos as int), r, final(ts).pos as int),
        r is Ok ==> final(ts).pos > old(ts).pos,
{
    let name = match ts.expect_ident() {
        Ok(n) => n,
        Err(e) => return Err(e),
    };
    match ts.expect_token(&Token::Equals, "'='") {
        Ok(_) => {},
        Err(e) => return Err(e),
    }
    let expr = match parse_expr(ts) {
        Ok(x) => x,
        Err(e) => return Err(e),
    };
    match ts.expect_token(&Token::Semicolon, "';'") {
        Ok(_) => {},
        Err(e) => return Err(e),
    }
    Ok(Stmt::Assign { name, expr })
}

/// `emit EXPR ;`
fn parse_emit_stmt(ts: &mut Tokens) -> (r: Result<Stmt, LangError>)
    requires
        old(ts).wf(),
    ensures
        moved(*old(ts), *final(ts)),
        agrees(sp_emit_or_return(old(ts).toks(), old(ts).pos as int, false), r, final(ts).pos as int),
        r is Ok ==> final(ts).pos > old(ts).pos,
{
    match ts.expect_token(&Token::Emit, "emit") {
        Ok(_) => {},
        Err(e) => return Err(e),
    }
    let expr = match parse_expr(ts) {
        Ok(x) => x,
        Err(e) => return Err(e),
    };
    match ts.expect_token(&Token::Semicolon, "';'") {
        Ok(_) => {},
        Err(e) => return Err(e),
    }
    Ok(Stmt::Emit { expr })
}

/// `return EXPR ;`
fn parse_return_stmt(ts: &mut Tokens) -> (r: Result<Stmt, LangError>)
    requires
        old(ts).wf(),
    ensures
        moved(*old(ts), *final(ts)),
        agrees(sp_emit_or_return(old(ts).toks(), old(ts).pos as int, true), r, final(ts).pos as int),
        r is Ok ==> final(ts).pos > old(ts).pos,
{
    match ts.expect_token(&Token::Return, "return") {
        Ok(_) => {},
        Err(e) => return Err(e),
    }
    let expr = match parse_expr(ts) {
        Ok(x) => x,
        Err(e) => return Err(e),
    };
    match ts.expect_token(&Token::Semicolon, "';'") {
        Ok(_) => {},
        Err(e) => return Err(e),
    }
    Ok(Stmt::Return { expr })
}

/// Statements up to `}`; a `return` ends the list.
fn parse_stmt_list(ts: &mut Tokens) -> (r: Result<Vec<Stmt>, LangError>)
    requires
        old(ts).wf(),
    ensures
        moved(*old(ts), *final(ts)),
        agrees_by(
            sp_stmt_list(old(ts).toks(), old(ts).pos as int, Seq::empty()),
            r,
            |x: Vec<Stmt>| stmts_view(x@),
            final(ts).pos as int,
        ),
    decreases old(ts).items@.len() - old(ts).pos, 2nat,
{
    let ghost t = ts.toks();
    let ghost p0 = ts.pos as int;
    let mut stmts: Vec<Stmt> = Vec::new();
    while !ts.at_close(&Token::RBrace)
        invariant
            ts.wf(),
            ts.items == old(ts).items,
            ts.toks() == t,
            old(ts).pos <= ts.pos,
            p0 == old(ts).pos,
            sp_stmt_list(t, p0, Seq::empty()) == sp_stmt_list(t, ts.pos as int, stmts_view(stmts@)),
        decreases ts.items@.len() - ts.pos,
    {
        let ghost p = ts.pos as int;
        let is_return = ts.at(&Token::Return);
        let res = match &ts.items[ts.pos].0 {
            Token::Let => parse_let_stmt(ts),
            Token::MapKeyword => parse_map_stmt(ts),
            Token::If => parse_if_stmt(ts),
            Token::Reduce => parse_reduce_stmt(ts),
            Token::Emit => parse_emit_stmt(ts),
            Token::Return => parse_return_stmt(ts),
            Token::Ident(_) => parse_assign_stmt(ts),
            _ => Err(ts.error_here("let, map, emit, or return")),
        };
        let st = match res {
            Ok(x) => x,
            Err(e) => return Err(e),
        };
        proof {
            assert(stmts@.push(st).drop_last() =~= stmts@);
        }
        stmts.push(st);
        if is_return {
            return Ok(stmts);
        }
    }
    Ok(stmts)
}

/// `{ STATEMENTS }`.
fn parse_block(ts: &mut Tokens, open_desc: &str, close_desc: &str) -> (r: Result<Vec<Stmt>, LangError>)
    requires
        old(ts).wf(),
    ensures
        moved(*old(ts), *final(ts)),
        agrees_by(
            sp_block(old(ts).toks(), old(ts).pos as int, open_desc@, close_desc@),
            r,
            |x: Vec<Stmt>| stmts_view(x@),
            final(ts).pos as int,
        ),
        r is Ok ==> final(ts).pos > old(ts).pos,
    decreases old(ts).items@.len() - old(ts).pos, 1nat,
{
    match ts.expect_token(&Token::LBrace, open_desc) {
        Ok(_) => {},
        Err(e) => return Err(e),
    }
    let body = match parse_stmt_list(ts) {
        Ok(b) => b,
        Err(e) => return Err(e),
    };
    match ts.expect_token(&Token::RBrace, close_desc) {
        Ok(_) => {},
        Err(e) => return Err(e),
    }
    Ok(body)
}

/// `map LIST as BINDER { BODY }`
fn parse_map_stmt(ts: &mut Tokens) -> (r: Result<Stmt, LangError>)
    requires
        old(ts).wf(),
    ensures
        moved(*old(ts), *final(ts)),
        agrees(sp_map(old(ts).toks(), old(ts).pos as int), r, final(ts).pos as int),
        r is Ok ==> final(ts).pos > old(ts).pos,
    decreases old(ts).items@.len() - old(ts).pos, 1nat,
{
    match ts.expect_token(&Token::MapKeyword, "map") {
        Ok(_) => {},
        Err(e) => return Err(e),
    }
    let list = match ts.expect_ident() {
        Ok(n) => n,
        Err(e) => return Err(e),
    };
    match ts.expect_token(&Token::As, "as") {
        Ok(_) => {},
        Err(e) => return Err(e),
    }
    let binder = match ts.expect_ident() {
        Ok(n) => n,
        Err(e) => return Err(e),
    };
    let body = match parse_block(ts, "'{' after map binder", "'}' closing map") {
        Ok(b) => b,
        Err(e) => return Err(e),
    };
    Ok(Stmt::MapOver { list, binder, body })
}

/// `if COND { BODY } (else { BODY })?`
fn parse_if_stmt(ts: &mut Tokens) -> (r: Result<Stmt, LangError>)
    requires
        old(ts).wf(),
    ensures
        moved(*old(ts), *final(ts)),
        agrees(sp_if(old(ts).toks(), old(ts).pos as int), r, final(ts).pos as int),
        r is Ok ==> final(ts).pos > old(ts).pos,
    decreases old(ts).items@.len() - old(ts).pos, 1nat,
{
    match ts.expect_token(&Token::If, "if") {
        Ok(_) => {},
        Err(e) => return Err(e),
    }
    let condition = match parse_expr(ts) {
        Ok(x) => x,
        Err(e) => return Err(e),
    };
    let true_body = match parse_block(ts, "'{' after if condition", "'}' closing if") {
        Ok(b) => b,
        Err(e) => return Err(e),
    };
    let false_body = if ts.at(&Token::Else) {
        ts.skip();
        match parse_block(ts, "'{' after else", "'}' closing else") {
            Ok(b) => b,
            Err(e) => return Err(e),
        }
    } else {
        let v: Vec<Stmt> = Vec::new();
        assert(stmts_view(v@) =~= Seq::empty());
        v
    };
    Ok(Stmt::If { condition, true_body, false_body })
}

/// `reduce LIST as BINDER into ACCUM { BODY }`
fn parse_reduce_stmt(ts: &mut Tokens) -> (r: Result<Stmt, LangError>)
    requires
        old(ts).wf(),
    ensures
        moved(*old(ts), *final(ts)),
        agrees(sp_reduce(old(ts).toks(), old(ts).pos as int), r, final(ts).pos as int),
        r is Ok ==> final(ts).pos > old(ts).pos,
    decreases old(ts).items@.len() - old(ts).pos, 1nat,
{
    match ts.expect_token(&Token::Reduce, "reduce") {
        Ok(_) => {},
        Err(e) => return Err(e),
    }
    let list = match ts.expect_ident() {
        Ok(n) => n,
        Err(e) => return Err(e),
    };
    match ts.expect_token(&Token::As, "as") {
        Ok(_) => {},
        Err(e) => return Err(e),
    }
    let binder = match ts.expect_ident() {
        Ok(n) => n,
        Err(e) => return Err(e),
    };
    match ts.expect_token(&Token::Into, "into") {
        Ok(_) => {},
        Err(e) => return Err(e),
    }
    let accum = match ts.expect_ident() {
        Ok(n) => n,
        Err(e) => return Err(e),
    };
    let body = match parse_block(ts, "'{' after reduce", "'}' closing reduce") {
        Ok(b) => b,
        Err(e) => return Err(e),
    };
    Ok(Stmt::Reduce { list, binder, accum, body })
}


/// Identifier arguments separated by commas, up to `)`.
fn parse_ident_args(ts: &mut Tokens) -> (r: Result<Vec<String>, LangError>)
    requires
        old(ts).wf(),
    ensures
        moved(*old(ts), *final(ts)),
        agrees_by(
            sp_ident_args(old(ts).toks(), old(ts).pos as int, Seq::empty()),
            r,
            |x: Vec<String>| strings_view(x@),
            final(ts).pos as int,
        ),
{
    let ghost t = ts.toks();
    let ghost p0 = ts.pos as int;
    let mut args: Vec<String> = Vec::new();
    assert(strings_view(args@) =~= Seq::empty());
    while !ts.at_close(&Token::RParen)
        invariant
            ts.wf(),
            ts.items == old(ts).items,
            ts.toks() == t,
            old(ts).pos <= ts.pos,
            p0 == old(ts).pos,
            sp_ident_args(t, p0, Seq::empty()) == sp_ident_args(t, ts.pos as int, strings_view(args@)),
            strings_view(args@).len() == args@.len(),
        decreases ts.items@.len() - ts.pos,
    {
        if args.len() > 0 {
            match ts.expect_token(&Token::Comma, "','") {
                Ok(_) => {},
                Err(e) => return Err(e),
            }
        }
        let a = match ts.expect_ident() {
            Ok(x) => x,
            Err(e) => return Err(e),
        };
        proof {
            assert(strings_view(args@.push(a)) =~= strings_view(args@).push(a@));
        }
        args.push(a);
    }
    Ok(args)
}

/// Further `.IDENT` path segments, appended to `segments`.
fn parse_path(ts: &mut Tokens, segments: Vec<String>) -> (r: Result<Vec<String>, LangError>)
    requires
        old(ts).wf(),
    ensures
        moved(*old(ts), *final(ts)),
        agrees_by(
            sp_path(old(ts).toks(), old(ts).pos as int, strings_view(segments@)),
            r,
            |x: Vec<String>| strings_view(x@),
            final(ts).pos as int,
        ),
{
    let ghost t = ts.toks();
    let ghost p0 = ts.pos as int;
    let mut segs = segments;
    while ts.at(&Token::Dot)
        invariant
            ts.wf(),
            ts.items == old(ts).items,
            ts.toks() == t,
            old(ts).pos <= ts.pos,
            p0 == old(ts).pos,
            sp_path(t, p0, strings_view(segments@)) == sp_path(t, ts.pos as int, strings_view(segs@)),
        decreases ts.items@.len() - ts.pos,
    {
        ts.skip();
        let seg = match ts.expect_ident() {
            Ok(x) => x,
            Err(e) => return Err(e),
        };
        proof {
            assert(strings_view(segs@.push(seg)) =~= strings_view(segs@).push(seg@));
        }
        segs.push(seg);
    }
    Ok(segs)
}

/// `LEFT (== | <=) VALUE ;`
fn parse_constraint_expr(ts: &mut Tokens) -> (r: Result<ConstraintExpr, LangError>)
    requires
        old(ts).wf(),
    ensures
        moved(*old(ts), *final(ts)),
        agrees(sp_constraint(old(ts).toks(), old(ts).pos as int), r, final(ts).pos as int),
        r is Ok ==> final(ts).pos > old(ts).pos,
{
    let first = match ts.expect_ident() {
        Ok(n) => n,
        Err(e) => return Err(e),
    };
    let left = if ts.at(&Token::LParen) {
        ts.skip();
        let args = match parse_ident_args(ts) {
            Ok(a) => a,
            Err(e) => return Err(e),
        };
        match ts.expect_token(&Token::RParen, "')'") {
            Ok(_) => {},
            Err(e) => return Err(e),
        }
        ConstraintLeft::FnCall { name: first, args }
    } else {
        let mut start: Vec<String> = Vec::new();
        let ghost f = first@;
        start.push(first);
        assert(strings_view(start@) =~= seq![f]);
        let segments = match parse_path(ts, start) {
            Ok(s) => s,
            Err(e) => return Err(e),
        };
        ConstraintLeft::Path { segments }
    };
    let op = if ts.pos < ts.items.len() && ts.at(&Token::Equals) {
        ts.skip();
        match ts.expect_token(&Token::Equals, "'=' (second = of ==)") {
            Ok(_) => {},
            Err(e) => return Err(e),
        }
        CmpOp::Eq
    } else if ts.at(&Token::LtEq) {
        ts.skip();
        CmpOp::LtEq
    } else {
        return Err(ts.error_here("'==' or '<='"));
    };
    if ts.pos >= ts.items.len() {
        return Err(ts.error_here("constraint value"));
    }
    let right = match &ts.items[ts.pos].0 {
        Token::StringLit(v) => {
            let value = v.clone();
            ts.skip();
            ConstraintValue::StringLit { value }
        },
        Token::Number(n) => {
            let value = *n;
            ts.skip();
            if ts.at(&Token::ReqPerSec) {
                ts.skip();
                ConstraintValue::Rate { value, unit: String::from_str("req/s") }
            } else {
                ConstraintValue::Number { value }
            }
        },
        _ => return Err(ts.error_here("constraint value")),
    };
    match ts.expect_token(&Token::Semicolon, "';'") {
        Ok(_) => {},
        Err(e) => return Err(e),
    }
    Ok(ConstraintExpr { op, left, right })
}

/// `constraints { CONSTRAINTS }`
fn parse_constraints_block(ts: &mut Tokens) -> (r: Result<Vec<ConstraintExpr>, LangError>)
    requires
        old(ts).wf(),
    ensures
        moved(*old(ts), *final(ts)),
        agrees_by(
            sp_constraints_block(old(ts).toks(), old(ts).pos as int),
            r,
            |x: Vec<ConstraintExpr>| x@.map_values(|c: ConstraintExpr| c@),
            final(ts).pos as int,
        ),
{
    match ts.expect_token(&Token::Constraints, "constraints") {
        Ok(_) => {},
        Err(e) => return Err(e),
    }
    match ts.expect_token(&Token::LBrace, "'{' after constraints") {
        Ok(_) => {},
        Err(e) => return Err(e),
    }
    let cs = match parse_constraint_list(ts) {
        Ok(c) => c,
        Err(e) => return Err(e),
    };
    match ts.expect_token(&Token::RBrace, "'}' closing constraints") {
        Ok(_) => {},
        Err(e) => return Err(e),
    }
    Ok(cs)
}

/// Constraints up to `}`.
fn parse_constraint_list(ts: &mut Tokens) -> (r: Result<Vec<ConstraintExpr>, LangError>)
    requires
        old(ts).wf(),
    ensures
        moved(*old(ts), *final(ts)),
        agrees_by(
            sp_constraint_list(old(ts).toks(), old(ts).pos as int, Seq::empty()),
            r,
            |x: Vec<ConstraintExpr>| x@.map_values(|c: ConstraintExpr| c@),
            final(ts).pos as int,
        ),
{
    let ghost t = ts.toks();
    let ghost p0 = ts.pos as int;
    let mut cs: Vec<ConstraintExpr> = Vec::new();
    assert(cs@.map_values(|c: ConstraintExpr| c@) =~= Seq::empty());
    while !ts.at_close(&Token::RBrace)
        invariant
            ts.wf(),
            ts.items == old(ts).items,
            ts.toks() == t,
            old(ts).pos <= ts.pos,
            p0 == old(ts).pos,
            sp_constraint_list(t, p0, Seq::empty()) == sp_constraint_list(
                t,
                ts.pos as int,
                cs@.map_values(|c: ConstraintExpr| c@),
            ),
        decreases ts.items@.len() - ts.pos,
    {
        let c = match parse_constraint_expr(ts) {
            Ok(x) => x,
            Err(e) => return Err(e),
        };
        proof {
            assert(cs@.push(c).map_values(|c: ConstraintExpr| c@) =~= cs@.map_values(|c: ConstraintExpr| c@).push(c@));
        }
        cs.push(c);
    }
    Ok(cs)
}

/// `want { STATEMENTS }`
fn parse_want_block(ts: &mut Tokens) -> (r: Result<WantBlock, LangError>)
    requires
        old(ts).wf(),
    ensures
        moved(*old(ts), *final(ts)),
        agrees_by(
            sp_want(old(ts).toks(), old(ts).pos as int),
            r,
            |x: WantBlock| stmts_view(x.stmts@),
            final(ts).pos as int,
        ),
{
    match ts.expect_token(&Token::Want, "want") {
        Ok(_) => {},
        Err(e) => return Err(e),
    }
    match parse_block(ts, "'{' after want", "'}' closing want") {
        Ok(stmts) => Ok(WantBlock { stmts }),
        Err(e) => Err(e),
    }
}

/// `goal NAME ( PARAMS ) -> TYPE { want { ... } (constraints { ... })? }`
fn parse_goal_decl(ts: &mut Tokens) -> (r: Result<GoalDecl, LangError>)
    requires
        old(ts).wf(),
    ensures
        moved(*old(ts), *final(ts)),
        agrees(sp_goal(old(ts).toks(), old(ts).pos as int), r, final(ts).pos as int),
        r is Ok ==> final(ts).pos > old(ts).pos,
{
    reveal(sp_goal);
    match ts.expect_token(&Token::Goal, "goal") {
        Ok(_) => {},
        Err(e) => return Err(e),
    }
    let name = match ts.expect_ident() {
        Ok(n) => n,
        Err(e) => return Err(e),
    };
    match ts.expect_token(&Token::LParen, "'('") {
        Ok(_) => {},
        Err(e) => return Err(e),
    }
    let params = match parse_param_list(ts) {
        Ok(p) => p,
        Err(e) => return Err(e),
    };
    match ts.expect_token(&Token::RParen, "')'") {
        Ok(_) => {},
        Err(e) => return Err(e),
    }
    match ts.expect_token(&Token::Arrow, "'->'") {
        Ok(_) => {},
        Err(e) => return Err(e),
    }
    let ret_ty = match parse_type_expr(ts) {
        Ok(x) => x,
        Err(e) => return Err(e),
    };
    match ts.expect_token(&Token::LBrace, "'{'") {
        Ok(_) => {},
        Err(e) => return Err(e),
    }
    let want = match parse_want_block(ts) {
        Ok(w) => w,
        Err(e) => return Err(e),
    };
    let constraints = if ts.at(&Token::Constraints) {
        match parse_constraints_block(ts) {
            Ok(c) => c,
            Err(e) => return Err(e),
        }
    } else {
        let v: Vec<ConstraintExpr> = Vec::new();
        assert(v@.map_values(|c: ConstraintExpr| c@) =~= Seq::empty());
        v
    };
    match ts.expect_token(&Token::RBrace, "'}' closing goal") {
        Ok(_) => {},
        Err(e) => return Err(e),
    }
    Ok(GoalDecl { name, params, returns: ret_ty, want, constraints })
}

/// One declaration, added to `m`.
fn parse_decl(ts: &mut Tokens, m: Module) -> (r: Result<Module, LangError>)
    requires
        old(ts).wf(),
        old(ts).pos < old(ts).items@.len(),
    ensures
        moved(*old(ts), *final(ts)),
        agrees(sp_decl(old(ts).toks(), old(ts).pos as int, m@), r, final(ts).pos as int),
        r is Ok ==> final(ts).pos > old(ts).pos,
{
    reveal(sp_decl);
    let mut m = m;
    match &ts.items[ts.pos].0 {
        Token::Import => {
            let d = match parse_import_decl(ts) {
                Ok(d) => d,
                Err(e) => return Err(e),
            };
            proof {
                assert(m.imports@.push(d).map_values(|d: ImportDecl| d@) =~= m.imports@.map_values(|d: ImportDecl| d@).push(d@));
            }
            m.imports.push(d);
        },
        Token::Type => {
            let d = match parse_type_decl(ts) {
                Ok(d) => d,
                Err(e) => return Err(e),
            };
            proof {
                assert(m.types@.push(d).map_values(|d: TypeDecl| d@) =~= m.types@.map_values(|d: TypeDecl| d@).push(d@));
            }
            m.types.push(d);
        },
        Token::Capability => {
            let d = match parse_cap_decl(ts) {
                Ok(d) => d,
                Err(e) => return Err(e),
            };
            proof {
                assert(m.capabilities@.push(d).map_values(|d: CapDecl| d@) =~= m.capabilities@.map_values(|d: CapDecl| d@).push(d@));
            }
            m.capabilities.push(d);
        },
        Token::Intrinsic => {
            let d = match parse_intrinsic_decl(ts) {
                Ok(d) => d,
                Err(e) => return Err(e),
            };
            proof {
                assert(m.intrinsics@.push(d).map_values(|d: IntrinsicDecl| d@) =~= m.intrinsics@.map_values(|d: IntrinsicDecl| d@).push(d@));
            }
            m.intrinsics.push(d);
        },
        Token::Goal => {
            let d = match parse_goal_decl(ts) {
                Ok(d) => d,
                Err(e) => return Err(e),
            };
            proof {
                assert(m.goals@.push(d).map_values(|d: GoalDecl| d@) =~= m.goals@.map_values(|d: GoalDecl| d@).push(d@));
            }
            m.goals.push(d);
        },
        _ => {
            return Err(ts.error_here("import, type, capability, intrinsic, or goal declaration"));
        },
    }
    Ok(m)
}

/// Declarations up to the end of the tokens, added to `m`.
fn parse_decls(ts: &mut Tokens, start: Module) -> (r: Result<Module, LangError>)
    requires
        old(ts).wf(),
    ensures
        match sp_decls(old(ts).toks(), old(ts).pos as int, start@) {
            Ok(v) => r matches Ok(x) && x@ == v,
            Err(e) => r matches Err(x) && x@ == e,
        },
{
    let ghost t = ts.toks();
    let ghost p0 = ts.pos as int;
    let ghost m0 = start@;
    let mut m = start;
    while !ts.at_end()
        invariant
            ts.wf(),
            ts.items == old(ts).items,
            ts.toks() == t,
            t == old(ts).toks(),
            m0 == start@,
            old(ts).pos <= ts.pos,
            p0 == old(ts).pos,
            sp_decls(t, p0, m0) == sp_decls(t, ts.pos as int, m@),
        decreases ts.items@.len() - ts.pos,
    {
        let ghost mv = m@;
        let ghost p = ts.pos as int;
        assert(t.len() == ts.items@.len());
        m = match parse_decl(ts, m) {
            Ok(m2) => m2,
            Err(e) => {
                assert(sp_decls(t, p, mv) == Err::<ModuleV, LangErrorV>(e@));
                return Err(e);
            },
        };
    }
    Ok(m)
}

/// `version N(.M)? ;` followed by declarations.
fn parse_module(ts: &mut Tokens) -> (r: Result<Module, LangError>)
    requires
        old(ts).wf(),
        old(ts).pos == 0,
    ensures
        match sp_module(old(ts).toks()) {
            Ok(v) => r matches Ok(x) && x@ == v,
            Err(e) => r matches Err(x) && x@ == e,
        },
{
    if !ts.at(&Token::Version) {
        return Err(ts.error_here("version"));
    }
    ts.skip();
    let version = match parse_version_number(ts) {
        Ok(v) => v,
        Err(e) => return Err(e),
    };
    match ts.expect_token(&Token::Semicolon, "';' after version") {
        Ok(_) => {},
        Err(e) => return Err(e),
    }
    let m = Module {
        version,
        imports: Vec::new(),
        types: Vec::new(),
        capabilities: Vec::new(),
        intrinsics: Vec::new(),
        goals: Vec::new(),
    };
    proof {
        assert(m@.imports =~= Seq::empty());
        assert(m@.types =~= Seq::empty());
        assert(m@.capabilities =~= Seq::empty());
        assert(m@.intrinsics =~= Seq::empty());
        assert(m@.goals =~= Seq::empty());
    }
    parse_decls(ts, m)
}

/// Line endings normalized: `\r\n` and a lone `\r` become `\n`.
pub(crate) fn normalize_line_endings(source: &str) -> (s: String)
    ensures
        s@ == normalize_newlines(source@),
{
    let cs = chars_of(source);
    let mut out = String::new();
    let mut i: usize = 0;
    assert(cs@.skip(0) =~= cs@);
    assert(out@ + normalize_newlines(source@) =~= normalize_newlines(source@));
    while i < cs.len()
        invariant
            i <= cs@.len(),
            cs@ == source@,
            out@ + normalize_newlines(cs@.skip(i as int)) == normalize_newlines(source@),
        decreases cs@.len() - i,
    {
        let ghost rest = cs@.skip(i as int);
        if cs[i] == '\r' {
            push_char(&mut out, '\n');
            if i + 1 < cs.len() && cs[i + 1] == '\n' {
                assert(rest.skip(2) =~= cs@.skip(i + 2));
                i += 2;
            } else {
                assert(rest.skip(1) =~= cs@.skip(i + 1));
                i += 1;
            }
        } else {
            push_char(&mut out, cs[i]);
            assert(rest.skip(1) =~= cs@.skip(i + 1));
            i += 1;
        }
    }
    assert(cs@.skip(i as int) =~= Seq::<char>::empty());
    assert(out@ + Seq::<char>::empty() =~= out@);
    out
}

/// Parses a Conclave source text into an AST `Module` (not normalized):
/// line endings are normalized, the text is lexed, and the tokens parsed.
pub fn parse(source: &str) -> (r: Result<Module, LangError>)
    requires
        source@.len() < usize::MAX,
        !cuts_char(normalize_newlines(source@)),
    ensures
        match parse_spec(source@) {
            Ok(v) => r matches Ok(x) && x@ == v,
            Err(e) => r matches Err(x) && x@ == e,
        },
{
    let normalized = normalize_line_endings(source);
    proof { lemma_normalize_newlines_len(source@); }
    let spanned = match tokenize(normalized.as_str()) {
        Ok(s) => s,
        Err(e) => return Err(e),
    };
    let mut ts = Tokens::new(spanned);
    parse_module(&mut ts)
}

/// Whether lexing the line-ending-normalized source reaches a `req/s`
/// window that ends inside a character; `parse` and the lowering functions
/// leave such sources out.
pub fn source_cuts_char(source: &str) -> (r: bool)
    requires
        source@.len() < usize::MAX,
    ensures
        r == cuts_char(normalize_newlines(source@)),
{
    let normalized = normalize_line_endings(source);
    proof { lemma_normalize_newlines_len(source@); }
    lexing_cuts_char(normalized.as_str())
}

/// Normalizing line endings never makes a text longer.
pub(crate) proof fn lemma_normalize_newlines_len(s: Seq<char>)
    ensures
        normalize_newlines(s).len() <= s.len(),
    decreases s.len(),
{
    if s.len() > 0 {
        if s[0] == '\r' && s.len() >= 2 && s[1] == '\n' {
            lemma_normalize_newlines_len(s.skip(2));
        } else {
            lemma_normalize_newlines_len(s.skip(1));
        }
    }
}

/// No carriage return is left in a text whose line endings are normalized.
pub(crate) proof fn lemma_normalized_has_no_cr(s: Seq<char>)
    ensures
        forall|i: int| 0 <= i < normalize_newlines(s).len() ==> #[trigger] normalize_newlines(s)[i] != '\r',
    decreases s.len(),
{
    if s.len() > 0 {
        let k: int = if s[0] == '\r' && s.len() >= 2 && s[1] == '\n' { 2 } else { 1 };
        let head: char = if s[0] == '\r' { '\n' } else { s[0] };
        lemma_normalized_has_no_cr(s.skip(k));
        let rest = normalize_newlines(s.skip(k));
        assert(normalize_newlines(s) == seq![head] + rest);
        assert forall|i: int| 0 <= i < normalize_newlines(s).len() implies #[trigger] normalize_newlines(s)[i] != '\r' by {
            if i > 0 {
                assert(normalize_newlines(s)[i] == rest[i - 1]);
            }
        }
    }
}

/// A text without carriage returns is its own line-ending normalization.
pub(crate) proof fn lemma_no_cr_normalized(t: Seq<char>)
    requires
        forall|i: int| 0 <= i < t.len() ==> #[trigger] t[i] != '\r',
    ensures
        normalize_newlines(t) == t,
    decreases t.len(),
{
    if t.len() > 0 {
        let r = t.skip(1);
        assert forall|i: int| 0 <= i < r.len() implies #[trigger] r[i] != '\r' by {
            assert(r[i] == t[i + 1]);
        }
        lemma_no_cr_normalized(r);
        assert(seq![t[0]] + r =~= t);
    }
}

/// Normalizing line endings twice is normalizing them once.
pub proof fn lemma_normalize_newlines_idempotent(s: Seq<char>)
    ensures
        normalize_newlines(normalize_newlines(s)) == normalize_newlines(s),
{
    lemma_normalized_has_no_cr(s);
    lemma_no_cr_normalized(normalize_newlines(s));
}

} // verus!
