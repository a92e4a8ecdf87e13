//! The Conclave lexer: source text to a flat list of tokens with line numbers.
use vstd::prelude::*;
use crate::lang::error::{LangError, LangErrorV, unexpected, unexpected_eof};
use crate::text::{chars_of, push_char, str_eq};

verus! {

/// A token produced by the Conclave lexer.
#[derive(Debug, Clone, PartialEq)]
pub enum Token {
    // Keywords
    Version,
    Import,
    Type,
    Capability,
    Intrinsic,
    Goal,
    Want,
    MapKeyword,
    As,
    Let,
    Emit,
    Return,
    Constraints,
    Where,
    If,
    Else,
    Reduce,
    Into,
    Pure,
    // Punctuation
    LBrace,
    RBrace,
    LParen,
    RParen,
    LAngle,
    RAngle,
    Semicolon,
    Comma,
    Colon,
    Equals,
    Arrow,
    LtEq,
    Dot,
    // Literals
    Ident(String),
    StringLit(String),
    /// Integer literal.
    Number(u64),
    // Units
    ReqPerSec,
}

/// The model of a token.
pub enum TokenV {
    Version,
    Import,
    Type,
    Capability,
    Intrinsic,
    Goal,
    Want,
    MapKeyword,
    As,
    Let,
    Emit,
    Return,
    Constraints,
    Where,
    If,
    Else,
    Reduce,
    Into,
    Pure,
    LBrace,
    RBrace,
    LParen,
    RParen,
    LAngle,
    RAngle,
    Semicolon,
    Comma,
    Colon,
    Equals,
    Arrow,
    LtEq,
    Dot,
    Ident(Seq<char>),
    StringLit(Seq<char>),
    Number(nat),
    ReqPerSec,
}

impl View for Token {
    type V = TokenV;

    open spec fn view(&self) -> TokenV {
        match self {
            Token::Version => TokenV::Version,
            Token::Import => TokenV::Import,
            Token::Type => TokenV::Type,
            Token::Capability => TokenV::Capability,
            Token::Intrinsic => TokenV::Intrinsic,
            Token::Goal => TokenV::Goal,
            Token::Want => TokenV::Want,
            Token::MapKeyword => TokenV::MapKeyword,
            Token::As => TokenV::As,
            Token::Let => TokenV::Let,
            Token::Emit => TokenV::Emit,
            Token::Return => TokenV::Return,
            Token::Constraints => TokenV::Constraints,
            Token::Where => TokenV::Where,
            Token::If => TokenV::If,
            Token::Else => TokenV::Else,
            Token::Reduce => TokenV::Reduce,
            Token::Into => TokenV::Into,
            Token::Pure => TokenV::Pure,
            Token::LBrace => TokenV::LBrace,
            Token::RBrace => TokenV::RBrace,
            Token::LParen => TokenV::LParen,
            Token::RParen => TokenV::RParen,
            Token::LAngle => TokenV::LAngle,
            Token::RAngle => TokenV::RAngle,
            Token::Semicolon => TokenV::Semicolon,
            Token::Comma => TokenV::Comma,
            Token::Colon => TokenV::Colon,
            Token::Equals => TokenV::Equals,
            Token::Arrow => TokenV::Arrow,
            Token::LtEq => TokenV::LtEq,
            Token::Dot => TokenV::Dot,
            Token::Ident(s) => TokenV::Ident(s@),
            Token::StringLit(s) => TokenV::StringLit(s@),
            Token::Number(n) => TokenV::Number(*n as nat),
            Token::ReqPerSec => TokenV::ReqPerSec,
        }
    }
}

/// A token together with the 1-based source line it starts on.
#[derive(Debug, Clone)]
pub struct Spanned {
    pub token: Token,
    pub line: usize,
}

/// The model of a spanned token.
pub struct SpannedV {
    pub token: TokenV,
    pub line: nat,
}

impl View for Spanned {
    type V = SpannedV;

    open spec fn view(&self) -> SpannedV {
        SpannedV { token: self.token@, line: self.line as nat }
    }
}

/// The models of a list of spanned tokens.
pub open spec fn spanned_views(v: Seq<Spanned>) -> Seq<SpannedV> {
    v.map_values(|x: Spanned| x@)
}

// ---------------------------------------------------------------------------
// Character classes and scans
// ---------------------------------------------------------------------------

pub open spec fn is_digit(c: char) -> bool {
    '0' <= c && c <= '9'
}

pub open spec fn is_alpha(c: char) -> bool {
    ('a' <= c && c <= 'z') || ('A' <= c && c <= 'Z')
}

/// An ASCII letter, digit or underscore.
pub open spec fn is_word_char(c: char) -> bool {
    is_alpha(c) || is_digit(c) || c == '_'
}

/// The first index at or after `i` that is not a digit (or the end).
pub open spec fn digits_end(s: Seq<char>, i: int) -> int
    decreases s.len() - i,
{
    if 0 <= i < s.len() && is_digit(s[i]) { digits_end(s, i + 1) } else { i }
}

/// The first index at or after `i` that is not a word character (or the end).
pub open spec fn word_end(s: Seq<char>, i: int) -> int
    decreases s.len() - i,
{
    if 0 <= i < s.len() && is_word_char(s[i]) { word_end(s, i + 1) } else { i }
}

/// The first index at or after `i` that is neither a space nor a tab (or the end).
pub open spec fn blanks_end(s: Seq<char>, i: int) -> int
    decreases s.len() - i,
{
    if 0 <= i < s.len() && (s[i] == ' ' || s[i] == '\t') { blanks_end(s, i + 1) } else { i }
}

/// The first index at or after `i` holding `c` (or the end).
pub open spec fn find_char(s: Seq<char>, i: int, c: char) -> int
    decreases s.len() - i,
{
    if 0 <= i < s.len() && s[i] != c { find_char(s, i + 1, c) } else { i }
}

/// The number of line feeds in `s[a..b]`.
pub open spec fn count_newlines(s: Seq<char>, a: int, b: int) -> nat
    decreases b - a,
{
    if a >= b {
        0
    } else {
        count_newlines(s, a, b - 1) + if s[b - 1] == '\n' { 1nat } else { 0nat }
    }
}

/// The value of a decimal digit.
pub open spec fn digit_value(c: char) -> nat {
    ((c as u32) - ('0' as u32)) as nat
}

/// The value of a sequence of decimal digits.
pub open spec fn digits_value(s: Seq<char>) -> nat
    decreases s.len(),
{
    if s.len() == 0 { 0 } else { digits_value(s.drop_last()) * 10 + digit_value(s.last()) }
}

/// The text `req/s`.
pub open spec fn req_per_sec_text() -> Seq<char> {
    seq!['r', 'e', 'q', '/', 's']
}

/// The first byte of the UTF-8 encoding of `c`, read as a character.
pub open spec fn utf8_lead_char(c: char) -> char {
    let u = c as u32;
    if u < 0x80 {
        c
    } else if u < 0x800 {
        (0xC0 + u / 64) as char
    } else if u < 0x10000 {
        (0xE0 + u / 4096) as char
    } else {
        (0xF0 + u / 262144) as char
    }
}

/// A keyword token, or an identifier.
pub open spec fn keyword_of(w: Seq<char>) -> TokenV {
    if w == "version"@ { TokenV::Version }
    else if w == "import"@ { TokenV::Import }
    else if w == "type"@ { TokenV::Type }
    else if w == "capability"@ { TokenV::Capability }
    else if w == "intrinsic"@ { TokenV::Intrinsic }
    else if w == "goal"@ { TokenV::Goal }
    else if w == "want"@ { TokenV::Want }
    else if w == "map"@ { TokenV::MapKeyword }
    else if w == "as"@ { TokenV::As }
    else if w == "let"@ { TokenV::Let }
    else if w == "emit"@ { TokenV::Emit }
    else if w == "return"@ { TokenV::Return }
    else if w == "constraints"@ { TokenV::Constraints }
    else if w == "where"@ { TokenV::Where }
    else if w == "if"@ { TokenV::If }
    else if w == "else"@ { TokenV::Else }
    else if w == "reduce"@ { TokenV::Reduce }
    else if w == "into"@ { TokenV::Into }
    else if w == "pure"@ { TokenV::Pure }
    else { TokenV::Ident(w) }
}

/// The token of a one-character punctuation mark.
pub open spec fn punct_token(c: char) -> Option<TokenV> {
    if c == '{' { Some(TokenV::LBrace) }
    else if c == '}' { Some(TokenV::RBrace) }
    else if c == '(' { Some(TokenV::LParen) }
    else if c == ')' { Some(TokenV::RParen) }
    else if c == '<' { Some(TokenV::LAngle) }
    else if c == '>' { Some(TokenV::RAngle) }
    else if c == ';' { Some(TokenV::Semicolon) }
    else if c == ',' { Some(TokenV::Comma) }
    else if c == ':' { Some(TokenV::Colon) }
    else if c == '=' { Some(TokenV::Equals) }
    else if c == '.' { Some(TokenV::Dot) }
    else { None }
}

/// One step of the lexer at position `pos`.
pub enum LexStep {
    /// Nothing emitted; continue at the position with the line.
    Skip(int, nat),
    /// Tokens emitted; continue at the position with the line.
    Emit(Seq<SpannedV>, int, nat),
    Fail(LangErrorV),
}

/// What the lexer does at `pos` (which is inside `s`).
pub open spec fn lex_step(s: Seq<char>, pos: int, line: nat) -> LexStep {
    let c = s[pos];
    if c == ' ' || c == '\t' || c == '\r' {
        LexStep::Skip(pos + 1, line)
    } else if c == '\n' {
        LexStep::Skip(pos + 1, line + 1)
    } else if pos + 1 < s.len() && c == '/' && s[pos + 1] == '/' {
        LexStep::Skip(find_char(s, pos, '\n'), line)
    } else if pos + 1 < s.len() && c == '-' && s[pos + 1] == '>' {
        LexStep::Emit(seq![SpannedV { token: TokenV::Arrow, line }], pos + 2, line)
    } else if pos + 1 < s.len() && c == '<' && s[pos + 1] == '=' {
        LexStep::Emit(seq![SpannedV { token: TokenV::LtEq, line }], pos + 2, line)
    } else if punct_token(c) is Some {
        LexStep::Emit(seq![SpannedV { token: punct_token(c)->0, line }], pos + 1, line)
    } else if c == '"' {
        let q = find_char(s, pos + 1, '"');
        if q >= s.len() {
            LexStep::Fail(LangErrorV::UnexpectedEof { expected: "closing '\"'"@ })
        } else {
            let l2 = line + count_newlines(s, pos + 1, q);
            LexStep::Emit(
                seq![SpannedV { token: TokenV::StringLit(s.subrange(pos + 1, q)), line }],
                q + 1,
                l2,
            )
        }
    } else if is_digit(c) {
        let q = digits_end(s, pos);
        let v = digits_value(s.subrange(pos, q));
        if v > u64::MAX {
            LexStep::Fail(LangErrorV::UnexpectedToken {
                expected: "integer"@,
                got: s.subrange(pos, q),
                line,
            })
        } else {
            let la = blanks_end(s, q);
            if la + 4 < s.len() && s.subrange(la, la + 5) == req_per_sec_text() && !(la + 5 < s.len()
                && is_word_char(s[la + 5])) {
                LexStep::Emit(
                    seq![
                        SpannedV { token: TokenV::Number(v), line },
                        SpannedV { token: TokenV::ReqPerSec, line },
                    ],
                    la + 5,
                    line,
                )
            } else {
                LexStep::Emit(seq![SpannedV { token: TokenV::Number(v), line }], q, line)
            }
        }
    } else if is_alpha(c) || c == '_' {
        let q = word_end(s, pos);
        LexStep::Emit(seq![SpannedV { token: keyword_of(s.subrange(pos, q)), line }], q, line)
    } else {
        LexStep::Fail(LangErrorV::UnexpectedToken { expected: "token"@, got: seq![utf8_lead_char(c)], line })
    }
}

/// Lexing from `pos` with `acc` already emitted.
pub open spec fn lex_from(s: Seq<char>, pos: int, line: nat, acc: Seq<SpannedV>) -> Result<Seq<SpannedV>, LangErrorV>
    decreases s.len() - pos,
{
    if pos < 0 || pos >= s.len() {
        Ok(acc)
    } else {
        match lex_step(s, pos, line) {
            LexStep::Skip(p, l) => if pos < p <= s.len() { lex_from(s, p, l, acc) } else { Ok(acc) },
            LexStep::Emit(t, p, l) => if pos < p <= s.len() { lex_from(s, p, l, acc + t) } else { Ok(acc) },
            LexStep::Fail(e) => Err(e),
        }
    }
}

/// The tokens of a source text (line endings already normalized), or the first error.
pub open spec fn lex(s: Seq<char>) -> Result<Seq<SpannedV>, LangErrorV> {
    lex_from(s, 0, 1, Seq::empty())
}

/// The number of bytes of the UTF-8 encoding of a character.
pub open spec fn utf8_width(c: char) -> nat {
    let u = c as u32;
    if u < 0x80 { 1 } else if u < 0x800 { 2 } else if u < 0x10000 { 3 } else { 4 }
}

/// The number of bytes of the UTF-8 encoding of a text.
pub open spec fn utf8_len(s: Seq<char>) -> nat
    decreases s.len(),
{
    if s.len() == 0 { 0 } else { utf8_len(s.drop_last()) + utf8_width(s.last()) }
}

/// Whether the five-byte `req/s` window at character `la` ends inside a
/// character: five bytes or more remain, and no prefix of the rest is
/// exactly five bytes long.  The window is taken by byte offsets, which
/// cannot split a character, so such a text cannot be lexed.
pub open spec fn window_cuts(s: Seq<char>, la: int) -> bool {
    &&& utf8_len(s.skip(la)) >= 5
    &&& !exists|k: int| la <= k <= s.len() && #[trigger] utf8_len(s.subrange(la, k)) == 5
}

/// Whether the lexer step at `pos` is a number whose `req/s` window cuts a character.
pub open spec fn step_cuts(s: Seq<char>, pos: int) -> bool {
    &&& is_digit(s[pos])
    &&& digits_value(s.subrange(pos, digits_end(s, pos))) <= u64::MAX
    &&& window_cuts(s, blanks_end(s, digits_end(s, pos)))
}

/// Whether lexing from `pos` reaches a step whose `req/s` window cuts a character.
pub open spec fn lex_cuts_from(s: Seq<char>, pos: int, line: nat) -> bool
    decreases s.len() - pos,
{
    if pos < 0 || pos >= s.len() {
        false
    } else if step_cuts(s, pos) {
        true
    } else {
        match lex_step(s, pos, line) {
            LexStep::Skip(p, l) => if pos < p <= s.len() { lex_cuts_from(s, p, l) } else { false },
            LexStep::Emit(_, p, l) => if pos < p <= s.len() { lex_cuts_from(s, p, l) } else { false },
            LexStep::Fail(_) => false,
        }
    }
}

/// Whether lexing the text reaches a `req/s` window that cuts a character;
/// such texts are left out of lexing.
pub open spec fn cuts_char(s: Seq<char>) -> bool {
    lex_cuts_from(s, 0, 1)
}

// ---------------------------------------------------------------------------
// Executable lexer
// ---------------------------------------------------------------------------

fn scan_digits(cs: &Vec<char>, i: usize) -> (j: usize)
    requires
        i <= cs@.len(),
    ensures
        j == digits_end(cs@, i as int),
        i <= j <= cs@.len(),
        i < cs@.len() && is_digit(cs@[i as int]) ==> j > i,
{
    let mut j = i;
    while j < cs.len() && '0' <= cs[j] && cs[j] <= '9'
        invariant
            i <= j <= cs@.len(),
            digits_end(cs@, i as int) == digits_end(cs@, j as int),
        decreases cs@.len() - j,
    {
        j += 1;
    }
    j
}

fn scan_word(cs: &Vec<char>, i: usize) -> (j: usize)
    requires
        i <= cs@.len(),
    ensures
        j == word_end(cs@, i as int),
        i <= j <= cs@.len(),
        i < cs@.len() && is_word_char(cs@[i as int]) ==> j > i,
{
    let mut j = i;
    while j < cs.len() && (('a' <= cs[j] && cs[j] <= 'z') || ('A' <= cs[j] && cs[j] <= 'Z') || ('0' <= cs[j]
        && cs[j] <= '9') || cs[j] == '_')
        invariant
            i <= j <= cs@.len(),
            word_end(cs@, i as int) == word_end(cs@, j as int),
        decreases cs@.len() - j,
    {
        j += 1;
    }
    j
}

fn scan_blanks(cs: &Vec<char>, i: usize) -> (j: usize)
    requires
        i <= cs@.len(),
    ensures
        j == blanks_end(cs@, i as int),
        i <= j <= cs@.len(),
{
    let mut j = i;
    while j < cs.len() && (cs[j] == ' ' || cs[j] == '\t')
        invariant
            i <= j <= cs@.len(),
            blanks_end(cs@, i as int) == blanks_end(cs@, j as int),
        decreases cs@.len() - j,
    {
        j += 1;
    }
    j
}

/// Finds `c` from `i`, counting the line feeds passed.
fn scan_to_char(cs: &Vec<char>, i: usize, c: char) -> (r: (usize, usize))
    requires
        i <= cs@.len(),
    ensures
        r.0 == find_char(cs@, i as int, c),
        i <= r.0 <= cs@.len(),
        r.1 == count_newlines(cs@, i as int, r.0 as int),
        r.1 <= r.0 - i,
        i < cs@.len() && cs@[i as int] != c ==> r.0 > i,
{
    let mut j = i;
    let mut nl: usize = 0;
    while j < cs.len() && cs[j] != c
        invariant
            i <= j <= cs@.len(),
            find_char(cs@, i as int, c) == find_char(cs@, j as int, c),
            nl == count_newlines(cs@, i as int, j as int),
            nl <= j - i,
        decreases cs@.len() - j,
    {
        if cs[j] == '\n' {
            nl += 1;
        }
        j += 1;
    }
    (j, nl)
}

/// The characters `cs[a..b]` as a string.
pub fn sub_string(cs: &Vec<char>, a: usize, b: usize) -> (r: String)
    requires
        a <= b <= cs@.len(),
    ensures
        r@ == cs@.subrange(a as int, b as int),
{
    let mut r = String::new();
    let mut i = a;
    while i < b
        invariant
            a <= i <= b <= cs@.len(),
            r@ == cs@.subrange(a as int, i as int),
        decreases b - i,
    {
        push_char(&mut r, cs[i]);
        assert(cs@.subrange(a as int, i + 1) == cs@.subrange(a as int, i as int).push(cs@[i as int]));
        i += 1;
    }
    r
}

/// The value of the digits `cs[a..b]`, or `None` when it exceeds `u64::MAX`.
fn digits_u64(cs: &Vec<char>, a: usize, b: usize) -> (r: Option<u64>)
    requires
        a <= b <= cs@.len(),
        forall|k: int| a <= k < b ==> is_digit(#[trigger] cs@[k]),
    ensures
        r matches Some(v) ==> v as nat == digits_value(cs@.subrange(a as int, b as int)),
        r is None ==> digits_value(cs@.subrange(a as int, b as int)) > u64::MAX,
{
    let mut v: u64 = 0;
    let mut ovf = false;
    let mut i = a;
    while i < b
        invariant
            a <= i <= b <= cs@.len(),
            forall|k: int| a <= k < b ==> is_digit(#[trigger] cs@[k]),
            !ovf ==> v as nat == digits_value(cs@.subrange(a as int, i as int)),
            ovf ==> digits_value(cs@.subrange(a as int, i as int)) > u64::MAX,
        decreases b - i,
    {
        let ghost pre = cs@.subrange(a as int, i as int);
        assert(cs@.subrange(a as int, i + 1).drop_last() == pre);
        let d = (cs[i] as u32) - ('0' as u32);
        assert(is_digit(cs@[i as int]));
        if !ovf {
            if v > (u64::MAX - (d as u64)) / 10 {
                ovf = true;
            } else {
                v = v * 10 + (d as u64);
            }
        }
        i += 1;
    }
    if ovf { None } else { Some(v) }
}

fn lead_char(c: char) -> (r: char)
    ensures
        r == utf8_lead_char(c),
{
    let u = c as u32;
    if u < 0x80 {
        c
    } else if u < 0x800 {
        ((0xC0 + u / 64) as u8) as char
    } else if u < 0x10000 {
        ((0xE0 + u / 4096) as u8) as char
    } else {
        ((0xF0 + u / 262144) as u8) as char
    }
}

fn punct(c: char) -> (r: Option<Token>)
    ensures
        match r {
            Some(t) => punct_token(c) == Some(t@),
            None => punct_token(c) is None,
        },
{
    if c == '{' { Some(Token::LBrace) }
    else if c == '}' { Some(Token::RBrace) }
    else if c == '(' { Some(Token::LParen) }
    else if c == ')' { Some(Token::RParen) }
    else if c == '<' { Some(Token::LAngle) }
    else if c == '>' { Some(Token::RAngle) }
    else if c == ';' { Some(Token::Semicolon) }
    else if c == ',' { Some(Token::Comma) }
    else if c == ':' { Some(Token::Colon) }
    else if c == '=' { Some(Token::Equals) }
    else if c == '.' { Some(Token::Dot) }
    else { None }
}

/// The keyword token for `word`, or an identifier token.
pub fn keyword_or_ident(word: &str) -> (t: Token)
    ensures
        t@ == keyword_of(word@),
{
    if str_eq(word, "version") { Token::Version }
    else if str_eq(word, "import") { Token::Import }
    else if str_eq(word, "type") { Token::Type }
    else if str_eq(word, "capability") { Token::Capability }
    else if str_eq(word, "intrinsic") { Token::Intrinsic }
    else if str_eq(word, "goal") { Token::Goal }
    else if str_eq(word, "want") { Token::Want }
    else if str_eq(word, "map") { Token::MapKeyword }
    else if str_eq(word, "as") { Token::As }
    else if str_eq(word, "let") { Token::Let }
    else if str_eq(word, "emit") { Token::Emit }
    else if str_eq(word, "return") { Token::Return }
    else if str_eq(word, "constraints") { Token::Constraints }
    else if str_eq(word, "where") { Token::Where }
    else if str_eq(word, "if") { Token::If }
    else if str_eq(word, "else") { Token::Else }
    else if str_eq(word, "reduce") { Token::Reduce }
    else if str_eq(word, "into") { Token::Into }
    else if str_eq(word, "pure") { Token::Pure }
    else { Token::Ident(String::from_str(word)) }
}

fn is_req_per_sec_at(cs: &Vec<char>, i: usize) -> (r: bool)
    requires
        i + 4 < cs@.len(),
        cs@.len() < usize::MAX,
    ensures
        r == (cs@.subrange(i as int, i + 5) == req_per_sec_text()),
{
    let r = cs[i] == 'r' && cs[i + 1] == 'e' && cs[i + 2] == 'q' && cs[i + 3] == '/' && cs[i + 4] == 's';
    if r {
        assert(cs@.subrange(i as int, i + 5) =~= req_per_sec_text());
    } else {
        assert(cs@.subrange(i as int, i + 5) != req_per_sec_text()) by {
            if cs@.subrange(i as int, i + 5) == req_per_sec_text() {
                assert(cs@.subrange(i as int, i + 5)[0] == cs@[i as int]);
                assert(cs@.subrange(i as int, i + 5)[1] == cs@[i + 1]);
                assert(cs@.subrange(i as int, i + 5)[2] == cs@[i + 2]);
                assert(cs@.subrange(i as int, i + 5)[3] == cs@[i + 3]);
                assert(cs@.subrange(i as int, i + 5)[4] == cs@[i + 4]);
            }
        }
    }
    r
}

proof fn lemma_push_spanned(v: Seq<Spanned>, x: Spanned)
    ensures
        spanned_views(v.push(x)) == spanned_views(v).push(x@),
{
    assert(spanned_views(v.push(x)) =~= spanned_views(v).push(x@));
}

fn utf8_width_exec(c: char) -> (w: usize)
    ensures
        w == utf8_width(c),
{
    let u = c as u32;
    if u < 0x80 { 1 } else if u < 0x800 { 2 } else if u < 0x10000 { 3 } else { 4 }
}

proof fn lemma_utf8_len_monotone(s: Seq<char>, la: int, k1: int, k2: int)
    requires
        0 <= la <= k1 <= k2 <= s.len(),
    ensures
        utf8_len(s.subrange(la, k1)) <= utf8_len(s.subrange(la, k2)),
    decreases k2 - k1,
{
    if k1 < k2 {
        lemma_utf8_len_monotone(s, la, k1, k2 - 1);
        assert(s.subrange(la, k2).drop_last() =~= s.subrange(la, k2 - 1));
    }
}

fn window_cuts_exec(cs: &Vec<char>, la: usize) -> (r: bool)
    requires
        la <= cs@.len(),
    ensures
        r == window_cuts(cs@, la as int),
{
    let mut b: usize = 0;
    let mut k: usize = la;
    assert(cs@.subrange(la as int, la as int) =~= Seq::<char>::empty());
    while k < cs.len() && b < 5
        invariant
            la <= k <= cs@.len(),
            b == utf8_len(cs@.subrange(la as int, k as int)),
            b < 9,
            forall|k2: int| la <= k2 < k ==> #[trigger] utf8_len(cs@.subrange(la as int, k2)) < 5,
        decreases cs@.len() - k,
    {
        let w = utf8_width_exec(cs[k]);
        assert(cs@.subrange(la as int, k + 1).drop_last() =~= cs@.subrange(la as int, k as int));
        b = b + w;
        k = k + 1;
    }
    assert(cs@.skip(la as int) =~= cs@.subrange(la as int, cs@.len() as int));
    proof { lemma_utf8_len_monotone(cs@, la as int, k as int, cs@.len() as int); }
    if b < 5 {
        return false;
    }
    if b == 5 {
        return false;
    }
    assert forall|k2: int| la <= k2 <= cs@.len() implies #[trigger] utf8_len(cs@.subrange(la as int, k2)) != 5 by {
        if k2 >= k {
            lemma_utf8_len_monotone(cs@, la as int, k as int, k2);
        }
    }
    true
}

/// Tokenize a Conclave source text whose line endings are already LF.
///
/// Returns the tokens with their 1-based lines, or the error at the first
/// character that starts no token.
pub fn tokenize(input: &str) -> (r: Result<Vec<Spanned>, LangError>)
    requires
        input@.len() < usize::MAX,
        !cuts_char(input@),
    ensures
        match lex(input@) {
            Ok(ts) => r matches Ok(v) && spanned_views(v@) == ts,
            Err(e) => r matches Err(x) && x@ == e,
        },
{
    lex_run(input).0
}

/// Whether lexing the text reaches a `req/s` window that cuts a character
/// (see `window_cuts`); `tokenize` leaves such texts out.
pub fn lexing_cuts_char(input: &str) -> (r: bool)
    requires
        input@.len() < usize::MAX,
    ensures
        r == cuts_char(input@),
{
    lex_run(input).1
}

/// The lexer's run: whether it reaches a cutting `req/s` window and, when it
/// does not, the tokens or the first error.
fn lex_run(input: &str) -> (r: (Result<Vec<Spanned>, LangError>, bool))
    requires
        input@.len() < usize::MAX,
    ensures
        r.1 == cuts_char(input@),
        !r.1 ==> match lex(input@) {
            Ok(ts) => r.0 matches Ok(v) && spanned_views(v@) == ts,
            Err(e) => r.0 matches Err(x) && x@ == e,
        },
{
    let cs = chars_of(input);
    let len = cs.len();
    let mut pos: usize = 0;
    let mut line: usize = 1;
    let mut tokens: Vec<Spanned> = Vec::new();
    assert(spanned_views(tokens@) =~= Seq::<SpannedV>::empty());
    while pos < len
        invariant
            len == cs@.len(),
            cs@ == input@,
            len < usize::MAX,
            pos <= len,
            1 <= line <= pos + 1,
            lex(input@) == lex_from(cs@, pos as int, line as nat, spanned_views(tokens@)),
            cuts_char(input@) == lex_cuts_from(cs@, pos as int, line as nat),
        decreases len - pos,
    {
        let c = cs[pos];
        let ghost acc = spanned_views(tokens@);
        if c == ' ' || c == '\t' || c == '\r' {
            pos += 1;
            continue;
        }
        if c == '\n' {
            line += 1;
            pos += 1;
            continue;
        }
        if pos + 1 < len && c == '/' && cs[pos + 1] == '/' {
            let (e, _) = scan_to_char(&cs, pos, '\n');
            pos = e;
            continue;
        }
        if pos + 1 < len && c == '-' && cs[pos + 1] == '>' {
            let sp = Spanned { token: Token::Arrow, line };
            proof { lemma_push_spanned(tokens@, sp); }
            tokens.push(sp);
            assert(acc + seq![sp@] =~= spanned_views(tokens@));
            pos += 2;
            continue;
        }
        if pos + 1 < len && c == '<' && cs[pos + 1] == '=' {
            let sp = Spanned { token: Token::LtEq, line };
            proof { lemma_push_spanned(tokens@, sp); }
            tokens.push(sp);
            assert(acc + seq![sp@] =~= spanned_views(tokens@));
            pos += 2;
            continue;
        }
        if let Some(t) = punct(c) {
            let sp = Spanned { token: t, line };
            proof { lemma_push_spanned(tokens@, sp); }
            tokens.push(sp);
            assert(acc + seq![sp@] =~= spanned_views(tokens@));
            pos += 1;
            continue;
        }
        if c == '"' {
            let (q, nl) = scan_to_char(&cs, pos + 1, '"');
            if q >= len {
                return (Err(unexpected_eof("closing '\"'")), false);
            }
            let sp = Spanned { token: Token::StringLit(sub_string(&cs, pos + 1, q)), line };
            proof { lemma_push_spanned(tokens@, sp); }
            tokens.push(sp);
            assert(acc + seq![sp@] =~= spanned_views(tokens@));
            line = line + nl;
            pos = q + 1;
            continue;
        }
        if '0' <= c && c <= '9' {
            let q = scan_digits(&cs, pos);
            assert forall|k: int| pos <= k < q implies is_digit(#[trigger] cs@[k]) by {
                lemma_digits_end(cs@, pos as int, k);
            }
            let v = match digits_u64(&cs, pos, q) {
                Some(v) => v,
                None => {
                    return (Err(unexpected("integer", sub_string(&cs, pos, q), line)), false);
                },
            };
            let la = scan_blanks(&cs, q);
            if window_cuts_exec(&cs, la) {
                return (Err(unexpected("integer", sub_string(&cs, pos, q), line)), true);
            }
            if la < len && len - la > 4 && is_req_per_sec_at(&cs, la) {
                let after = la + 5;
                let next_is_word = after < len && (('a' <= cs[after] && cs[after] <= 'z') || ('A' <= cs[after]
                    && cs[after] <= 'Z') || ('0' <= cs[after] && cs[after] <= '9') || cs[after] == '_');
                if !next_is_word {
                    let sp1 = Spanned { token: Token::Number(v), line };
                    let sp2 = Spanned { token: Token::ReqPerSec, line };
                    proof { lemma_push_spanned(tokens@, sp1); }
                    tokens.push(sp1);
                    proof { lemma_push_spanned(tokens@, sp2); }
                    tokens.push(sp2);
                    assert(acc + seq![sp1@, sp2@] =~= spanned_views(tokens@));
                    pos = after;
                    continue;
                }
            }
            let sp = Spanned { token: Token::Number(v), line };
            proof { lemma_push_spanned(tokens@, sp); }
            tokens.push(sp);
            assert(acc + seq![sp@] =~= spanned_views(tokens@));
            pos = q;
            continue;
        }
        if ('a' <= c && c <= 'z') || ('A' <= c && c <= 'Z') || c == '_' {
            let q = scan_word(&cs, pos);
            let word = sub_string(&cs, pos, q);
            let sp = Spanned { token: keyword_or_ident(word.as_str()), line };
            proof { lemma_push_spanned(tokens@, sp); }
            tokens.push(sp);
            assert(acc + seq![sp@] =~= spanned_views(tokens@));
            pos = q;
            continue;
        }
        let mut got = String::new();
        push_char(&mut got, lead_char(c));
        return (Err(unexpected("token", got, line)), false);
    }
    (Ok(tokens), false)
}

proof fn lemma_digits_end(s: Seq<char>, i: int, k: int)
    requires
        0 <= i <= k < digits_end(s, i),
    ensures
        is_digit(s[k]),
    decreases k - i,
{
    if i < k {
        lemma_digits_end(s, i + 1, k);
    }
}

} // verus!
