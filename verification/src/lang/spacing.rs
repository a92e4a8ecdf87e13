//! Spacing between tokens is not part of the token stream: a space, a tab or
//! a line break added where the lexer is skipping layout leaves the tokens
//! as they were (a line break moves the later tokens to later lines).
use vstd::prelude::*;
use crate::lang::error::LangErrorV;
use crate::lang::lexer::{
    LexStep, SpannedV, TokenV, lex, lex_from, lex_step, digits_end, word_end, blanks_end, find_char,
    count_newlines, is_digit, req_per_sec_text,
};

verus! {

/// The lexer step with its next position moved back by `a`.
pub open spec fn step_back(st: LexStep, a: int) -> LexStep {
    match st {
        LexStep::Skip(p, l) => LexStep::Skip(p - a, l),
        LexStep::Emit(t, p, l) => LexStep::Emit(t, p - a, l),
        LexStep::Fail(e) => LexStep::Fail(e),
    }
}

proof fn lemma_scan_bounds(s: Seq<char>, i: int)
    requires
        0 <= i <= s.len(),
    ensures
        i <= digits_end(s, i) <= s.len(),
        i <= word_end(s, i) <= s.len(),
        i <= blanks_end(s, i) <= s.len(),
        i <= find_char(s, i, '\n') <= s.len(),
        i <= find_char(s, i, '"') <= s.len(),
    decreases s.len() - i,
{
    if i < s.len() {
        lemma_scan_bounds(s, i + 1);
    }
}

proof fn lemma_scans_skip(u: Seq<char>, a: int, p: int)
    requires
        0 <= a <= u.len(),
        0 <= p,
    ensures
        digits_end(u, a + p) == a + digits_end(u.skip(a), p),
        word_end(u, a + p) == a + word_end(u.skip(a), p),
        blanks_end(u, a + p) == a + blanks_end(u.skip(a), p),
        find_char(u, a + p, '\n') == a + find_char(u.skip(a), p, '\n'),
        find_char(u, a + p, '"') == a + find_char(u.skip(a), p, '"'),
    decreases u.len() - (a + p),
{
    if a + p < u.len() {
        assert(u.skip(a)[p] == u[a + p]);
        lemma_scans_skip(u, a, p + 1);
    }
}

proof fn lemma_count_newlines_skip(u: Seq<char>, a: int, x: int, y: int)
    requires
        0 <= a <= u.len(),
        0 <= x,
        y <= u.len() - a,
    ensures
        count_newlines(u, a + x, a + y) == count_newlines(u.skip(a), x, y),
    decreases y - x,
{
    if x < y {
        assert(u.skip(a)[y - 1] == u[a + y - 1]);
        lemma_count_newlines_skip(u, a, x, y - 1);
    }
}

proof fn lemma_step_skip(u: Seq<char>, a: int, p: int, l: nat)
    requires
        0 <= a <= u.len(),
        0 <= p < u.len() - a,
    ensures
        step_back(lex_step(u, a + p, l), a) == lex_step(u.skip(a), p, l),
{
    let v = u.skip(a);
    assert(v.len() == u.len() - a);
    assert(v[p] == u[a + p]);
    if p + 1 < v.len() {
        assert(v[p + 1] == u[a + p + 1]);
    }
    lemma_scans_skip(u, a, p);
    lemma_scans_skip(u, a, p + 1);
    lemma_scan_bounds(v, p);
    lemma_scan_bounds(v, p + 1);
    let q = digits_end(v, p);
    lemma_scans_skip(u, a, q);
    lemma_scan_bounds(v, q);
    let la = blanks_end(v, q);
    if la + 5 <= v.len() {
        assert(u.subrange(a + la, a + la + 5) =~= v.subrange(la, la + 5));
    }
    if la + 5 < v.len() {
        assert(v[la + 5] == u[a + la + 5]);
    }
    assert(u.subrange(a + p, a + q) =~= v.subrange(p, q));
    let w = word_end(v, p);
    assert(u.subrange(a + p, a + w) =~= v.subrange(p, w));
    let sq = find_char(v, p + 1, '"');
    assert(u.subrange(a + p + 1, a + sq) =~= v.subrange(p + 1, sq));
    lemma_count_newlines_skip(u, a, p + 1, sq);
}

proof fn lemma_lex_from_skip(u: Seq<char>, a: int, p: int, l: nat, acc: Seq<SpannedV>)
    requires
        0 <= a <= u.len(),
        0 <= p,
    ensures
        lex_from(u, a + p, l, acc) == lex_from(u.skip(a), p, l, acc),
    decreases u.len() - (a + p),
{
    let v = u.skip(a);
    if a + p < u.len() {
        lemma_step_skip(u, a, p, l);
        match lex_step(v, p, l) {
            LexStep::Skip(q, l2) => if p < q <= v.len() {
                lemma_lex_from_skip(u, a, q, l2, acc);
            },
            LexStep::Emit(t, q, l2) => if p < q <= v.len() {
                lemma_lex_from_skip(u, a, q, l2, acc + t);
            },
            LexStep::Fail(_) => {},
        }
    }
}

/// The tokens of a lexed text, without their lines.
pub open spec fn kinds(ts: Seq<SpannedV>) -> Seq<TokenV> {
    ts.map_values(|x: SpannedV| x.token)
}

/// Two lexing results both fail, or both give the same tokens (lines aside).
pub open spec fn lex_agree(r1: Result<Seq<SpannedV>, LangErrorV>, r2: Result<Seq<SpannedV>, LangErrorV>) -> bool {
    &&& (r1 is Ok <==> r2 is Ok)
    &&& (r1 is Ok ==> kinds(r1->Ok_0) == kinds(r2->Ok_0))
}

proof fn lemma_kinds_append(a1: Seq<SpannedV>, a2: Seq<SpannedV>, t1: Seq<SpannedV>, t2: Seq<SpannedV>)
    requires
        kinds(a1) == kinds(a2),
        kinds(t1) == kinds(t2),
    ensures
        kinds(a1 + t1) == kinds(a2 + t2),
{
    assert(kinds(a1 + t1) =~= kinds(a1) + kinds(t1));
    assert(kinds(a2 + t2) =~= kinds(a2) + kinds(t2));
}

proof fn lemma_lex_lines(s: Seq<char>, p: int, l1: nat, l2: nat, acc1: Seq<SpannedV>, acc2: Seq<SpannedV>)
    requires
        kinds(acc1) == kinds(acc2),
    ensures
        lex_agree(lex_from(s, p, l1, acc1), lex_from(s, p, l2, acc2)),
    decreases s.len() - p,
{
    if 0 <= p < s.len() {
        lemma_scan_bounds(s, p + 1);
        let st1 = lex_step(s, p, l1);
        let st2 = lex_step(s, p, l2);
        match st1 {
            LexStep::Skip(q, m1) => {
                let m2 = st2->Skip_1;
                if p < q <= s.len() {
                    lemma_lex_lines(s, q, m1, m2, acc1, acc2);
                }
            },
            LexStep::Emit(t1, q, m1) => {
                let t2 = st2->Emit_0;
                let m2 = st2->Emit_2;
                assert(kinds(t1) =~= kinds(t2));
                lemma_kinds_append(acc1, acc2, t1, t2);
                if p < q <= s.len() {
                    lemma_lex_lines(s, q, m1, m2, acc1 + t1, acc2 + t2);
                }
            },
            LexStep::Fail(_) => {},
        }
    }
}

/// A space, a tab or a line feed.
pub open spec fn is_layout(c: char) -> bool {
    c == ' ' || c == '\t' || c == '\n'
}

/// Lexing from `pos` reaches position `i` as the start of a step (or
/// starts there).
pub open spec fn lex_visits(s: Seq<char>, pos: int, line: nat, i: int) -> bool
    decreases s.len() - pos,
{
    if pos == i {
        true
    } else if pos < 0 || pos >= s.len() {
        false
    } else {
        match lex_step(s, pos, line) {
            LexStep::Skip(p, l) => if pos < p <= s.len() { lex_visits(s, p, l, i) } else { false },
            LexStep::Emit(_, p, l) => if pos < p <= s.len() { lex_visits(s, p, l, i) } else { false },
            LexStep::Fail(_) => false,
        }
    }
}

proof fn lemma_visits_le(s: Seq<char>, pos: int, line: nat, i: int)
    requires
        lex_visits(s, pos, line, i),
    ensures
        pos <= i,
    decreases s.len() - pos,
{
    if pos != i {
        match lex_step(s, pos, line) {
            LexStep::Skip(p, l) => lemma_visits_le(s, p, l, i),
            LexStep::Emit(_, p, l) => lemma_visits_le(s, p, l, i),
            LexStep::Fail(_) => {},
        }
    }
}

/// The facts about the text with `c` inserted at `i` that the scans use.
pub open spec fn inserted_layout(s: Seq<char>, i: int, c: char) -> bool {
    &&& 0 <= i < s.len()
    &&& is_layout(s[i])
    &&& is_layout(c)
}

proof fn lemma_insert_facts(s: Seq<char>, i: int, c: char)
    requires
        inserted_layout(s, i, c),
    ensures
        s.insert(i, c).len() == s.len() + 1,
        forall|k: int| 0 <= k < i ==> #[trigger] s.insert(i, c)[k] == s[k],
        forall|k: int| i <= k < s.len() ==> #[trigger] s.insert(i, c)[k + 1] == s[k],
        s.insert(i, c)[i] == c,
        s.insert(i, c).skip(i + 1) == s.skip(i),
{
    s.insert_ensures(i, c);
    assert(s.insert(i, c).skip(i + 1) =~= s.skip(i));
}

proof fn lemma_prefix_scans(s: Seq<char>, i: int, c: char, p: int)
    requires
        inserted_layout(s, i, c),
        0 <= p <= i,
    ensures
        digits_end(s.insert(i, c), p) == digits_end(s, p),
        digits_end(s, p) <= i,
        word_end(s.insert(i, c), p) == word_end(s, p),
        word_end(s, p) <= i,
        find_char(s, p, '"') < i ==> find_char(s.insert(i, c), p, '"') == find_char(s, p, '"'),
        find_char(s, p, '\n') < i ==> find_char(s.insert(i, c), p, '\n') == find_char(s, p, '\n'),
        find_char(s, p, '\n') == i ==> find_char(s.insert(i, c), p, '\n') == (if c == '\n' { i } else { i + 1 }),
        blanks_end(s, p) < i ==> blanks_end(s.insert(i, c), p) == blanks_end(s, p),
        blanks_end(s, p) >= i ==> blanks_end(s.insert(i, c), p) == (if c == '\n' { i } else { blanks_end(s, p) + 1 }),
    decreases i - p,
{
    let s2 = s.insert(i, c);
    lemma_insert_facts(s, i, c);
    if p < i {
        lemma_prefix_scans(s, i, c, p + 1);
    } else {
        lemma_scans_skip(s2, i + 1, 0);
        lemma_scans_skip(s, i, 0);
        lemma_scan_bounds(s, i + 1);
        if s[i] == '\n' {
            assert(s2[i + 1] == '\n');
        }
    }
}

proof fn lemma_prefix_texts(s: Seq<char>, i: int, c: char, a: int, b: int)
    requires
        inserted_layout(s, i, c),
        0 <= a <= b <= i,
    ensures
        s.insert(i, c).subrange(a, b) == s.subrange(a, b),
        count_newlines(s.insert(i, c), a, b) == count_newlines(s, a, b),
    decreases b - a,
{
    lemma_insert_facts(s, i, c);
    assert(s.insert(i, c).subrange(a, b) =~= s.subrange(a, b));
    if a < b {
        lemma_prefix_texts(s, i, c, a, b - 1);
    }
}

/// The step at `pos` succeeds and continues at or before `i`.
pub open spec fn step_within(st: LexStep, pos: int, i: int) -> bool {
    match st {
        LexStep::Skip(p, _) => pos < p <= i,
        LexStep::Emit(_, p, _) => pos < p <= i,
        LexStep::Fail(_) => false,
    }
}

proof fn lemma_number_step(s: Seq<char>, i: int, c: char, pos: int, l: nat)
    requires
        inserted_layout(s, i, c),
        0 <= pos < i,
        is_digit(s[pos]),
        step_within(lex_step(s, pos, l), pos, i),
    ensures
        lex_step(s.insert(i, c), pos, l) == lex_step(s, pos, l),
{
    let s2 = s.insert(i, c);
    lemma_insert_facts(s, i, c);
    lemma_scan_bounds(s, pos);
    lemma_prefix_scans(s, i, c, pos);
    let q = digits_end(s, pos);
    lemma_prefix_texts(s, i, c, pos, q);
    lemma_scan_bounds(s, q);
    lemma_prefix_scans(s, i, c, q);
    let la = blanks_end(s, q);
    let la2 = blanks_end(s2, q);
    let r = req_per_sec_text();
    if la < i {
        assert(la2 == la);
        if la + 5 <= i {
            lemma_prefix_texts(s, i, c, la, la + 5);
            if la + 5 < i {
                assert(s2[la + 5] == s[la + 5]);
            }
        } else if la + 4 < s2.len() {
            let k = i - la;
            assert(s2.subrange(la, la + 5)[k] == c);
            assert(s2.subrange(la, la + 5) != r) by {
                assert(r[k] != c);
            }
        }
    } else {
        if c == '\n' {
            assert(la2 == i);
            if la2 + 4 < s2.len() {
                assert(s2.subrange(la2, la2 + 5)[0] == '\n');
                assert(s2.subrange(la2, la2 + 5) != r) by {
                    assert(r[0] != '\n');
                }
            }
        } else {
            assert(la2 == la + 1);
            if la + 5 <= s.len() {
                assert(s2.subrange(la2, la2 + 5) =~= s.subrange(la, la + 5));
            }
            if la + 5 < s.len() {
                assert(s2[la2 + 5] == s[la + 5]);
            }
        }
    }
}

proof fn lemma_step_prefix(s: Seq<char>, i: int, c: char, pos: int, l: nat)
    requires
        inserted_layout(s, i, c),
        0 <= pos < i,
        step_within(lex_step(s, pos, l), pos, i),
    ensures
        lex_step(s.insert(i, c), pos, l) == lex_step(s, pos, l) || (
            lex_step(s, pos, l) == LexStep::Skip(i, l) && c != '\n'
                && lex_step(s.insert(i, c), pos, l) == LexStep::Skip(i + 1, l)
        ),
{
    let s2 = s.insert(i, c);
    lemma_insert_facts(s, i, c);
    let c0 = s[pos];
    assert(s2[pos] == c0);
    assert(s2[pos + 1] == if pos + 1 < i { s[pos + 1] } else { c });
    if is_digit(c0) {
        lemma_number_step(s, i, c, pos, l);
    } else {
        lemma_scan_bounds(s, pos);
        lemma_scan_bounds(s, pos + 1);
        lemma_prefix_scans(s, i, c, pos);
        lemma_prefix_scans(s, i, c, pos + 1);
        let w = word_end(s, pos);
        lemma_prefix_texts(s, i, c, pos, w);
        let q = find_char(s, pos + 1, '"');
        if q < i {
            lemma_prefix_texts(s, i, c, pos + 1, q);
        }
    }
}

proof fn lemma_insert_from(s: Seq<char>, i: int, c: char, pos: int, l: nat, acc: Seq<SpannedV>)
    requires
        inserted_layout(s, i, c),
        0 <= pos <= i,
        lex_visits(s, pos, l, i),
    ensures
        lex_agree(lex_from(s.insert(i, c), pos, l, acc), lex_from(s, pos, l, acc)),
    decreases i - pos,
{
    let s2 = s.insert(i, c);
    lemma_insert_facts(s, i, c);
    if pos == i {
        // Both texts skip a layout character at `i`; what follows is the same text.
        let l1: nat = if s[i] == '\n' { l + 1 } else { l };
        let l2: nat = if c == '\n' { l + 1 } else { l };
        lemma_lex_from_skip(s2, i + 1, 0, l2, acc);
        lemma_lex_from_skip(s, i, 0, l2, acc);
        lemma_lex_lines(s, i, l2, l, acc, acc);
    } else {
        let st = lex_step(s, pos, l);
        match st {
            LexStep::Skip(p, m) => {
                if pos < p <= s.len() {
                    lemma_visits_le(s, p, m, i);
                }
                lemma_step_prefix(s, i, c, pos, l);
                if lex_step(s2, pos, l) == st {
                    lemma_insert_from(s, i, c, p, m, acc);
                } else {
                    lemma_lex_from_skip(s2, i + 1, 0, l, acc);
                    lemma_lex_from_skip(s, i, 0, l, acc);
                }
            },
            LexStep::Emit(t, p, m) => {
                if pos < p <= s.len() {
                    lemma_visits_le(s, p, m, i);
                }
                lemma_step_prefix(s, i, c, pos, l);
                lemma_insert_from(s, i, c, p, m, acc + t);
            },
            LexStep::Fail(_) => {},
        }
    }
}

/// A space, a tab or a line feed added before a layout character at which
/// the lexer starts a step (it is skipping layout there, not inside a token,
/// a comment or a string) leaves the tokens as they were: both texts lex,
/// or neither, and to the same tokens (a line feed moves later tokens to
/// later lines).
pub proof fn lemma_added_layout_keeps_tokens(s: Seq<char>, i: int, c: char)
    requires
        0 <= i < s.len(),
        is_layout(s[i]),
        is_layout(c),
        lex_visits(s, 0, 1, i),
    ensures
        lex_agree(lex(s.insert(i, c)), lex(s)),
{
    lemma_insert_from(s, i, c, 0, 1, Seq::empty());
}

/// A space or a tab.
pub open spec fn is_blank(c: char) -> bool {
    c == ' ' || c == '\t'
}

/// The texts have the same length and agree except where both hold a space
/// or a tab, and neither holds a double quote.
pub open spec fn blanks_swapped(a: Seq<char>, b: Seq<char>) -> bool {
    &&& a.len() == b.len()
    &&& forall|i: int| #![trigger a[i]] #![trigger b[i]] 0 <= i < a.len() ==> (a[i] == b[i] || (is_blank(a[i]) && is_blank(b[i])))
    &&& forall|i: int| #![trigger a[i]] #![trigger b[i]] 0 <= i < a.len() ==> a[i] != '"' && b[i] != '"'
}

proof fn lemma_swapped_scans(a: Seq<char>, b: Seq<char>, p: int)
    requires
        blanks_swapped(a, b),
        0 <= p <= a.len(),
    ensures
        digits_end(a, p) == digits_end(b, p),
        word_end(a, p) == word_end(b, p),
        blanks_end(a, p) == blanks_end(b, p),
        find_char(a, p, '\n') == find_char(b, p, '\n'),
        find_char(a, p, '"') == a.len(),
        find_char(b, p, '"') == b.len(),
    decreases a.len() - p,
{
    if p < a.len() {
        assert(a[p] == b[p] || (is_blank(a[p]) && is_blank(b[p])));
        lemma_swapped_scans(a, b, p + 1);
    }
}

/// Where no blank lies in `a[x..y]`, the two texts agree there.
proof fn lemma_swapped_range(a: Seq<char>, b: Seq<char>, x: int, y: int)
    requires
        blanks_swapped(a, b),
        0 <= x <= y <= a.len(),
        forall|i: int| x <= i < y ==> !is_blank(#[trigger] a[i]),
    ensures
        a.subrange(x, y) == b.subrange(x, y),
{
    assert forall|i: int| 0 <= i < y - x implies a.subrange(x, y)[i] == b.subrange(x, y)[i] by {
        assert(a[x + i] == b[x + i] || (is_blank(a[x + i]) && is_blank(b[x + i])));
    }
    assert(a.subrange(x, y) =~= b.subrange(x, y));
}

proof fn lemma_digits_not_blank(s: Seq<char>, i: int, k: int)
    requires
        0 <= i <= k < digits_end(s, i),
    ensures
        is_digit(s[k]),
    decreases k - i,
{
    if i < k {
        lemma_digits_not_blank(s, i + 1, k);
    }
}

proof fn lemma_word_not_blank(s: Seq<char>, i: int, k: int)
    requires
        0 <= i <= k < word_end(s, i),
    ensures
        !is_blank(s[k]),
    decreases k - i,
{
    if i < k {
        lemma_word_not_blank(s, i + 1, k);
    }
}

proof fn lemma_swapped_step(a: Seq<char>, b: Seq<char>, pos: int, l: nat)
    requires
        blanks_swapped(a, b),
        0 <= pos < a.len(),
    ensures
        lex_step(a, pos, l) == lex_step(b, pos, l),
{
    assert(a[pos] == b[pos] || (is_blank(a[pos]) && is_blank(b[pos])));
    if pos + 1 < a.len() {
        assert(a[pos + 1] == b[pos + 1] || (is_blank(a[pos + 1]) && is_blank(b[pos + 1])));
    }
    lemma_scan_bounds(a, pos);
    lemma_scan_bounds(a, pos + 1);
    lemma_swapped_scans(a, b, pos);
    lemma_swapped_scans(a, b, pos + 1);
    let q = digits_end(a, pos);
    assert forall|k: int| pos <= k < q implies !is_blank(#[trigger] a[k]) by {
        lemma_digits_not_blank(a, pos, k);
    }
    lemma_swapped_range(a, b, pos, q);
    lemma_scan_bounds(a, q);
    lemma_swapped_scans(a, b, q);
    let la = blanks_end(a, q);
    if la + 5 <= a.len() {
        let r = req_per_sec_text();
        if a.subrange(la, la + 5) == r {
            assert forall|k: int| la <= k < la + 5 implies !is_blank(#[trigger] a[k]) by {
                assert(a.subrange(la, la + 5)[k - la] == r[k - la]);
            }
            lemma_swapped_range(a, b, la, la + 5);
        }
        if b.subrange(la, la + 5) == r {
            assert forall|k: int| la <= k < la + 5 implies !is_blank(#[trigger] a[k]) by {
                assert(b.subrange(la, la + 5)[k - la] == r[k - la]);
                assert(a[k] == b[k] || (is_blank(a[k]) && is_blank(b[k])));
            }
            lemma_swapped_range(a, b, la, la + 5);
        }
    }
    if la + 5 < a.len() {
        assert(a[la + 5] == b[la + 5] || (is_blank(a[la + 5]) && is_blank(b[la + 5])));
    }
    let w = word_end(a, pos);
    assert forall|k: int| pos <= k < w implies !is_blank(#[trigger] a[k]) by {
        lemma_word_not_blank(a, pos, k);
    }
    lemma_swapped_range(a, b, pos, w);
}

proof fn lemma_swapped_from(a: Seq<char>, b: Seq<char>, pos: int, l: nat, acc: Seq<SpannedV>)
    requires
        blanks_swapped(a, b),
    ensures
        lex_from(a, pos, l, acc) == lex_from(b, pos, l, acc),
    decreases a.len() - pos,
{
    if 0 <= pos < a.len() {
        lemma_swapped_step(a, b, pos, l);
        match lex_step(a, pos, l) {
            LexStep::Skip(p, m) => if pos < p <= a.len() {
                lemma_swapped_from(a, b, p, m, acc);
            },
            LexStep::Emit(t, p, m) => if pos < p <= a.len() {
                lemma_swapped_from(a, b, p, m, acc + t);
            },
            LexStep::Fail(_) => {},
        }
    }
}

/// Spaces and tabs are interchangeable: in a text without string literals
/// (no double quote), turning any spaces into tabs or tabs into spaces lexes
/// to exactly the same result, tokens, lines and errors alike.
pub proof fn lemma_blanks_interchangeable(a: Seq<char>, b: Seq<char>)
    requires
        blanks_swapped(a, b),
    ensures
        lex(a) == lex(b),
{
    lemma_swapped_from(a, b, 0, 1, Seq::empty());
}

// ---------------------------------------------------------------------------
// Doubling the spaces
// ---------------------------------------------------------------------------

/// The text with every space written twice.
pub open spec fn double_spaces(a: Seq<char>) -> Seq<char>
    decreases a.len(),
{
    if a.len() == 0 {
        Seq::empty()
    } else {
        double_spaces(a.drop_last()) + (if a.last() == ' ' { seq![' ', ' '] } else { seq![a.last()] })
    }
}

/// The number of spaces among the first `p` characters.
pub open spec fn spaces_before(a: Seq<char>, p: int) -> nat
    decreases p,
{
    if p <= 0 {
        0
    } else {
        spaces_before(a, p - 1) + (if a[p - 1] == ' ' { 1nat } else { 0nat })
    }
}

/// Where position `p` of `a` lands in `double_spaces(a)`.
pub open spec fn dpos(a: Seq<char>, p: int) -> int {
    p + spaces_before(a, p)
}

proof fn lemma_spaces_before_prefix(a: Seq<char>, b: Seq<char>, p: int)
    requires
        0 <= p <= a.len(),
        p <= b.len(),
        forall|k: int| 0 <= k < p ==> a[k] == b[k],
    ensures
        spaces_before(a, p) == spaces_before(b, p),
    decreases p,
{
    if p > 0 {
        lemma_spaces_before_prefix(a, b, p - 1);
    }
}

proof fn lemma_dpos_monotone(a: Seq<char>, p: int, q: int)
    requires
        0 <= p <= q,
    ensures
        spaces_before(a, p) <= spaces_before(a, q),
        dpos(a, p) <= dpos(a, q),
        p < q ==> dpos(a, p) + 1 <= dpos(a, q),
    decreases q - p,
{
    if p < q {
        lemma_dpos_monotone(a, p, q - 1);
    }
}

proof fn lemma_double_shape(a: Seq<char>)
    ensures
        double_spaces(a).len() == dpos(a, a.len() as int),
        forall|p: int| 0 <= p < a.len() ==> #[trigger] double_spaces(a)[dpos(a, p)] == a[p],
        forall|p: int| 0 <= p < a.len() && a[p] == ' ' ==> #[trigger] double_spaces(a)[dpos(a, p) + 1] == ' ',
    decreases a.len(),
{
    if a.len() > 0 {
        let d = a.drop_last();
        lemma_double_shape(d);
        let n = a.len() - 1;
        assert forall|p: int| 0 <= p <= n implies spaces_before(d, p) == spaces_before(a, p) by {
            lemma_spaces_before_prefix(d, a, p);
        }
        let dd = double_spaces(d);
        let chunk: Seq<char> = if a.last() == ' ' { seq![' ', ' '] } else { seq![a.last()] };
        assert(double_spaces(a) == dd + chunk);
        assert forall|p: int| 0 <= p < a.len() implies #[trigger] double_spaces(a)[dpos(a, p)] == a[p] by {
            if p < n {
                assert(dpos(a, p) == dpos(d, p));
                lemma_dpos_monotone(d, p, n);
                assert(d[p] == a[p]);
                assert(dd[dpos(d, p)] == d[p]);
            } else {
                assert(dpos(a, p) == dd.len());
            }
        }
        assert forall|p: int| 0 <= p < a.len() && a[p] == ' ' implies #[trigger] double_spaces(a)[dpos(a, p) + 1] == ' ' by {
            if p < n {
                assert(dpos(a, p) == dpos(d, p));
                lemma_dpos_monotone(d, p + 1, n);
                assert(d[p] == a[p]);
                assert(dpos(d, p + 1) == dpos(d, p) + 2);
                assert(dd[dpos(d, p) + 1] == ' ');
            } else {
                assert(dpos(a, p) == dd.len());
            }
        }
    }
}

proof fn lemma_dpos_next(a: Seq<char>, p: int)
    requires
        0 <= p,
    ensures
        dpos(a, p + 1) == dpos(a, p) + (if a[p] == ' ' { 2int } else { 1int }),
{
}

proof fn lemma_double_scans(a: Seq<char>, p: int)
    requires
        0 <= p <= a.len(),
    ensures
        digits_end(double_spaces(a), dpos(a, p)) == dpos(a, digits_end(a, p)),
        word_end(double_spaces(a), dpos(a, p)) == dpos(a, word_end(a, p)),
        blanks_end(double_spaces(a), dpos(a, p)) == dpos(a, blanks_end(a, p)),
        find_char(double_spaces(a), dpos(a, p), '\n') == dpos(a, find_char(a, p, '\n')),
    decreases a.len() - p,
{
    let d = double_spaces(a);
    lemma_double_shape(a);
    if p < a.len() {
        lemma_dpos_next(a, p);
        lemma_dpos_monotone(a, p + 1, a.len() as int);
        lemma_double_scans(a, p + 1);
        assert(d[dpos(a, p)] == a[p]);
        if a[p] == ' ' {
            let x = dpos(a, p);
            assert(d[x + 1] == ' ');
            assert(blanks_end(d, x + 1) == blanks_end(d, x + 2));
            assert(blanks_end(d, x) == blanks_end(d, x + 1));
            assert(find_char(d, x + 1, '\n') == find_char(d, x + 2, '\n'));
            assert(find_char(d, x, '\n') == find_char(d, x + 1, '\n'));
        }
    }
}

/// The step of the lexer with its next position carried into the text with
/// doubled spaces.
pub open spec fn step_dpos(st: LexStep, a: Seq<char>) -> LexStep {
    match st {
        LexStep::Skip(q, l) => LexStep::Skip(dpos(a, q), l),
        LexStep::Emit(t, q, l) => LexStep::Emit(t, dpos(a, q), l),
        LexStep::Fail(e) => LexStep::Fail(e),
    }
}

/// No double quote in the text.
pub open spec fn quote_free(a: Seq<char>) -> bool {
    forall|i: int| 0 <= i < a.len() ==> #[trigger] a[i] != '"'
}

/// Where `a` holds no space in `x..y`, the doubled text holds the same
/// characters from `dpos(x)` on.
proof fn lemma_double_run(a: Seq<char>, x: int, y: int)
    requires
        0 <= x <= y <= a.len(),
        forall|k: int| x <= k < y ==> #[trigger] a[k] != ' ',
    ensures
        dpos(a, y) == dpos(a, x) + (y - x),
        double_spaces(a).subrange(dpos(a, x), dpos(a, y)) == a.subrange(x, y),
    decreases y - x,
{
    lemma_double_shape(a);
    if x < y {
        lemma_double_run(a, x, y - 1);
        lemma_dpos_next(a, y - 1);
        let d = double_spaces(a);
        assert(d[dpos(a, y - 1)] == a[y - 1]);
        lemma_dpos_monotone(a, y, a.len() as int);
        assert(d.subrange(dpos(a, x), dpos(a, y)) =~= d.subrange(dpos(a, x), dpos(a, y - 1)).push(d[dpos(a, y - 1)]));
        assert(a.subrange(x, y) =~= a.subrange(x, y - 1).push(a[y - 1]));
    } else {
        lemma_dpos_monotone(a, x, a.len() as int);
        assert(double_spaces(a).subrange(dpos(a, x), dpos(a, y)) =~= a.subrange(x, y));
    }
}

/// A window of `req/s` at `la` in `a` is one at `dpos(la)` in the doubled text.
proof fn lemma_double_window(a: Seq<char>, la: int)
    requires
        0 <= la <= a.len(),
    ensures
        (la + 4 < a.len() && a.subrange(la, la + 5) == req_per_sec_text()) <==> (dpos(a, la) + 4 < double_spaces(a).len()
            && double_spaces(a).subrange(dpos(a, la), dpos(a, la) + 5) == req_per_sec_text()),
        la + 4 < a.len() && a.subrange(la, la + 5) == req_per_sec_text() ==> dpos(a, la + 5) == dpos(a, la) + 5,
{
    let d = double_spaces(a);
    let r = req_per_sec_text();
    let x0 = dpos(a, la);
    lemma_double_shape(a);
    lemma_dpos_monotone(a, la, a.len() as int);
    if la + 4 < a.len() && a.subrange(la, la + 5) == r {
        assert forall|k: int| la <= k < la + 5 implies #[trigger] a[k] != ' ' by {
            assert(a.subrange(la, la + 5)[k - la] == r[k - la]);
        }
        lemma_double_run(a, la, la + 5);
        lemma_dpos_monotone(a, la + 5, a.len() as int);
    }
    if x0 + 4 < d.len() && d.subrange(x0, x0 + 5) == r {
        let w = d.subrange(x0, x0 + 5);
        assert forall|k: int| 0 <= k < 5 implies #[trigger] d[x0 + k] == r[k] by {
            assert(w[k] == d[x0 + k]);
        }
        assert(r[0] == 'r' && r[1] == 'e' && r[2] == 'q' && r[3] == '/' && r[4] == 's');
        assert(d[x0] == r[0] && d[x0 + 1] == r[1] && d[x0 + 2] == r[2] && d[x0 + 3] == r[3] && d[x0 + 4] == r[4]);
        // Walk the five characters.
        assert(la < a.len()) by {
            if la == a.len() {
                assert(x0 == d.len());
            }
        }
        assert(a[la] == d[x0]);
        assert(a[la] != ' ');
        lemma_dpos_next(a, la);
        assert(dpos(a, la + 1) == x0 + 1);
        assert(la + 1 < a.len()) by {
            if la + 1 == a.len() {
                assert(dpos(a, la + 1) == d.len());
            }
        }
        assert(a[la + 1] == d[x0 + 1]);
        assert(a[la + 1] != ' ');
        lemma_dpos_next(a, la + 1);
        assert(dpos(a, la + 2) == x0 + 2);
        assert(la + 2 < a.len()) by {
            if la + 2 == a.len() {
                assert(dpos(a, la + 2) == d.len());
            }
        }
        assert(a[la + 2] == d[dpos(a, la + 2)]);
        assert(a[la + 2] == d[x0 + 2]);
        assert(a[la + 2] != ' ');
        lemma_dpos_next(a, la + 2);
        assert(dpos(a, la + 3) == x0 + 3);
        assert(la + 3 < a.len()) by {
            if la + 3 == a.len() {
                assert(dpos(a, la + 3) == d.len());
            }
        }
        assert(a[la + 3] == d[dpos(a, la + 3)]);
        assert(a[la + 3] == d[x0 + 3]);
        assert(a[la + 3] != ' ');
        lemma_dpos_next(a, la + 3);
        assert(dpos(a, la + 4) == x0 + 4);
        assert(la + 4 < a.len()) by {
            if la + 4 == a.len() {
                assert(dpos(a, la + 4) == d.len());
            }
        }
        assert(a[la + 4] == d[dpos(a, la + 4)]);
        assert(a[la + 4] == d[x0 + 4]);
        assert(a.subrange(la, la + 5) =~= r);
    }
}

proof fn lemma_double_step(a: Seq<char>, p: int, l: nat)
    requires
        quote_free(a),
        0 <= p < a.len(),
        a[p] != ' ',
    ensures
        lex_step(double_spaces(a), dpos(a, p), l) == step_dpos(lex_step(a, p, l), a),
{
    let d = double_spaces(a);
    let x = dpos(a, p);
    lemma_double_shape(a);
    lemma_dpos_next(a, p);
    lemma_dpos_monotone(a, p + 1, a.len() as int);
    assert(d[x] == a[p]);
    assert(a[p] != '"');
    if p + 1 < a.len() {
        assert(d[x + 1] == a[p + 1]);
        lemma_dpos_next(a, p + 1);
    }
    lemma_double_scans(a, p);
    lemma_scan_bounds(a, p);
    let q = digits_end(a, p);
    assert forall|k: int| p <= k < q implies #[trigger] a[k] != ' ' by {
        lemma_digits_not_blank(a, p, k);
    }
    lemma_double_run(a, p, q);
    lemma_scan_bounds(a, q);
    lemma_double_scans(a, q);
    let la = blanks_end(a, q);
    lemma_double_window(a, la);
    lemma_double_shape(a);
    if la + 5 < a.len() {
        lemma_dpos_monotone(a, la + 5, a.len() as int);
        assert(d[dpos(a, la + 5)] == a[la + 5]);
    }
    let w = word_end(a, p);
    assert forall|k: int| p <= k < w implies #[trigger] a[k] != ' ' by {
        lemma_word_not_blank(a, p, k);
    }
    lemma_double_run(a, p, w);
}

proof fn lemma_double_from(a: Seq<char>, p: int, l: nat, acc: Seq<SpannedV>)
    requires
        quote_free(a),
        0 <= p <= a.len(),
    ensures
        lex_from(double_spaces(a), dpos(a, p), l, acc) == lex_from(a, p, l, acc),
    decreases a.len() - p,
{
    let d = double_spaces(a);
    let x = dpos(a, p);
    lemma_double_shape(a);
    if p < a.len() {
        lemma_dpos_next(a, p);
        lemma_dpos_monotone(a, p + 1, a.len() as int);
        assert(d[x] == a[p]);
        if a[p] == ' ' {
            assert(d[x + 1] == ' ');
            lemma_double_from(a, p + 1, l, acc);
            assert(lex_from(d, x + 1, l, acc) == lex_from(d, x + 2, l, acc));
            assert(lex_from(d, x, l, acc) == lex_from(d, x + 1, l, acc));
        } else {
            lemma_double_step(a, p, l);
            lemma_scan_bounds(a, p + 1);
            match lex_step(a, p, l) {
                LexStep::Skip(q, m) => {
                    if p < q <= a.len() {
                        lemma_dpos_monotone(a, p, q);
                        lemma_dpos_monotone(a, q, a.len() as int);
                        lemma_double_from(a, q, m, acc);
                    } else if q > a.len() {
                        lemma_dpos_monotone(a, a.len() as int, q);
                    } else if q >= 0 {
                        lemma_dpos_monotone(a, q, p);
                    }
                },
                LexStep::Emit(t, q, m) => {
                    if p < q <= a.len() {
                        lemma_dpos_monotone(a, p, q);
                        lemma_dpos_monotone(a, q, a.len() as int);
                        lemma_double_from(a, q, m, acc + t);
                    } else if q > a.len() {
                        lemma_dpos_monotone(a, a.len() as int, q);
                    } else if q >= 0 {
                        lemma_dpos_monotone(a, q, p);
                    }
                },
                LexStep::Fail(_) => {},
            }
        }
    }
}

/// Writing every space twice changes nothing the lexer gives for a text
/// without string literals (no double quote): the same tokens on the same
/// lines, or the same error.
pub proof fn lemma_doubled_spaces_lex_alike(a: Seq<char>)
    requires
        quote_free(a),
    ensures
        lex(double_spaces(a)) == lex(a),
{
    lemma_double_from(a, 0, 1, Seq::empty());
}

/// Doubling spaces brings in no character but spaces.
pub proof fn lemma_double_chars(a: Seq<char>, c: char)
    requires
        c != ' ',
        forall|k: int| 0 <= k < a.len() ==> #[trigger] a[k] != c,
    ensures
        forall|k: int| 0 <= k < double_spaces(a).len() ==> #[trigger] double_spaces(a)[k] != c,
    decreases a.len(),
{
    if a.len() > 0 {
        let d = a.drop_last();
        assert forall|k: int| 0 <= k < d.len() implies #[trigger] d[k] != c by {
            assert(d[k] == a[k]);
        }
        lemma_double_chars(d, c);
        assert(a.last() == a[a.len() - 1]);
        let dd = double_spaces(d);
        let chunk: Seq<char> = if a.last() == ' ' { seq![' ', ' '] } else { seq![a.last()] };
        assert(double_spaces(a) == dd + chunk);
        assert forall|k: int| 0 <= k < double_spaces(a).len() implies #[trigger] double_spaces(a)[k] != c by {
            if k < dd.len() {
                assert(double_spaces(a)[k] == dd[k]);
            } else {
                assert(double_spaces(a)[k] == chunk[k - dd.len()]);
            }
        }
    }
}

} // verus!
