//! JSON values and their canonical form: object keys sorted at every level,
//! array order preserved, integers in plain decimal, no whitespace.
use vstd::prelude::*;
use crate::text::{
    decimal_int, push_char, push_decimal_i128, push_str, seq_lt, str_eq, str_lt, lemma_seq_lt_total,
    lemma_seq_lt_transitive, lemma_seq_lt_irreflexive,
};
use crate::hash::hex_digit;

verus! {

/// A JSON value.
#[derive(Debug)]
pub enum JsonValue {
    Null,
    Bool(bool),
    /// An integral number.
    Int(i128),
    /// A non-integral number, kept in its JSON text.
    Decimal(String),
    Str(String),
    Array(Vec<JsonValue>),
    /// Members in order; a later member overrides an earlier one of the same key.
    Object(Vec<(String, JsonValue)>),
}

/// The mathematical model of a JSON value.
pub enum SJson {
    Null,
    Bool(bool),
    Int(int),
    Decimal(Seq<char>),
    Str(Seq<char>),
    Array(Seq<SJson>),
    Object(Seq<(Seq<char>, SJson)>),
}

/// The model of a JSON value.
pub open spec fn json_view(j: JsonValue) -> SJson
    decreases j,
{
    match j {
        JsonValue::Null => SJson::Null,
        JsonValue::Bool(b) => SJson::Bool(b),
        JsonValue::Int(i) => SJson::Int(i as int),
        JsonValue::Decimal(t) => SJson::Decimal(t@),
        JsonValue::Str(s) => SJson::Str(s@),
        JsonValue::Array(a) => SJson::Array(view_elems(a@)),
        JsonValue::Object(ps) => SJson::Object(view_members(ps@)),
    }
}

/// The models of array elements.
pub open spec fn view_elems(s: Seq<JsonValue>) -> Seq<SJson>
    decreases s,
{
    if s.len() == 0 {
        Seq::empty()
    } else {
        view_elems(s.drop_last()).push(json_view(s.last()))
    }
}

/// The models of object members.
pub open spec fn view_members(s: Seq<(String, JsonValue)>) -> Seq<(Seq<char>, SJson)>
    decreases s,
{
    if s.len() == 0 {
        Seq::empty()
    } else {
        view_members(s.drop_last()).push((s.last().0@, json_view(s.last().1)))
    }
}

impl View for JsonValue {
    type V = SJson;

    open spec fn view(&self) -> SJson {
        json_view(*self)
    }
}

// ---------------------------------------------------------------------------
// Canonical form
// ---------------------------------------------------------------------------

/// Insert a member into a key-sorted member list; an equal key has its value replaced.
pub open spec fn insert_member(ps: Seq<(Seq<char>, SJson)>, k: Seq<char>, v: SJson) -> Seq<(Seq<char>, SJson)>
    decreases ps.len(),
{
    if ps.len() == 0 {
        seq![(k, v)]
    } else if k == ps[0].0 {
        seq![(k, v)] + ps.drop_first()
    } else if seq_lt(k, ps[0].0) {
        seq![(k, v)] + ps
    } else {
        seq![ps[0]] + insert_member(ps.drop_first(), k, v)
    }
}

/// Members collected in order into a key-sorted map (later members override).
pub open spec fn sort_members(ps: Seq<(Seq<char>, SJson)>) -> Seq<(Seq<char>, SJson)>
    decreases ps.len(),
{
    if ps.len() == 0 {
        Seq::empty()
    } else {
        insert_member(sort_members(ps.drop_last()), ps.last().0, ps.last().1)
    }
}

/// The canonical form of a JSON value: objects become key-sorted maps, recursively.
pub open spec fn canon(j: SJson) -> SJson
    decreases j,
{
    match j {
        SJson::Array(a) => SJson::Array(canon_elems(a)),
        SJson::Object(ps) => SJson::Object(sort_members(canon_members(ps))),
        _ => j,
    }
}

/// Canonical forms of array elements.
pub open spec fn canon_elems(s: Seq<SJson>) -> Seq<SJson>
    decreases s,
{
    if s.len() == 0 {
        Seq::empty()
    } else {
        canon_elems(s.drop_last()).push(canon(s.last()))
    }
}

/// Members with canonical values, in their original order.
pub open spec fn canon_members(s: Seq<(Seq<char>, SJson)>) -> Seq<(Seq<char>, SJson)>
    decreases s,
{
    if s.len() == 0 {
        Seq::empty()
    } else {
        canon_members(s.drop_last()).push((s.last().0, canon(s.last().1)))
    }
}

// ---------------------------------------------------------------------------
// Text
// ---------------------------------------------------------------------------

/// The JSON escape of one character inside a string literal.
pub open spec fn escape_char(c: char) -> Seq<char> {
    if c == '"' {
        seq!['\\', '"']
    } else if c == '\\' {
        seq!['\\', '\\']
    } else if c == '\x08' {
        seq!['\\', 'b']
    } else if c == '\t' {
        seq!['\\', 't']
    } else if c == '\n' {
        seq!['\\', 'n']
    } else if c == '\x0c' {
        seq!['\\', 'f']
    } else if c == '\r' {
        seq!['\\', 'r']
    } else if (c as u32) < 0x20 {
        seq!['\\', 'u', '0', '0', hex_digit(((c as u32) / 16) as nat), hex_digit(((c as u32) % 16) as nat)]
    } else {
        seq![c]
    }
}

/// The escaped characters of a string.
pub open spec fn escape_str(s: Seq<char>) -> Seq<char>
    decreases s.len(),
{
    if s.len() == 0 {
        Seq::empty()
    } else {
        escape_str(s.drop_last()) + escape_char(s.last())
    }
}

/// A JSON string literal.
pub open spec fn json_quote(s: Seq<char>) -> Seq<char> {
    seq!['"'] + escape_str(s) + seq!['"']
}

/// Compact JSON text of a value.
pub open spec fn ser(j: SJson) -> Seq<char>
    decreases j,
{
    match j {
        SJson::Null => seq!['n', 'u', 'l', 'l'],
        SJson::Bool(b) => if b { seq!['t', 'r', 'u', 'e'] } else { seq!['f', 'a', 'l', 's', 'e'] },
        SJson::Int(i) => decimal_int(i),
        SJson::Decimal(t) => t,
        SJson::Str(s) => json_quote(s),
        SJson::Array(a) => seq!['['] + ser_elems(a) + seq![']'],
        SJson::Object(ps) => seq!['{'] + ser_members(ps) + seq!['}'],
    }
}

/// Array elements separated by commas.
pub open spec fn ser_elems(a: Seq<SJson>) -> Seq<char>
    decreases a,
{
    if a.len() == 0 {
        Seq::empty()
    } else if a.len() == 1 {
        ser(a[0])
    } else {
        ser_elems(a.drop_last()) + seq![','] + ser(a.last())
    }
}

/// Object members `"key":value` separated by commas.
pub open spec fn ser_members(ps: Seq<(Seq<char>, SJson)>) -> Seq<char>
    decreases ps,
{
    if ps.len() == 0 {
        Seq::empty()
    } else if ps.len() == 1 {
        json_quote(ps[0].0) + seq![':'] + ser(ps[0].1)
    } else {
        ser_members(ps.drop_last()) + seq![','] + json_quote(ps.last().0) + seq![':'] + ser(ps.last().1)
    }
}

/// The canonical JSON text of a value.
pub open spec fn canonical_text(j: SJson) -> Seq<char> {
    ser(canon(j))
}

/// Members without the given key.
pub open spec fn remove_key(ps: Seq<(Seq<char>, SJson)>, k: Seq<char>) -> Seq<(Seq<char>, SJson)>
    decreases ps.len(),
{
    if ps.len() == 0 {
        Seq::empty()
    } else if ps.last().0 == k {
        remove_key(ps.drop_last(), k)
    } else {
        remove_key(ps.drop_last(), k).push(ps.last())
    }
}

/// An object without the given top-level key; other values unchanged.
pub open spec fn remove_top(j: SJson, k: Seq<char>) -> SJson {
    match j {
        SJson::Object(ps) => SJson::Object(remove_key(ps, k)),
        _ => j,
    }
}

/// A value with the given key removed from every object at every depth.
pub open spec fn strip_key(j: SJson, k: Seq<char>) -> SJson
    decreases j,
{
    match j {
        SJson::Object(ps) => SJson::Object(strip_members(ps, k)),
        SJson::Array(a) => SJson::Array(strip_elems(a, k)),
        _ => j,
    }
}

/// Members without key `k`, the remaining values stripped of `k`.
pub open spec fn strip_members(ps: Seq<(Seq<char>, SJson)>, k: Seq<char>) -> Seq<(Seq<char>, SJson)>
    decreases ps,
{
    if ps.len() == 0 {
        Seq::empty()
    } else if ps.last().0 == k {
        strip_members(ps.drop_last(), k)
    } else {
        strip_members(ps.drop_last(), k).push((ps.last().0, strip_key(ps.last().1, k)))
    }
}

/// Array elements stripped of key `k`.
pub open spec fn strip_elems(a: Seq<SJson>, k: Seq<char>) -> Seq<SJson>
    decreases a,
{
    if a.len() == 0 {
        Seq::empty()
    } else {
        strip_elems(a.drop_last(), k).push(strip_key(a.last(), k))
    }
}

/// Removal of the leaf key at a path of object keys; parents stay.  A path of one
/// key removes it at the top level; a longer path descends into each member
/// whose key is the first path element.
pub open spec fn remove_at_path(j: SJson, path: Seq<Seq<char>>) -> SJson
    decreases path.len(),
{
    if path.len() == 0 {
        j
    } else if path.len() == 1 {
        remove_top(j, path[0])
    } else {
        match j {
            SJson::Object(ps) => SJson::Object(Seq::new(
                ps.len(),
                |i: int|
                    if ps[i].0 == path[0] {
                        (ps[i].0, remove_at_path(ps[i].1, path.drop_first()))
                    } else {
                        ps[i]
                    },
            )),
            _ => j,
        }
    }
}

// ---------------------------------------------------------------------------
// Lemmas on the models
// ---------------------------------------------------------------------------

pub proof fn lemma_view_elems(s: Seq<JsonValue>)
    ensures
        view_elems(s).len() == s.len(),
        forall|i: int| 0 <= i < s.len() ==> #[trigger] view_elems(s)[i] == json_view(s[i]),
    decreases s.len(),
{
    if s.len() > 0 {
        lemma_view_elems(s.drop_last());
    }
}

pub proof fn lemma_view_members(s: Seq<(String, JsonValue)>)
    ensures
        view_members(s).len() == s.len(),
        forall|i: int|
            0 <= i < s.len() ==> #[trigger] view_members(s)[i] == (s[i].0@, json_view(s[i].1)),
    decreases s.len(),
{
    if s.len() > 0 {
        lemma_view_members(s.drop_last());
    }
}

proof fn lemma_insert_member_at(ps: Seq<(Seq<char>, SJson)>, k: Seq<char>, v: SJson, j: int)
    requires
        0 <= j <= ps.len(),
        forall|i: int| 0 <= i < j ==> ps[i].0 != k && !seq_lt(k, #[trigger] ps[i].0),
        j < ps.len() ==> (ps[j].0 == k || seq_lt(k, ps[j].0)),
    ensures
        j < ps.len() && ps[j].0 == k ==> insert_member(ps, k, v) == ps.update(j, (k, v)),
        !(j < ps.len() && ps[j].0 == k) ==> insert_member(ps, k, v) == ps.insert(j, (k, v)),
    decreases j,
{
    if j == 0 {
        if ps.len() > 0 && ps[0].0 == k {
            assert(seq![(k, v)] + ps.drop_first() =~= ps.update(0, (k, v)));
        } else if ps.len() > 0 {
            assert(seq![(k, v)] + ps =~= ps.insert(0, (k, v)));
        } else {
            assert(seq![(k, v)] =~= ps.insert(0, (k, v)));
        }
    } else {
        let t = ps.drop_first();
        assert forall|i: int| 0 <= i < j - 1 implies t[i].0 != k && !seq_lt(k, #[trigger] t[i].0) by {
            assert(t[i] == ps[i + 1]);
        }
        lemma_insert_member_at(t, k, v, j - 1);
        assert(ps[0].0 != k && !seq_lt(k, ps[0].0));
        if j < ps.len() && ps[j].0 == k {
            assert(seq![ps[0]] + t.update(j - 1, (k, v)) =~= ps.update(j, (k, v)));
        } else {
            assert(seq![ps[0]] + t.insert(j - 1, (k, v)) =~= ps.insert(j, (k, v)));
        }
    }
}

// ---------------------------------------------------------------------------
// Executable operations
// ---------------------------------------------------------------------------

/// `serde_json::to_string` of a string: the JSON string literal, with `"`, `\`
/// and control characters escaped by the crate's `ESCAPE` table (`\b \t \n \f \r`,
/// other controls as `\u00XX` with lower-case hex digits), every other character
/// unchanged.  Serializing a string into memory cannot fail, so the error arm
/// is never taken.
#[verifier::external_body]
fn json_string_literal(s: &str) -> (r: String)
    ensures
        r@ == json_quote(s@),
{
    match serde_json::to_string(s) {
        Ok(t) => t,
        Err(_) => String::new(),
    }
}

impl Clone for JsonValue {
    fn clone(&self) -> (r: Self)
        ensures
            r@ == self@,
        decreases self,
    {
        match self {
            JsonValue::Null => JsonValue::Null,
            JsonValue::Bool(b) => JsonValue::Bool(*b),
            JsonValue::Int(i) => JsonValue::Int(*i),
            JsonValue::Decimal(t) => JsonValue::Decimal(t.clone()),
            JsonValue::Str(t) => JsonValue::Str(t.clone()),
            JsonValue::Array(a) => {
                let mut out: Vec<JsonValue> = Vec::new();
                let mut i: usize = 0;
                while i < a.len()
                    invariant
                        i <= a@.len(),
                        *self == JsonValue::Array(*a),
                        view_elems(out@) == view_elems(a@.take(i as int)),
                    decreases a@.len() - i,
                {
                    let ghost before = out@;
                    proof {
                        assert(decreases_to!(*self => self->Array_0));
                        assert(decreases_to!(*a => a@));
                        assert(decreases_to!(a@ => a@[i as int]));
                    }
                    let e = a[i].clone();
                    out.push(e);
                    proof {
                        assert(out@.drop_last() =~= before);
                        assert(a@.take(i + 1).drop_last() =~= a@.take(i as int));
                    }
                    i += 1;
                }
                assert(a@.take(a@.len() as int) =~= a@);
                JsonValue::Array(out)
            },
            JsonValue::Object(ps) => {
                let mut out: Vec<(String, JsonValue)> = Vec::new();
                let mut i: usize = 0;
                while i < ps.len()
                    invariant
                        i <= ps@.len(),
                        *self == JsonValue::Object(*ps),
                        view_members(out@) == view_members(ps@.take(i as int)),
                    decreases ps@.len() - i,
                {
                    let ghost before = out@;
                    let k = ps[i].0.clone();
                    proof {
                        assert(decreases_to!(*self => self->Object_0));
                        assert(decreases_to!(*ps => ps@));
                        assert(decreases_to!(ps@ => ps@[i as int]));
                        assert(decreases_to!(ps@[i as int] => ps@[i as int].1));
                    }
                    let e = ps[i].1.clone();
                    out.push((k, e));
                    proof {
                        assert(out@.drop_last() =~= before);
                        assert(ps@.take(i + 1).drop_last() =~= ps@.take(i as int));
                    }
                    i += 1;
                }
                assert(ps@.take(ps@.len() as int) =~= ps@);
                JsonValue::Object(out)
            },
        }
    }
}

/// Appends the compact JSON text of `v` to `out`.
fn write_json(out: &mut String, v: &JsonValue)
    ensures
        final(out)@ == old(out)@ + ser(v@),
    decreases v,
{
    match v {
        JsonValue::Null => {
            push_str(out, "null");
            proof { reveal_strlit("null"); }
            assert(final(out)@ =~= old(out)@ + ser(v@));
        },
        JsonValue::Bool(b) => {
            if *b {
                push_str(out, "true");
                proof { reveal_strlit("true"); }
            } else {
                push_str(out, "false");
                proof { reveal_strlit("false"); }
            }
            assert(out@ =~= old(out)@ + ser(v@));
        },
        JsonValue::Int(i) => {
            push_decimal_i128(out, *i);
        },
        JsonValue::Decimal(t) => {
            push_str(out, t.as_str());
        },
        JsonValue::Str(t) => {
            let q = json_string_literal(t.as_str());
            push_str(out, q.as_str());
        },
        JsonValue::Array(a) => {
            let ghost start = out@;
            push_char(out, '[');
            let mut i: usize = 0;
            while i < a.len()
                invariant
                    i <= a@.len(),
                    *v == JsonValue::Array(*a),
                    out@ == start.push('[') + ser_elems(view_elems(a@.take(i as int))),
                decreases a@.len() - i,
            {
                let ghost mid = out@;
                if i > 0 {
                    push_char(out, ',');
                }
                proof {
                    assert(decreases_to!(*v => v->Array_0));
                    assert(decreases_to!(*a => a@));
                    assert(decreases_to!(a@ => a@[i as int]));
                }
                write_json(out, &a[i]);
                proof {
                    let t = a@.take(i + 1);
                    assert(t.drop_last() =~= a@.take(i as int));
                    lemma_view_elems(t);
                    lemma_view_elems(a@.take(i as int));
                    assert(view_elems(t).drop_last() =~= view_elems(a@.take(i as int)));
                    if i == 0 {
                        assert(view_elems(a@.take(i as int)) =~= Seq::<SJson>::empty());
                        assert(out@ =~= start.push('[') + ser_elems(view_elems(t)));
                    } else {
                        assert(out@ =~= start.push('[') + ser_elems(view_elems(t)));
                    }
                }
                i += 1;
            }
            push_char(out, ']');
            assert(a@.take(a@.len() as int) =~= a@);
            assert(out@ =~= old(out)@ + ser(v@));
        },
        JsonValue::Object(ps) => {
            let ghost start = out@;
            push_char(out, '{');
            let mut i: usize = 0;
            while i < ps.len()
                invariant
                    i <= ps@.len(),
                    *v == JsonValue::Object(*ps),
                    out@ == start.push('{') + ser_members(view_members(ps@.take(i as int))),
                decreases ps@.len() - i,
            {
                if i > 0 {
                    push_char(out, ',');
                }
                let q = json_string_literal(ps[i].0.as_str());
                push_str(out, q.as_str());
                push_char(out, ':');
                proof {
                    assert(decreases_to!(*v => v->Object_0));
                    assert(decreases_to!(*ps => ps@));
                    assert(decreases_to!(ps@ => ps@[i as int]));
                    assert(decreases_to!(ps@[i as int] => ps@[i as int].1));
                }
                write_json(out, &ps[i].1);
                proof {
                    let t = ps@.take(i + 1);
                    assert(t.drop_last() =~= ps@.take(i as int));
                    lemma_view_members(t);
                    lemma_view_members(ps@.take(i as int));
                    assert(view_members(t).drop_last() =~= view_members(ps@.take(i as int)));
                    assert(out@ =~= start.push('{') + ser_members(view_members(t)));
                }
                i += 1;
            }
            push_char(out, '}');
            assert(ps@.take(ps@.len() as int) =~= ps@);
            assert(out@ =~= old(out)@ + ser(v@));
        },
    }
}

/// Compact JSON text of a value (members in their stored order).
pub fn to_json_text(v: &JsonValue) -> (s: String)
    ensures
        s@ == ser(v@),
{
    let mut s = String::new();
    write_json(&mut s, v);
    assert(s@ =~= ser(v@));
    s
}

/// Inserts a member into a key-sorted member list, replacing the value of an equal key.
fn insert_member_exec(ps: &mut Vec<(String, JsonValue)>, k: String, v: JsonValue)
    ensures
        view_members(final(ps)@) == insert_member(view_members(old(ps)@), k@, v@),
{
    let ghost vm = view_members(ps@);
    proof {
        lemma_view_members(ps@);
    }
    let mut j: usize = 0;
    while j < ps.len() && !str_eq(k.as_str(), ps[j].0.as_str()) && !str_lt(k.as_str(), ps[j].0.as_str())
        invariant
            j <= ps@.len(),
            vm == view_members(ps@),
            vm.len() == ps@.len(),
            forall|i: int| 0 <= i < ps@.len() ==> #[trigger] vm[i] == (ps@[i].0@, json_view(ps@[i].1)),
            forall|i: int| 0 <= i < j ==> vm[i].0 != k@ && !seq_lt(k@, #[trigger] vm[i].0),
        decreases ps@.len() - j,
    {
        j += 1;
    }
    let found = j < ps.len() && str_eq(k.as_str(), ps[j].0.as_str());
    proof {
        lemma_insert_member_at(vm, k@, v@, j as int);
    }
    if found {
        ps.set(j, (k, v));
        proof {
            lemma_view_members(ps@);
            assert(view_members(ps@) =~= vm.update(j as int, (k@, v@)));
        }
    } else {
        ps.insert(j, (k, v));
        proof {
            lemma_view_members(ps@);
            assert(view_members(ps@) =~= vm.insert(j as int, (k@, v@)));
        }
    }
}

/// The canonical form of a value: object keys sorted (later duplicates override),
/// recursively; array order kept.
pub fn canonicalize(v: &JsonValue) -> (r: JsonValue)
    ensures
        r@ == canon(v@),
    decreases v,
{
    match v {
        JsonValue::Array(a) => {
            let mut out: Vec<JsonValue> = Vec::new();
            let mut i: usize = 0;
            while i < a.len()
                invariant
                    i <= a@.len(),
                    *v == JsonValue::Array(*a),
                    view_elems(out@) == canon_elems(view_elems(a@.take(i as int))),
                decreases a@.len() - i,
            {
                proof {
                    assert(decreases_to!(*v => v->Array_0));
                    assert(decreases_to!(*a => a@));
                    assert(decreases_to!(a@ => a@[i as int]));
                }
                let ghost before = out@;
                let e = canonicalize(&a[i]);
                out.push(e);
                proof {
                    assert(out@.drop_last() =~= before);
                    assert(a@.take(i + 1).drop_last() =~= a@.take(i as int));
                    assert(view_elems(a@.take(i + 1)).drop_last() =~= view_elems(a@.take(i as int)));
                }
                i += 1;
            }
            assert(a@.take(a@.len() as int) =~= a@);
            JsonValue::Array(out)
        },
        JsonValue::Object(ps) => {
            let mut out: Vec<(String, JsonValue)> = Vec::new();
            let mut i: usize = 0;
            while i < ps.len()
                invariant
                    i <= ps@.len(),
                    *v == JsonValue::Object(*ps),
                    view_members(out@) == sort_members(canon_members(view_members(ps@.take(i as int)))),
                decreases ps@.len() - i,
            {
                proof {
                    assert(decreases_to!(*v => v->Object_0));
                    assert(decreases_to!(*ps => ps@));
                    assert(decreases_to!(ps@ => ps@[i as int]));
                    assert(decreases_to!(ps@[i as int] => ps@[i as int].1));
                }
                let k = ps[i].0.clone();
                let e = canonicalize(&ps[i].1);
                insert_member_exec(&mut out, k, e);
                proof {
                    let t = ps@.take(i + 1);
                    assert(t.drop_last() =~= ps@.take(i as int));
                    let tv = view_members(t);
                    assert(tv.drop_last() =~= view_members(ps@.take(i as int)));
                    let cm = canon_members(tv);
                    assert(cm.drop_last() =~= canon_members(view_members(ps@.take(i as int))));
                }
                i += 1;
            }
            assert(ps@.take(ps@.len() as int) =~= ps@);
            JsonValue::Object(out)
        },
        _ => v.clone(),
    }
}

/// Serialize a JSON value to canonical form: object keys sorted at every level,
/// array order preserved, integers in plain decimal, no insignificant whitespace.
pub fn to_canonical_json(value: &JsonValue) -> (s: String)
    ensures
        s@ == canonical_text(value@),
{
    let c = canonicalize(value);
    to_json_text(&c)
}

fn without_key(ps: &Vec<(String, JsonValue)>, field: &str) -> (r: Vec<(String, JsonValue)>)
    ensures
        view_members(r@) == remove_key(view_members(ps@), field@),
{
    let mut out: Vec<(String, JsonValue)> = Vec::new();
    let mut i: usize = 0;
    while i < ps.len()
        invariant
            i <= ps@.len(),
            view_members(out@) == remove_key(view_members(ps@.take(i as int)), field@),
        decreases ps@.len() - i,
    {
        let ghost before = out@;
        if !str_eq(ps[i].0.as_str(), field) {
            out.push((ps[i].0.clone(), ps[i].1.clone()));
            assert(out@.drop_last() =~= before);
        }
        proof {
            let t = ps@.take(i + 1);
            assert(t.drop_last() =~= ps@.take(i as int));
            assert(view_members(t).drop_last() =~= view_members(ps@.take(i as int)));
        }
        i += 1;
    }
    assert(ps@.take(ps@.len() as int) =~= ps@);
    out
}

/// Remove a key from the top level of a JSON object (non-recursive); other values
/// are unchanged.
pub fn remove_field(value: &mut JsonValue, field: &str)
    ensures
        final(value)@ == remove_top(old(value)@, field@),
{
    if let JsonValue::Object(ps) = value {
        let r = without_key(ps, field);
        *value = JsonValue::Object(r);
    }
}

fn stripped(v: &JsonValue, field: &str) -> (r: JsonValue)
    ensures
        r@ == strip_key(v@, field@),
    decreases v,
{
    match v {
        JsonValue::Array(a) => {
            let mut out: Vec<JsonValue> = Vec::new();
            let mut i: usize = 0;
            while i < a.len()
                invariant
                    i <= a@.len(),
                    *v == JsonValue::Array(*a),
                    view_elems(out@) == strip_elems(view_elems(a@.take(i as int)), field@),
                decreases a@.len() - i,
            {
                proof {
                    assert(decreases_to!(*v => v->Array_0));
                    assert(decreases_to!(*a => a@));
                    assert(decreases_to!(a@ => a@[i as int]));
                }
                let ghost before = out@;
                let e = stripped(&a[i], field);
                out.push(e);
                proof {
                    assert(out@.drop_last() =~= before);
                    assert(a@.take(i + 1).drop_last() =~= a@.take(i as int));
                    assert(view_elems(a@.take(i + 1)).drop_last() =~= view_elems(a@.take(i as int)));
                }
                i += 1;
            }
            assert(a@.take(a@.len() as int) =~= a@);
            JsonValue::Array(out)
        },
        JsonValue::Object(ps) => {
            let mut out: Vec<(String, JsonValue)> = Vec::new();
            let mut i: usize = 0;
            while i < ps.len()
                invariant
                    i <= ps@.len(),
                    *v == JsonValue::Object(*ps),
                    view_members(out@) == strip_members(view_members(ps@.take(i as int)), field@),
                decreases ps@.len() - i,
            {
                proof {
                    assert(decreases_to!(*v => v->Object_0));
                    assert(decreases_to!(*ps => ps@));
                    assert(decreases_to!(ps@ => ps@[i as int]));
                    assert(decreases_to!(ps@[i as int] => ps@[i as int].1));
                }
                let ghost before = out@;
                if !str_eq(ps[i].0.as_str(), field) {
                    let e = stripped(&ps[i].1, field);
                    out.push((ps[i].0.clone(), e));
                    assert(out@.drop_last() =~= before);
                }
                proof {
                    let t = ps@.take(i + 1);
                    assert(t.drop_last() =~= ps@.take(i as int));
                    assert(view_members(t).drop_last() =~= view_members(ps@.take(i as int)));
                }
                i += 1;
            }
            assert(ps@.take(ps@.len() as int) =~= ps@);
            JsonValue::Object(out)
        },
        _ => v.clone(),
    }
}

/// Remove all instances of a key throughout the JSON tree (recursive).
pub fn remove_field_recursive(value: &mut JsonValue, field: &str)
    ensures
        final(value)@ == strip_key(old(value)@, field@),
{
    let r = stripped(value, field);
    *value = r;
}

fn at_path(v: &JsonValue, path: &[&str]) -> (r: JsonValue)
    ensures
        r@ == remove_at_path(v@, path@.map_values(|p: &str| p@)),
    decreases path@.len(),
{
    let ghost sp = path@.map_values(|p: &str| p@);
    assert(sp.len() == path@.len());
    if path.len() == 0 {
        v.clone()
    } else if path.len() == 1 {
        let mut c = v.clone();
        remove_field(&mut c, path[0]);
        assert(sp[0] == path@[0]@);
        assert(c@ == remove_at_path(v@, sp));
        c
    } else {
        match v {
            JsonValue::Object(ps) => {
                assert(sp[0] == path@[0]@);
                let rest = vstd::slice::slice_subrange(path, 1, path.len());
                assert(rest@ =~= path@.drop_first());
                assert(rest@.map_values(|p: &str| p@) =~= sp.drop_first());
                let mut out: Vec<(String, JsonValue)> = Vec::new();
                let mut i: usize = 0;
                proof {
                    lemma_view_members(ps@);
                }
                while i < ps.len()
                    invariant
                        i <= ps@.len(),
                        path@.len() >= 2,
                        sp == path@.map_values(|p: &str| p@),
                        rest@.map_values(|p: &str| p@) == sp.drop_first(),
                        view_members(ps@).len() == ps@.len(),
                        forall|k: int| 0 <= k < ps@.len() ==> #[trigger] view_members(ps@)[k] == (ps@[k].0@, json_view(ps@[k].1)),
                        out@.len() == i,
                        forall|k: int| 0 <= k < i ==> #[trigger] view_members(out@)[k] == (
                            if ps@[k].0@ == sp[0] {
                                (ps@[k].0@, remove_at_path(json_view(ps@[k].1), sp.drop_first()))
                            } else {
                                (ps@[k].0@, json_view(ps@[k].1))
                            }),
                    decreases ps@.len() - i,
                {
                    proof {
                        lemma_view_members(out@);
                    }
                    let ghost before = out@;
                    if str_eq(ps[i].0.as_str(), path[0]) {
                        let e = at_path(&ps[i].1, rest);
                        out.push((ps[i].0.clone(), e));
                    } else {
                        out.push((ps[i].0.clone(), ps[i].1.clone()));
                    }
                    proof {
                        lemma_view_members(out@);
                        assert(out@.drop_last() =~= before);
                        lemma_view_members(before);
                        assert forall|k: int| 0 <= k < i + 1 implies #[trigger] view_members(out@)[k] == (
                            if ps@[k].0@ == sp[0] {
                                (ps@[k].0@, remove_at_path(json_view(ps@[k].1), sp.drop_first()))
                            } else {
                                (ps@[k].0@, json_view(ps@[k].1))
                            }) by {
                            if k < i {
                                assert(out@[k] == before[k]);
                            }
                        }
                    }
                    i += 1;
                }
                proof {
                    lemma_view_members(out@);
                    let vm = view_members(ps@);
                    assert(view_members(out@) =~= Seq::new(
                        vm.len(),
                        |k: int|
                            if vm[k].0 == sp[0] {
                                (vm[k].0, remove_at_path(vm[k].1, sp.drop_first()))
                            } else {
                                vm[k]
                            },
                    ));
                }
                let r = JsonValue::Object(out);
                assert(v@ == SJson::Object(view_members(ps@)));
                assert(sp.len() >= 2);
                assert(remove_at_path(v@, sp) is Object);
                assert(view_members(out@) =~= remove_at_path(v@, sp)->Object_0);
                assert(r@ == remove_at_path(v@, sp));
                r
            },
            _ => v.clone(),
        }
    }
}

/// Remove the value at a key path (e.g. `["a", "b", "c"]`); only the leaf key is
/// removed and parent objects remain.
pub fn remove_field_at_path(value: &mut JsonValue, path: &[&str])
    ensures
        final(value)@ == remove_at_path(old(value)@, path@.map_values(|p: &str| p@)),
{
    let r = at_path(value, path);
    *value = r;
}


/// An array of JSON strings.
pub open spec fn str_array(s: Seq<Seq<char>>) -> SJson {
    SJson::Array(s.map_values(|x: Seq<char>| SJson::Str(x)))
}

/// Appends a member to an object's member list.
pub fn push_member(ps: &mut Vec<(String, JsonValue)>, k: &str, v: JsonValue)
    ensures
        view_members(final(ps)@) == view_members(old(ps)@).push((k@, v@)),
{
    let ghost before = ps@;
    ps.push((String::from_str(k), v));
    assert(ps@.drop_last() =~= before);
}

/// The JSON array of the given strings.
pub fn strings_to_json(v: &Vec<String>) -> (j: JsonValue)
    ensures
        j@ == str_array(v@.map_values(|x: String| x@)),
{
    let mut out: Vec<JsonValue> = Vec::new();
    let mut i: usize = 0;
    while i < v.len()
        invariant
            i <= v@.len(),
            view_elems(out@) == str_array(v@.take(i as int).map_values(|x: String| x@))->Array_0,
        decreases v@.len() - i,
    {
        let ghost before = out@;
        let c = v[i].clone();
        let e = JsonValue::Str(c);
        assert(e@ == SJson::Str(v@[i as int]@));
        let ghost ge = e;
        out.push(e);
        proof {
            assert(out@.drop_last() =~= before);
            assert(out@.last() == ge);
            assert(view_elems(out@) == view_elems(before).push(SJson::Str(v@[i as int]@)));
            assert(v@.take(i + 1).map_values(|x: String| x@).map_values(|x: Seq<char>| SJson::Str(x))
                =~= v@.take(i as int).map_values(|x: String| x@).map_values(|x: Seq<char>| SJson::Str(x)).push(SJson::Str(v@[i as int]@)));
        }
        i += 1;
    }
    assert(v@.take(v@.len() as int) =~= v@);
    JsonValue::Array(out)
}

/// Stripping a key from a member list works piecewise on a concatenation.
pub proof fn lemma_strip_members_append(a: Seq<(Seq<char>, SJson)>, b: Seq<(Seq<char>, SJson)>, k: Seq<char>)
    ensures
        strip_members(a + b, k) == strip_members(a, k) + strip_members(b, k),
    decreases b.len(),
{
    if b.len() == 0 {
        assert(a + b =~= a);
        assert(strip_members(b, k) =~= Seq::<(Seq<char>, SJson)>::empty());
        assert(strip_members(a, k) + strip_members(b, k) =~= strip_members(a, k));
    } else {
        lemma_strip_members_append(a, b.drop_last(), k);
        assert((a + b).drop_last() =~= a + b.drop_last());
        assert((a + b).last() == b.last());
        if b.last().0 == k {
        } else {
            assert(strip_members(a, k) + strip_members(b, k)
                =~= (strip_members(a, k) + strip_members(b.drop_last(), k)).push((b.last().0, strip_key(b.last().1, k))));
        }
    }
}

/// Stripping a key from array elements works element by element.
pub proof fn lemma_strip_elems_index(a: Seq<SJson>, k: Seq<char>)
    ensures
        strip_elems(a, k).len() == a.len(),
        forall|i: int| 0 <= i < a.len() ==> #[trigger] strip_elems(a, k)[i] == strip_key(a[i], k),
    decreases a.len(),
{
    if a.len() > 0 {
        lemma_strip_elems_index(a.drop_last(), k);
    }
}

// ---------------------------------------------------------------------------
// The canonical form has sorted keys at every level
// ---------------------------------------------------------------------------

/// Keys in strictly increasing order.
pub open spec fn keys_increasing(ps: Seq<(Seq<char>, SJson)>) -> bool {
    forall|i: int, j: int| 0 <= i < j < ps.len() ==> seq_lt(#[trigger] ps[i].0, #[trigger] ps[j].0)
}

/// Whether every object, at every depth, has its keys in strictly
/// increasing order (so no key repeats).
pub open spec fn is_canonical(j: SJson) -> bool
    decreases j,
{
    match j {
        SJson::Array(a) => elems_canonical(a),
        SJson::Object(ps) => keys_increasing(ps) && members_canonical(ps),
        _ => true,
    }
}

pub open spec fn elems_canonical(s: Seq<SJson>) -> bool
    decreases s,
{
    if s.len() == 0 {
        true
    } else {
        elems_canonical(s.drop_last()) && is_canonical(s.last())
    }
}

pub open spec fn members_canonical(s: Seq<(Seq<char>, SJson)>) -> bool
    decreases s,
{
    if s.len() == 0 {
        true
    } else {
        members_canonical(s.drop_last()) && is_canonical(s.last().1)
    }
}

proof fn lemma_members_canonical_all(s: Seq<(Seq<char>, SJson)>)
    ensures
        members_canonical(s) <==> forall|i: int| 0 <= i < s.len() ==> #[trigger] is_canonical(s[i].1),
    decreases s.len(),
{
    if s.len() > 0 {
        lemma_members_canonical_all(s.drop_last());
        if members_canonical(s) {
            assert forall|i: int| 0 <= i < s.len() implies #[trigger] is_canonical(s[i].1) by {
                if i < s.len() - 1 {
                    assert(s.drop_last()[i] == s[i]);
                }
            }
        }
        if forall|i: int| 0 <= i < s.len() ==> #[trigger] is_canonical(s[i].1) {
            assert forall|i: int| 0 <= i < s.drop_last().len() implies #[trigger] is_canonical(s.drop_last()[i].1) by {
                assert(s.drop_last()[i] == s[i]);
                assert(is_canonical(s[i].1));
            }
            assert(is_canonical(s[s.len() - 1].1));
        }
    }
}

/// The keys and values of `insert_member(ps, k, v)`: every member is
/// `(k, v)` or a member of `ps`, and increasing keys stay increasing.
proof fn lemma_insert_member(ps: Seq<(Seq<char>, SJson)>, k: Seq<char>, v: SJson)
    ensures
        forall|i: int| 0 <= i < insert_member(ps, k, v).len() ==>
            #[trigger] insert_member(ps, k, v)[i] == (k, v)
            || exists|j: int| 0 <= j < ps.len() && ps[j] == insert_member(ps, k, v)[i],
        keys_increasing(ps) ==> keys_increasing(insert_member(ps, k, v)),
    decreases ps.len(),
{
    let r = insert_member(ps, k, v);
    if ps.len() == 0 {
    } else if k == ps[0].0 {
        assert forall|i: int| 0 <= i < r.len() implies #[trigger] r[i] == (k, v)
            || exists|j: int| 0 <= j < ps.len() && ps[j] == r[i] by {
            if i > 0 {
                assert(ps[i] == r[i]);
            }
        }
        if keys_increasing(ps) {
            assert forall|i: int, j: int| 0 <= i < j < r.len() implies seq_lt(#[trigger] r[i].0, #[trigger] r[j].0) by {
                assert(r[j] == ps[j]);
                if i > 0 {
                    assert(r[i] == ps[i]);
                } else {
                    assert(r[i].0 == ps[0].0);
                }
            }
        }
    } else if seq_lt(k, ps[0].0) {
        assert forall|i: int| 0 <= i < r.len() implies #[trigger] r[i] == (k, v)
            || exists|j: int| 0 <= j < ps.len() && ps[j] == r[i] by {
            if i > 0 {
                assert(ps[i - 1] == r[i]);
            }
        }
        if keys_increasing(ps) {
            assert forall|i: int, j: int| 0 <= i < j < r.len() implies seq_lt(#[trigger] r[i].0, #[trigger] r[j].0) by {
                assert(r[j] == ps[j - 1]);
                if i > 0 {
                    assert(r[i] == ps[i - 1]);
                } else if j > 1 {
                    lemma_seq_lt_transitive(k, ps[0].0, ps[j - 1].0);
                }
            }
        }
    } else {
        let t = ps.drop_first();
        lemma_insert_member(t, k, v);
        let rt = insert_member(t, k, v);
        assert(r == seq![ps[0]] + rt);
        assert forall|i: int| 0 <= i < r.len() implies #[trigger] r[i] == (k, v)
            || exists|j: int| 0 <= j < ps.len() && ps[j] == r[i] by {
            if i == 0 {
                assert(ps[0] == r[0]);
            } else {
                assert(r[i] == rt[i - 1]);
                if rt[i - 1] != (k, v) {
                    let j = choose|j: int| 0 <= j < t.len() && t[j] == rt[i - 1];
                    assert(ps[j + 1] == r[i]);
                }
            }
        }
        if keys_increasing(ps) {
            lemma_seq_lt_total(k, ps[0].0);
            assert(keys_increasing(t)) by {
                assert forall|i: int, j: int| 0 <= i < j < t.len() implies seq_lt(#[trigger] t[i].0, #[trigger] t[j].0) by {
                    assert(t[i] == ps[i + 1] && t[j] == ps[j + 1]);
                }
            }
            assert forall|i: int, j: int| 0 <= i < j < r.len() implies seq_lt(#[trigger] r[i].0, #[trigger] r[j].0) by {
                assert(r[j] == rt[j - 1]);
                if i > 0 {
                    assert(r[i] == rt[i - 1]);
                } else {
                    if rt[j - 1] == (k, v) {
                    } else {
                        let m = choose|m: int| 0 <= m < t.len() && t[m] == rt[j - 1];
                        assert(t[m] == ps[m + 1]);
                    }
                }
            }
        }
    }
}

proof fn lemma_insert_member_canonical(ps: Seq<(Seq<char>, SJson)>, k: Seq<char>, v: SJson)
    requires
        members_canonical(ps),
        is_canonical(v),
    ensures
        members_canonical(insert_member(ps, k, v)),
{
    lemma_insert_member(ps, k, v);
    lemma_members_canonical_all(ps);
    let r = insert_member(ps, k, v);
    lemma_members_canonical_all(r);
    assert forall|i: int| 0 <= i < r.len() implies #[trigger] is_canonical(r[i].1) by {
        if r[i] != (k, v) {
            let j = choose|j: int| 0 <= j < ps.len() && ps[j] == r[i];
            assert(is_canonical(ps[j].1));
        }
    }
}

proof fn lemma_sort_members(ps: Seq<(Seq<char>, SJson)>)
    requires
        members_canonical(ps),
    ensures
        keys_increasing(sort_members(ps)),
        members_canonical(sort_members(ps)),
    decreases ps.len(),
{
    if ps.len() > 0 {
        lemma_sort_members(ps.drop_last());
        lemma_insert_member(sort_members(ps.drop_last()), ps.last().0, ps.last().1);
        lemma_insert_member_canonical(sort_members(ps.drop_last()), ps.last().0, ps.last().1);
    }
}

proof fn lemma_canon_members(s: Seq<(Seq<char>, SJson)>)
    ensures
        members_canonical(canon_members(s)),
    decreases s,
{
    if s.len() > 0 {
        lemma_canon_members(s.drop_last());
        lemma_canon_is_canonical(s.last().1);
        assert(canon_members(s).drop_last() == canon_members(s.drop_last()));
    }
}

proof fn lemma_canon_elems(s: Seq<SJson>)
    ensures
        elems_canonical(canon_elems(s)),
    decreases s,
{
    if s.len() > 0 {
        lemma_canon_elems(s.drop_last());
        lemma_canon_is_canonical(s.last());
        assert(canon_elems(s).drop_last() == canon_elems(s.drop_last()));
    }
}

/// The canonical form has its object keys sorted, strictly, at every level.
pub proof fn lemma_canon_is_canonical(j: SJson)
    ensures
        is_canonical(canon(j)),
    decreases j,
{
    match j {
        SJson::Array(a) => {
            lemma_canon_elems(a);
        },
        SJson::Object(ps) => {
            lemma_canon_members(ps);
            lemma_sort_members(canon_members(ps));
        },
        _ => {},
    }
}

// ---------------------------------------------------------------------------
// Stripping a key removes every instance of it
// ---------------------------------------------------------------------------

/// Whether no object, at any depth, has a member with key `k`.
pub open spec fn lacks_key(j: SJson, k: Seq<char>) -> bool
    decreases j,
{
    match j {
        SJson::Array(a) => elems_lack_key(a, k),
        SJson::Object(ps) => members_lack_key(ps, k),
        _ => true,
    }
}

pub open spec fn elems_lack_key(s: Seq<SJson>, k: Seq<char>) -> bool
    decreases s,
{
    if s.len() == 0 {
        true
    } else {
        elems_lack_key(s.drop_last(), k) && lacks_key(s.last(), k)
    }
}

pub open spec fn members_lack_key(s: Seq<(Seq<char>, SJson)>, k: Seq<char>) -> bool
    decreases s,
{
    if s.len() == 0 {
        true
    } else {
        members_lack_key(s.drop_last(), k) && s.last().0 != k && lacks_key(s.last().1, k)
    }
}

proof fn lemma_strip_members_lack(s: Seq<(Seq<char>, SJson)>, k: Seq<char>)
    ensures
        members_lack_key(strip_members(s, k), k),
    decreases s,
{
    if s.len() > 0 {
        lemma_strip_members_lack(s.drop_last(), k);
        if s.last().0 != k {
            lemma_strip_key_lacks(s.last().1, k);
            assert(strip_members(s, k).drop_last() == strip_members(s.drop_last(), k));
        }
    }
}

proof fn lemma_strip_elems_lack(s: Seq<SJson>, k: Seq<char>)
    ensures
        elems_lack_key(strip_elems(s, k), k),
    decreases s,
{
    if s.len() > 0 {
        lemma_strip_elems_lack(s.drop_last(), k);
        lemma_strip_key_lacks(s.last(), k);
        assert(strip_elems(s, k).drop_last() == strip_elems(s.drop_last(), k));
    }
}

/// Removing a key recursively leaves no instance of it at any depth.
pub proof fn lemma_strip_key_lacks(j: SJson, k: Seq<char>)
    ensures
        lacks_key(strip_key(j, k), k),
    decreases j,
{
    match j {
        SJson::Array(a) => {
            lemma_strip_elems_lack(a, k);
        },
        SJson::Object(ps) => {
            lemma_strip_members_lack(ps, k);
        },
        _ => {},
    }
}

// ---------------------------------------------------------------------------
// The canonical form is a fixed point
// ---------------------------------------------------------------------------

proof fn lemma_insert_member_last(ps: Seq<(Seq<char>, SJson)>, k: Seq<char>, v: SJson)
    requires
        forall|i: int| 0 <= i < ps.len() ==> seq_lt(#[trigger] ps[i].0, k),
    ensures
        insert_member(ps, k, v) == ps.push((k, v)),
    decreases ps.len(),
{
    if ps.len() > 0 {
        lemma_seq_lt_irreflexive(k);
        if seq_lt(k, ps[0].0) {
            lemma_seq_lt_transitive(k, ps[0].0, k);
        }
        let t = ps.drop_first();
        assert forall|i: int| 0 <= i < t.len() implies seq_lt(#[trigger] t[i].0, k) by {
            assert(t[i] == ps[i + 1]);
        }
        lemma_insert_member_last(t, k, v);
        assert(seq![ps[0]] + t.push((k, v)) =~= ps.push((k, v)));
    }
}

proof fn lemma_sort_members_id(ps: Seq<(Seq<char>, SJson)>)
    requires
        keys_increasing(ps),
    ensures
        sort_members(ps) == ps,
    decreases ps.len(),
{
    if ps.len() > 0 {
        let b = ps.drop_last();
        assert(keys_increasing(b)) by {
            assert forall|i: int, j: int| 0 <= i < j < b.len() implies seq_lt(#[trigger] b[i].0, #[trigger] b[j].0) by {
                assert(b[i] == ps[i] && b[j] == ps[j]);
            }
        }
        lemma_sort_members_id(b);
        assert forall|i: int| 0 <= i < b.len() implies seq_lt(#[trigger] b[i].0, ps.last().0) by {
            assert(b[i] == ps[i]);
            assert(ps.last() == ps[ps.len() - 1]);
        }
        lemma_insert_member_last(b, ps.last().0, ps.last().1);
        assert(b.push(ps.last()) =~= ps);
    }
}

proof fn lemma_canon_members_id(s: Seq<(Seq<char>, SJson)>)
    requires
        members_canonical(s),
    ensures
        canon_members(s) == s,
    decreases s,
{
    if s.len() > 0 {
        lemma_canon_members_id(s.drop_last());
        lemma_canon_id(s.last().1);
        assert(s.drop_last().push((s.last().0, s.last().1)) =~= s);
    }
}

proof fn lemma_canon_elems_id(s: Seq<SJson>)
    requires
        elems_canonical(s),
    ensures
        canon_elems(s) == s,
    decreases s,
{
    if s.len() > 0 {
        lemma_canon_elems_id(s.drop_last());
        lemma_canon_id(s.last());
        assert(s.drop_last().push(s.last()) =~= s);
    }
}

/// A value in canonical form is its own canonical form.
pub proof fn lemma_canon_id(j: SJson)
    requires
        is_canonical(j),
    ensures
        canon(j) == j,
    decreases j,
{
    match j {
        SJson::Array(a) => {
            lemma_canon_elems_id(a);
        },
        SJson::Object(ps) => {
            lemma_canon_members_id(ps);
            lemma_sort_members_id(ps);
        },
        _ => {},
    }
}

/// Canonicalizing twice is canonicalizing once, so the canonical text of a
/// canonical value is the value's own text.
pub proof fn lemma_canon_idempotent(j: SJson)
    ensures
        canon(canon(j)) == canon(j),
        canonical_text(canon(j)) == ser(canon(j)),
{
    lemma_canon_is_canonical(j);
    lemma_canon_id(canon(j));
}

// ---------------------------------------------------------------------------
// The canonical form does not depend on the order of an object's members
// ---------------------------------------------------------------------------

/// No key occurs twice among the members.
pub open spec fn distinct_keys(ps: Seq<(Seq<char>, SJson)>) -> bool {
    forall|i: int, j: int| 0 <= i < j < ps.len() ==> #[trigger] ps[i].0 != #[trigger] ps[j].0
}

/// Whether `k` is the key of a member.
pub open spec fn has_key(ps: Seq<(Seq<char>, SJson)>, k: Seq<char>) -> bool {
    exists|i: int| 0 <= i < ps.len() && #[trigger] ps[i].0 == k
}

proof fn lemma_insert_member_contains(ps: Seq<(Seq<char>, SJson)>, k: Seq<char>, v: SJson)
    requires
        !has_key(ps, k),
    ensures
        forall|m: (Seq<char>, SJson)| #[trigger] insert_member(ps, k, v).contains(m) <==> (ps.contains(m) || m == (k, v)),
    decreases ps.len(),
{
    let r = insert_member(ps, k, v);
    if ps.len() == 0 {
        assert forall|m: (Seq<char>, SJson)| #[trigger] r.contains(m) <==> (ps.contains(m) || m == (k, v)) by {
            if r.contains(m) {
                let i = choose|i: int| 0 <= i < r.len() && r[i] == m;
            }
            if m == (k, v) {
                assert(r[0] == m);
            }
        }
    } else {
        assert(ps[0].0 != k) by {
            if ps[0].0 == k {
                assert(has_key(ps, k));
            }
        }
        let t = ps.drop_first();
        assert(ps =~= seq![ps[0]] + t);
        if seq_lt(k, ps[0].0) {
            assert(r =~= seq![(k, v)] + ps);
            assert forall|m: (Seq<char>, SJson)| #[trigger] r.contains(m) <==> (ps.contains(m) || m == (k, v)) by {
                if r.contains(m) {
                    let i = choose|i: int| 0 <= i < r.len() && r[i] == m;
                    if i > 0 {
                        assert(ps[i - 1] == m);
                    }
                }
                if ps.contains(m) {
                    let i = choose|i: int| 0 <= i < ps.len() && ps[i] == m;
                    assert(r[i + 1] == m);
                }
                if m == (k, v) {
                    assert(r[0] == m);
                }
            }
        } else {
            assert(!has_key(t, k)) by {
                if has_key(t, k) {
                    let i = choose|i: int| 0 <= i < t.len() && #[trigger] t[i].0 == k;
                    assert(ps[i + 1].0 == k);
                }
            }
            lemma_insert_member_contains(t, k, v);
            let rt = insert_member(t, k, v);
            assert(r =~= seq![ps[0]] + rt);
            assert forall|m: (Seq<char>, SJson)| #[trigger] r.contains(m) <==> (ps.contains(m) || m == (k, v)) by {
                if r.contains(m) {
                    let i = choose|i: int| 0 <= i < r.len() && r[i] == m;
                    if i > 0 {
                        assert(rt[i - 1] == m);
                        assert(rt.contains(m));
                        if t.contains(m) {
                            let j = choose|j: int| 0 <= j < t.len() && t[j] == m;
                            assert(ps[j + 1] == m);
                        }
                    } else {
                        assert(ps[0] == m);
                    }
                }
                if ps.contains(m) {
                    let i = choose|i: int| 0 <= i < ps.len() && ps[i] == m;
                    if i == 0 {
                        assert(r[0] == m);
                    } else {
                        assert(t[i - 1] == m);
                        assert(t.contains(m));
                        assert(rt.contains(m));
                        let j = choose|j: int| 0 <= j < rt.len() && rt[j] == m;
                        assert(r[j + 1] == m);
                    }
                }
                if m == (k, v) {
                    assert(rt.contains(m));
                    let j = choose|j: int| 0 <= j < rt.len() && rt[j] == m;
                    assert(r[j + 1] == m);
                }
            }
        }
    }
}

proof fn lemma_sort_members_contains(ps: Seq<(Seq<char>, SJson)>)
    requires
        distinct_keys(ps),
    ensures
        forall|m: (Seq<char>, SJson)| #[trigger] sort_members(ps).contains(m) <==> ps.contains(m),
    decreases ps.len(),
{
    if ps.len() > 0 {
        let d = ps.drop_last();
        let (k, v) = ps.last();
        assert(distinct_keys(d)) by {
            assert forall|i: int, j: int| 0 <= i < j < d.len() implies #[trigger] d[i].0 != #[trigger] d[j].0 by {
                assert(d[i] == ps[i] && d[j] == ps[j]);
            }
        }
        lemma_sort_members_contains(d);
        let sd = sort_members(d);
        assert(!has_key(sd, k)) by {
            if has_key(sd, k) {
                let i = choose|i: int| 0 <= i < sd.len() && #[trigger] sd[i].0 == k;
                assert(sd.contains(sd[i]));
                assert(d.contains(sd[i]));
                let j = choose|j: int| 0 <= j < d.len() && d[j] == sd[i];
                assert(ps[j].0 != ps[ps.len() - 1].0);
            }
        }
        lemma_insert_member_contains(sd, k, v);
        assert(ps =~= d.push((k, v)));
        assert forall|m: (Seq<char>, SJson)| #[trigger] sort_members(ps).contains(m) <==> ps.contains(m) by {
            if ps.contains(m) {
                let i = choose|i: int| 0 <= i < ps.len() && ps[i] == m;
                if i < d.len() {
                    assert(d[i] == m);
                    assert(d.contains(m));
                }
            }
            if d.contains(m) {
                let i = choose|i: int| 0 <= i < d.len() && d[i] == m;
                assert(ps[i] == m);
            }
        }
    }
}

proof fn lemma_increasing_unique(a: Seq<(Seq<char>, SJson)>, b: Seq<(Seq<char>, SJson)>)
    requires
        keys_increasing(a),
        keys_increasing(b),
        forall|m: (Seq<char>, SJson)| #![trigger a.contains(m)] #![trigger b.contains(m)] a.contains(m) <==> b.contains(m),
    ensures
        a == b,
    decreases a.len() + b.len(),
{
    if a.len() == 0 {
        if b.len() > 0 {
            assert(b.contains(b[0]));
        }
        assert(a =~= b);
    } else if b.len() == 0 {
        assert(a.contains(a[0]));
    } else {
        assert(a.contains(a[0]));
        assert(b.contains(b[0]));
        let j = choose|j: int| 0 <= j < b.len() && b[j] == a[0];
        let i = choose|i: int| 0 <= i < a.len() && a[i] == b[0];
        if j > 0 && i > 0 {
            assert(seq_lt(a[0].0, a[i].0));
            assert(seq_lt(b[0].0, b[j].0));
            lemma_seq_lt_transitive(a[0].0, b[0].0, a[0].0);
            lemma_seq_lt_irreflexive(a[0].0);
        }
        assert(a[0] == b[0]);
        let ta = a.drop_first();
        let tb = b.drop_first();
        assert(keys_increasing(ta)) by {
            assert forall|x: int, y: int| 0 <= x < y < ta.len() implies seq_lt(#[trigger] ta[x].0, #[trigger] ta[y].0) by {
                assert(ta[x] == a[x + 1] && ta[y] == a[y + 1]);
            }
        }
        assert(keys_increasing(tb)) by {
            assert forall|x: int, y: int| 0 <= x < y < tb.len() implies seq_lt(#[trigger] tb[x].0, #[trigger] tb[y].0) by {
                assert(tb[x] == b[x + 1] && tb[y] == b[y + 1]);
            }
        }
        assert forall|m: (Seq<char>, SJson)| #![trigger ta.contains(m)] #![trigger tb.contains(m)] ta.contains(m) <==> tb.contains(m) by {
            if ta.contains(m) {
                let x = choose|x: int| 0 <= x < ta.len() && ta[x] == m;
                assert(a[x + 1] == m);
                assert(a.contains(m));
                assert(b.contains(m));
                let y = choose|y: int| 0 <= y < b.len() && b[y] == m;
                if y == 0 {
                    assert(seq_lt(a[0].0, a[x + 1].0));
                    lemma_seq_lt_irreflexive(a[0].0);
                } else {
                    assert(tb[y - 1] == m);
                }
            }
            if tb.contains(m) {
                let x = choose|x: int| 0 <= x < tb.len() && tb[x] == m;
                assert(b[x + 1] == m);
                assert(b.contains(m));
                assert(a.contains(m));
                let y = choose|y: int| 0 <= y < a.len() && a[y] == m;
                if y == 0 {
                    assert(seq_lt(b[0].0, b[x + 1].0));
                    lemma_seq_lt_irreflexive(b[0].0);
                } else {
                    assert(ta[y - 1] == m);
                }
            }
        }
        lemma_increasing_unique(ta, tb);
        assert(a =~= seq![a[0]] + ta);
        assert(b =~= seq![b[0]] + tb);
    }
}

proof fn lemma_canon_members_index(s: Seq<(Seq<char>, SJson)>)
    ensures
        canon_members(s).len() == s.len(),
        forall|i: int| 0 <= i < s.len() ==> #[trigger] canon_members(s)[i] == (s[i].0, canon(s[i].1)),
    decreases s.len(),
{
    if s.len() > 0 {
        lemma_canon_members_index(s.drop_last());
    }
}

/// An object's canonical form does not depend on the order of its members:
/// two member lists with the same members, no key repeated in either, have
/// the same canonical form.
pub proof fn lemma_canon_ignores_member_order(ps1: Seq<(Seq<char>, SJson)>, ps2: Seq<(Seq<char>, SJson)>)
    requires
        distinct_keys(ps1),
        distinct_keys(ps2),
        forall|m: (Seq<char>, SJson)| #![trigger ps1.contains(m)] #![trigger ps2.contains(m)] ps1.contains(m) <==> ps2.contains(m),
    ensures
        canon(SJson::Object(ps1)) == canon(SJson::Object(ps2)),
{
    lemma_canon_members_index(ps1);
    lemma_canon_members_index(ps2);
    let c1 = canon_members(ps1);
    let c2 = canon_members(ps2);
    assert(distinct_keys(c1)) by {
        assert forall|i: int, j: int| 0 <= i < j < c1.len() implies #[trigger] c1[i].0 != #[trigger] c1[j].0 by {
            assert(ps1[i].0 != ps1[j].0);
        }
    }
    assert(distinct_keys(c2)) by {
        assert forall|i: int, j: int| 0 <= i < j < c2.len() implies #[trigger] c2[i].0 != #[trigger] c2[j].0 by {
            assert(ps2[i].0 != ps2[j].0);
        }
    }
    assert forall|m: (Seq<char>, SJson)| #![trigger c1.contains(m)] #![trigger c2.contains(m)] c1.contains(m) <==> c2.contains(m) by {
        if c1.contains(m) {
            let i = choose|i: int| 0 <= i < c1.len() && c1[i] == m;
            assert(ps1.contains(ps1[i]));
            assert(ps2.contains(ps1[i]));
            let j = choose|j: int| 0 <= j < ps2.len() && ps2[j] == ps1[i];
            assert(c2[j] == m);
        }
        if c2.contains(m) {
            let i = choose|i: int| 0 <= i < c2.len() && c2[i] == m;
            assert(ps2.contains(ps2[i]));
            assert(ps1.contains(ps2[i]));
            let j = choose|j: int| 0 <= j < ps1.len() && ps1[j] == ps2[i];
            assert(c1[j] == m);
        }
    }
    lemma_canon_members(ps1);
    lemma_canon_members(ps2);
    lemma_sort_members(c1);
    lemma_sort_members(c2);
    lemma_sort_members_contains(c1);
    lemma_sort_members_contains(c2);
    lemma_increasing_unique(sort_members(c1), sort_members(c2));
}

/// The two values are the same up to the order of object members, at every
/// depth: arrays agree element by element, objects have no key twice and
/// each member of one has a member with the same key and a reordered value
/// in the other.
pub open spec fn reordered(j1: SJson, j2: SJson) -> bool
    decreases j1,
{
    match j1 {
        SJson::Array(a) => {
            &&& j2 is Array
            &&& a.len() == j2->Array_0.len()
            &&& forall|i: int| 0 <= i < a.len() ==> reordered(a[i], #[trigger] j2->Array_0[i])
        },
        SJson::Object(p) => {
            let q = j2->Object_0;
            &&& j2 is Object
            &&& distinct_keys(p)
            &&& distinct_keys(q)
            &&& forall|i: int| 0 <= i < p.len() ==> exists|j: int| 0 <= j < q.len() && #[trigger] q[j].0 == #[trigger] p[i].0
                && reordered(p[i].1, q[j].1)
            &&& forall|j: int| 0 <= j < q.len() ==> exists|i: int| 0 <= i < p.len() && #[trigger] q[j].0 == #[trigger] p[i].0
                && reordered(p[i].1, q[j].1)
        },
        _ => j1 == j2,
    }
}

proof fn lemma_sorted_members_equal(c1: Seq<(Seq<char>, SJson)>, c2: Seq<(Seq<char>, SJson)>)
    requires
        distinct_keys(c1),
        distinct_keys(c2),
        members_canonical(c1),
        members_canonical(c2),
        forall|m: (Seq<char>, SJson)| #![trigger c1.contains(m)] #![trigger c2.contains(m)] c1.contains(m) <==> c2.contains(m),
    ensures
        sort_members(c1) == sort_members(c2),
{
    lemma_sort_members(c1);
    lemma_sort_members(c2);
    lemma_sort_members_contains(c1);
    lemma_sort_members_contains(c2);
    lemma_increasing_unique(sort_members(c1), sort_members(c2));
}

/// The canonical form does not depend on the order of object members at any
/// depth (no key repeated in any object).
pub proof fn lemma_canon_reordered(j1: SJson, j2: SJson)
    requires
        reordered(j1, j2),
    ensures
        canon(j1) == canon(j2),
        canonical_text(j1) == canonical_text(j2),
    decreases j1, 1nat,
{
    match j1 {
        SJson::Array(a) => {
            let b = j2->Array_0;
            lemma_canon_elems_index(a);
            lemma_canon_elems_index(b);
            assert forall|i: int| 0 <= i < a.len() implies canon_elems(a)[i] == canon_elems(b)[i] by {
                assert(reordered(a[i], b[i]));
                lemma_canon_reordered(a[i], b[i]);
            }
            assert(canon_elems(a) =~= canon_elems(b));
        },
        SJson::Object(p) => {
            lemma_canon_reordered_members(j1, j2);
        },
        _ => {},
    }
}

#[verifier::spinoff_prover]
#[verifier::rlimit(60)]
proof fn lemma_canon_reordered_members(j1: SJson, j2: SJson)
    requires
        j1 is Object,
        reordered(j1, j2),
    ensures
        canon(j1) == canon(j2),
    decreases j1, 0nat,
{
    let p = j1->Object_0;
    let q = j2->Object_0;
    lemma_canon_members_index(p);
    lemma_canon_members_index(q);
    let c1 = canon_members(p);
    let c2 = canon_members(q);
    assert(distinct_keys(c1)) by {
        assert forall|i: int, j: int| 0 <= i < j < c1.len() implies #[trigger] c1[i].0 != #[trigger] c1[j].0 by {
            assert(p[i].0 != p[j].0);
        }
    }
    assert(distinct_keys(c2)) by {
        assert forall|i: int, j: int| 0 <= i < j < c2.len() implies #[trigger] c2[i].0 != #[trigger] c2[j].0 by {
            assert(q[i].0 != q[j].0);
        }
    }
    assert forall|m: (Seq<char>, SJson)| c1.contains(m) implies c2.contains(m) by {
        let i = choose|i: int| 0 <= i < c1.len() && c1[i] == m;
        assert(p[i].0 == p[i].0);
        let j = choose|j: int| 0 <= j < q.len() && #[trigger] q[j].0 == #[trigger] p[i].0 && reordered(p[i].1, q[j].1);
        lemma_canon_reordered(p[i].1, q[j].1);
        assert(c2[j] == m);
    }
    assert forall|m: (Seq<char>, SJson)| c2.contains(m) implies c1.contains(m) by {
        let j = choose|j: int| 0 <= j < c2.len() && c2[j] == m;
        assert(q[j].0 == q[j].0);
        let i = choose|i: int| 0 <= i < p.len() && #[trigger] q[j].0 == #[trigger] p[i].0 && reordered(p[i].1, q[j].1);
        lemma_canon_reordered(p[i].1, q[j].1);
        assert(c1[i] == m);
    }
    lemma_canon_members(p);
    lemma_canon_members(q);
    lemma_sorted_members_equal(c1, c2);
}

// ---------------------------------------------------------------------------
// The canonical form adds no key
// ---------------------------------------------------------------------------

pub proof fn lemma_elems_lack_index(s: Seq<SJson>, k: Seq<char>)
    ensures
        elems_lack_key(s, k) <==> forall|i: int| 0 <= i < s.len() ==> lacks_key(#[trigger] s[i], k),
    decreases s.len(),
{
    if s.len() > 0 {
        lemma_elems_lack_index(s.drop_last(), k);
        if forall|i: int| 0 <= i < s.len() ==> lacks_key(#[trigger] s[i], k) {
            assert forall|i: int| 0 <= i < s.drop_last().len() implies lacks_key(#[trigger] s.drop_last()[i], k) by {
                assert(s.drop_last()[i] == s[i]);
            }
        }
        if elems_lack_key(s, k) {
            assert forall|i: int| 0 <= i < s.len() implies lacks_key(#[trigger] s[i], k) by {
                if i < s.len() - 1 {
                    assert(s.drop_last()[i] == s[i]);
                }
            }
        }
    }
}

pub proof fn lemma_members_lack_index(s: Seq<(Seq<char>, SJson)>, k: Seq<char>)
    ensures
        members_lack_key(s, k) <==> forall|i: int| #![trigger s[i]] 0 <= i < s.len() ==> s[i].0 != k && lacks_key(s[i].1, k),
    decreases s.len(),
{
    if s.len() > 0 {
        lemma_members_lack_index(s.drop_last(), k);
        if forall|i: int| #![trigger s[i]] 0 <= i < s.len() ==> s[i].0 != k && lacks_key(s[i].1, k) {
            assert forall|i: int| #![trigger s.drop_last()[i]] 0 <= i < s.drop_last().len() implies s.drop_last()[i].0 != k && lacks_key(s.drop_last()[i].1, k) by {
                assert(s.drop_last()[i] == s[i]);
            }
        }
        if members_lack_key(s, k) {
            assert forall|i: int| #![trigger s[i]] 0 <= i < s.len() implies s[i].0 != k && lacks_key(s[i].1, k) by {
                if i < s.len() - 1 {
                    assert(s.drop_last()[i] == s[i]);
                }
            }
        }
    }
}

proof fn lemma_canon_elems_index(s: Seq<SJson>)
    ensures
        canon_elems(s).len() == s.len(),
        forall|i: int| 0 <= i < s.len() ==> #[trigger] canon_elems(s)[i] == canon(s[i]),
    decreases s.len(),
{
    if s.len() > 0 {
        lemma_canon_elems_index(s.drop_last());
    }
}

proof fn lemma_sort_members_subset(ps: Seq<(Seq<char>, SJson)>)
    ensures
        forall|i: int| 0 <= i < sort_members(ps).len() ==> ps.contains(#[trigger] sort_members(ps)[i]),
    decreases ps.len(),
{
    if ps.len() > 0 {
        let d = ps.drop_last();
        lemma_sort_members_subset(d);
        let sd = sort_members(d);
        lemma_insert_member(sd, ps.last().0, ps.last().1);
        let r = sort_members(ps);
        assert forall|i: int| 0 <= i < r.len() implies ps.contains(#[trigger] r[i]) by {
            if r[i] == (ps.last().0, ps.last().1) {
                assert(ps[ps.len() - 1] == r[i]);
            } else {
                let j = choose|j: int| 0 <= j < sd.len() && sd[j] == r[i];
                assert(d.contains(sd[j]));
                let m = choose|m: int| 0 <= m < d.len() && d[m] == sd[j];
                assert(ps[m] == r[i]);
            }
        }
    }
}

/// The canonical form adds no key: a value without key `k` at any depth
/// keeps none after canonicalization.
pub proof fn lemma_canon_keeps_lack(j: SJson, k: Seq<char>)
    requires
        lacks_key(j, k),
    ensures
        lacks_key(canon(j), k),
    decreases j,
{
    match j {
        SJson::Array(a) => {
            lemma_elems_lack_index(a, k);
            lemma_canon_elems_index(a);
            let c = canon_elems(a);
            assert forall|i: int| 0 <= i < c.len() implies lacks_key(#[trigger] c[i], k) by {
                lemma_canon_keeps_lack(a[i], k);
            }
            lemma_elems_lack_index(c, k);
        },
        SJson::Object(ps) => {
            lemma_members_lack_index(ps, k);
            lemma_canon_members_index(ps);
            let c = canon_members(ps);
            assert forall|i: int| 0 <= i < c.len() implies #[trigger] c[i].0 != k && lacks_key(c[i].1, k) by {
                assert(ps[i].0 != k && lacks_key(ps[i].1, k));
                lemma_canon_keeps_lack(ps[i].1, k);
            }
            lemma_sort_members_subset(c);
            let r = sort_members(c);
            assert forall|i: int| 0 <= i < r.len() implies #[trigger] r[i].0 != k && lacks_key(r[i].1, k) by {
                assert(c.contains(r[i]));
                let m = choose|m: int| 0 <= m < c.len() && c[m] == r[i];
                assert(c[m] == (ps[m].0, canon(ps[m].1)));
                assert(ps[m].0 != k && lacks_key(ps[m].1, k));
                lemma_canon_keeps_lack(ps[m].1, k);
            }
            lemma_members_lack_index(r, k);
        },
        _ => {},
    }
}

/// Removing a key that a value does not hold leaves it as it is.
pub proof fn lemma_strip_lacking(j: SJson, k: Seq<char>)
    requires
        lacks_key(j, k),
    ensures
        strip_key(j, k) == j,
    decreases j,
{
    match j {
        SJson::Array(a) => {
            lemma_elems_lack_index(a, k);
            lemma_strip_elems_index(a, k);
            assert forall|i: int| 0 <= i < a.len() implies strip_elems(a, k)[i] == a[i] by {
                lemma_strip_lacking(a[i], k);
            }
            assert(strip_elems(a, k) =~= a);
        },
        SJson::Object(ps) => {
            assert(members_lack_key(ps, k));
            lemma_members_lack_index(ps, k);
            lemma_strip_members_lacking(ps, k);
        },
        _ => {},
    }
}

proof fn lemma_strip_members_lacking(ps: Seq<(Seq<char>, SJson)>, k: Seq<char>)
    requires
        forall|i: int| #![trigger ps[i]] 0 <= i < ps.len() ==> ps[i].0 != k && lacks_key(ps[i].1, k),
    ensures
        strip_members(ps, k) == ps,
    decreases ps,
{
    if ps.len() > 0 {
        let d = ps.drop_last();
        assert forall|i: int| #![trigger d[i]] 0 <= i < d.len() implies d[i].0 != k && lacks_key(d[i].1, k) by {
            assert(d[i] == ps[i]);
        }
        lemma_strip_members_lacking(d, k);
        assert(ps.last().0 != k && lacks_key(ps.last().1, k));
        lemma_strip_lacking(ps.last().1, k);
        assert(d.push(ps.last()) =~= ps);
    }
}

/// Objects whose members agree in key and in the canonical form of the value
/// have the same canonical form.
pub proof fn lemma_canon_members_congruent(ps1: Seq<(Seq<char>, SJson)>, ps2: Seq<(Seq<char>, SJson)>)
    requires
        ps1.len() == ps2.len(),
        forall|i: int| #![trigger ps1[i]] #![trigger ps2[i]] 0 <= i < ps1.len() ==> ps1[i].0 == ps2[i].0 && canon(ps1[i].1) == canon(ps2[i].1),
    ensures
        canon(SJson::Object(ps1)) == canon(SJson::Object(ps2)),
{
    lemma_canon_members_index(ps1);
    lemma_canon_members_index(ps2);
    assert forall|i: int| 0 <= i < ps1.len() implies canon_members(ps1)[i] == canon_members(ps2)[i] by {
        assert(ps1[i].0 == ps2[i].0 && canon(ps1[i].1) == canon(ps2[i].1));
    }
    assert(canon_members(ps1) =~= canon_members(ps2));
}

/// Removing a key keeps two member lists in step: the same keys and values
/// with the same canonical forms, after stripping, stay so.
pub proof fn lemma_strip_members_congruent(ps1: Seq<(Seq<char>, SJson)>, ps2: Seq<(Seq<char>, SJson)>, k: Seq<char>)
    requires
        ps1.len() == ps2.len(),
        forall|i: int| #![trigger ps1[i]] #![trigger ps2[i]] 0 <= i < ps1.len() ==> ps1[i].0 == ps2[i].0
            && canon(strip_key(ps1[i].1, k)) == canon(strip_key(ps2[i].1, k)),
    ensures
        strip_members(ps1, k).len() == strip_members(ps2, k).len(),
        forall|i: int| #![trigger strip_members(ps1, k)[i]] #![trigger strip_members(ps2, k)[i]] 0 <= i < strip_members(ps1, k).len()
            ==> strip_members(ps1, k)[i].0 == strip_members(ps2, k)[i].0
            && canon(strip_members(ps1, k)[i].1) == canon(strip_members(ps2, k)[i].1),
    decreases ps1.len(),
{
    if ps1.len() > 0 {
        let d1 = ps1.drop_last();
        let d2 = ps2.drop_last();
        assert forall|i: int| #![trigger d1[i]] 0 <= i < d1.len() implies d1[i].0 == d2[i].0
            && canon(strip_key(d1[i].1, k)) == canon(strip_key(d2[i].1, k)) by {
            assert(d1[i] == ps1[i] && d2[i] == ps2[i]);
        }
        lemma_strip_members_congruent(d1, d2, k);
        assert(ps1.last().0 == ps2.last().0);
        assert(canon(strip_key(ps1.last().1, k)) == canon(strip_key(ps2.last().1, k)));
    }
}

} // verus!
