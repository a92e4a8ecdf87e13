//! Small string utilities shared by the library: character pushing,
//! decimal rendering of integers and the lexicographic order on strings.
use vstd::prelude::*;

verus! {

/// The decimal digit character for `d < 10`.
pub open spec fn digit_char(d: nat) -> char {
    if d == 0 { '0' } else if d == 1 { '1' } else if d == 2 { '2' } else if d == 3 { '3' }
    else if d == 4 { '4' } else if d == 5 { '5' } else if d == 6 { '6' } else if d == 7 { '7' }
    else if d == 8 { '8' } else { '9' }
}

/// Decimal rendering of a natural number, without leading zeros.
pub open spec fn decimal(n: nat) -> Seq<char>
    decreases n,
{
    if n < 10 {
        seq![digit_char(n)]
    } else {
        decimal(n / 10).push(digit_char(n % 10))
    }
}

/// Decimal rendering of an integer: a `-` sign before the digits of a negative number.
pub open spec fn decimal_int(i: int) -> Seq<char> {
    if i < 0 { seq!['-'] + decimal((-i) as nat) } else { decimal(i as nat) }
}

/// `String::push`: appends one character.
#[verifier::external_body]
pub(crate) fn push_char(s: &mut String, c: char)
    ensures
        final(s)@ == old(s)@.push(c),
{
    s.push(c);
}

fn digit_of(d: u64) -> (c: char)
    requires
        d < 10,
    ensures
        c == digit_char(d as nat),
{
    if d == 0 { '0' } else if d == 1 { '1' } else if d == 2 { '2' } else if d == 3 { '3' }
    else if d == 4 { '4' } else if d == 5 { '5' } else if d == 6 { '6' } else if d == 7 { '7' }
    else if d == 8 { '8' } else { '9' }
}

fn digit_of128(d: u128) -> (c: char)
    requires
        d < 10,
    ensures
        c == digit_char(d as nat),
{
    digit_of(d as u64)
}

/// Appends the decimal rendering of `n` to `out`.
pub fn push_decimal_u128(out: &mut String, n: u128)
    ensures
        final(out)@ == old(out)@ + decimal(n as nat),
    decreases n,
{
    if n < 10 {
        push_char(out, digit_of128(n));
        assert(decimal(n as nat) == seq![digit_char(n as nat)]);
    } else {
        push_decimal_u128(out, n / 10);
        push_char(out, digit_of128(n % 10));
        assert(decimal(n as nat) == decimal((n / 10) as nat).push(digit_char((n % 10) as nat)));
    }
}

/// Appends the decimal rendering of `n` to `out`.
pub fn push_decimal_u64(out: &mut String, n: u64)
    ensures
        final(out)@ == old(out)@ + decimal(n as nat),
{
    push_decimal_u128(out, n as u128);
}

/// Appends the decimal rendering of `i`, with a `-` sign when negative.
pub fn push_decimal_i128(out: &mut String, i: i128)
    ensures
        final(out)@ == old(out)@ + decimal_int(i as int),
{
    if i < 0 {
        push_char(out, '-');
        let m: u128 = ((0 - (i + 1)) as u128) + 1;
        assert(m as int == -(i as int));
        push_decimal_u128(out, m);
        assert(old(out)@.push('-') + decimal(m as nat) == old(out)@ + (seq!['-'] + decimal(m as nat)));
    } else {
        push_decimal_u128(out, i as u128);
    }
}

/// The decimal rendering of `n` as a new string.
pub fn u64_to_decimal(n: u64) -> (s: String)
    ensures
        s@ == decimal(n as nat),
{
    let mut s = String::new();
    push_decimal_u64(&mut s, n);
    assert(s@ =~= decimal(n as nat));
    s
}

/// Appends all characters of `t` to `s`.
pub fn push_str(s: &mut String, t: &str)
    ensures
        final(s)@ == old(s)@ + t@,
{
    s.append(t);
}

/// Strict lexicographic order on character sequences (code-point order,
/// which is also the byte order of their UTF-8 encodings).
pub open spec fn seq_lt(a: Seq<char>, b: Seq<char>) -> bool
    decreases a.len(),
{
    if a.len() == 0 {
        b.len() > 0
    } else if b.len() == 0 {
        false
    } else if a[0] != b[0] {
        (a[0] as u32) < (b[0] as u32)
    } else {
        seq_lt(a.drop_first(), b.drop_first())
    }
}

/// The characters of a string slice, in order.
pub fn chars_of(s: &str) -> (v: Vec<char>)
    ensures
        v@ == s@,
{
    let mut v: Vec<char> = Vec::new();
    for c in it: s.chars()
        invariant
            v@ == it.seq().take(it.index() as int),
    {
        v.push(c);
    }
    v
}

/// A new string holding the characters of `v`.
pub fn string_of_chars(v: &[char]) -> (s: String)
    ensures
        s@ == v@,
{
    let mut s = String::new();
    let mut i: usize = 0;
    while i < v.len()
        invariant
            i <= v@.len(),
            s@ == v@.take(i as int),
        decreases v@.len() - i,
    {
        push_char(&mut s, v[i]);
        assert(v@.take(i + 1) == v@.take(i as int).push(v@[i as int]));
        i += 1;
    }
    assert(v@.take(v@.len() as int) == v@);
    s
}

/// Lexicographic order of two strings (code-point order).
pub fn str_lt(a: &str, b: &str) -> (r: bool)
    ensures
        r == seq_lt(a@, b@),
{
    let x = chars_of(a);
    let y = chars_of(b);
    let mut i: usize = 0;
    assert(x@.skip(0) =~= x@);
    assert(y@.skip(0) =~= y@);
    while i < x.len() && i < y.len() && x[i] == y[i]
        invariant
            i <= x@.len(),
            i <= y@.len(),
            x@.take(i as int) == y@.take(i as int),
            seq_lt(x@, y@) == seq_lt(x@.skip(i as int), y@.skip(i as int)),
        decreases x@.len() - i,
    {
        proof {
            assert(x@.skip(i as int).drop_first() == x@.skip(i + 1));
            assert(y@.skip(i as int).drop_first() == y@.skip(i + 1));
            assert(x@.take(i + 1) == x@.take(i as int).push(x@[i as int]));
            assert(y@.take(i + 1) == y@.take(i as int).push(y@[i as int]));
        }
        i += 1;
    }
    if i == x.len() {
        assert(x@.skip(i as int).len() == 0);
        i < y.len()
    } else if i == y.len() {
        false
    } else {
        (x[i] as u32) < (y[i] as u32)
    }
}

/// Equality of two string slices.
pub fn str_eq(a: &str, b: &str) -> (r: bool)
    ensures
        r == (a@ == b@),
{
    let x = chars_of(a);
    let y = chars_of(b);
    if x.len() != y.len() {
        return false;
    }
    let mut i: usize = 0;
    while i < x.len()
        invariant
            i <= x@.len(),
            x@.len() == y@.len(),
            x@ == a@,
            y@ == b@,
            forall|j: int| 0 <= j < i ==> x@[j] == y@[j],
        decreases x@.len() - i,
    {
        if x[i] != y[i] {
            assert(x@[i as int] != y@[i as int]);
            return false;
        }
        i += 1;
    }
    assert(x@ =~= y@);
    true
}

/// The first position at or after `i` whose value occurs earlier.
pub open spec fn first_repeat(s: Seq<Seq<char>>, i: int) -> Option<int>
    decreases s.len() - i,
{
    if i < 0 || i >= s.len() {
        None
    } else if s.take(i).contains(s[i]) {
        Some(i)
    } else {
        first_repeat(s, i + 1)
    }
}

/// The character sequences of a list of strings.
pub open spec fn str_views(s: Seq<String>) -> Seq<Seq<char>> {
    s.map_values(|k: String| k@)
}

/// The first position of a string that occurs earlier in the list.
pub fn first_repeated(keys: &Vec<String>) -> (r: Option<usize>)
    ensures
        r matches Some(i) ==> first_repeat(str_views(keys@), 0) == Some(i as int) && i < keys@.len(),
        r is None ==> first_repeat(str_views(keys@), 0) is None,
{
    let ghost ks = str_views(keys@);
    let mut i: usize = 0;
    while i < keys.len()
        invariant
            i <= keys@.len(),
            ks == str_views(keys@),
            ks.len() == keys@.len(),
            first_repeat(ks, 0) == first_repeat(ks, i as int),
        decreases keys@.len() - i,
    {
        let mut j: usize = 0;
        while j < i
            invariant
                j <= i,
                i < keys@.len(),
                ks == str_views(keys@),
                ks.len() == keys@.len(),
                first_repeat(ks, 0) == first_repeat(ks, i as int),
                forall|m: int| 0 <= m < j ==> ks[m] != ks[i as int],
            decreases i - j,
        {
            if str_eq(keys[j].as_str(), keys[i].as_str()) {
                assert(ks.take(i as int)[j as int] == ks[i as int]);
                return Some(i);
            }
            j += 1;
        }
        assert(!ks.take(i as int).contains(ks[i as int]));
        i += 1;
    }
    None
}

/// `x` inserted into the key-sorted `a` after every element whose key is not greater.
pub open spec fn ins_key<T>(a: Seq<T>, x: T, key: spec_fn(T) -> Seq<char>) -> Seq<T>
    decreases a.len(),
{
    if a.len() == 0 {
        seq![x]
    } else if seq_lt(key(x), key(a.last())) {
        ins_key(a.drop_last(), x, key).push(a.last())
    } else {
        a.push(x)
    }
}

/// The stable sort of `a` by `key` (equal keys keep their order).
pub open spec fn sort_key<T>(a: Seq<T>, key: spec_fn(T) -> Seq<char>) -> Seq<T>
    decreases a.len(),
{
    if a.len() == 0 {
        Seq::empty()
    } else {
        ins_key(sort_key(a.drop_last(), key), a.last(), key)
    }
}

/// Inserting after the last element whose key is not greater than `x`'s.
pub proof fn lemma_ins_key_at<T>(a: Seq<T>, x: T, key: spec_fn(T) -> Seq<char>, j: int)
    requires
        0 <= j <= a.len(),
        forall|k: int| j <= k < a.len() ==> seq_lt(key(x), #[trigger] key(a[k])),
        j > 0 ==> !seq_lt(key(x), key(a[j - 1])),
    ensures
        ins_key(a, x, key) == a.take(j).push(x) + a.skip(j),
    decreases a.len(),
{
    if a.len() == 0 {
        assert(a.take(j).push(x) + a.skip(j) =~= seq![x]);
    } else if j == a.len() {
        assert(a.take(j).push(x) + a.skip(j) =~= a.push(x));
    } else {
        assert(seq_lt(key(x), key(a[a.len() - 1])));
        let b = a.drop_last();
        assert forall|k: int| j <= k < b.len() implies seq_lt(key(x), #[trigger] key(b[k])) by {
            assert(b[k] == a[k]);
        }
        lemma_ins_key_at(b, x, key, j);
        assert(b.take(j).push(x) + b.skip(j) + seq![a.last()] =~= a.take(j).push(x) + a.skip(j));
    }
}

/// A key-sorted association list with `(k, v)` inserted: an equal key has
/// its value replaced, else the pair goes before the first greater key.
pub open spec fn kv_insert<V>(m: Seq<(Seq<char>, V)>, k: Seq<char>, v: V) -> Seq<(Seq<char>, V)>
    decreases m.len(),
{
    if m.len() == 0 {
        seq![(k, v)]
    } else if k == m[0].0 {
        seq![(k, v)] + m.drop_first()
    } else if seq_lt(k, m[0].0) {
        seq![(k, v)] + m
    } else {
        seq![m[0]] + kv_insert(m.drop_first(), k, v)
    }
}

/// Strings joined with a separator character.
pub open spec fn join_sep(s: Seq<Seq<char>>, sep: char) -> Seq<char>
    decreases s.len(),
{
    if s.len() == 0 {
        Seq::empty()
    } else if s.len() == 1 {
        s[0]
    } else {
        join_sep(s.drop_last(), sep).push(sep) + s.last()
    }
}

/// The first occurrence of each string, in order.
pub open spec fn dedup_first(s: Seq<Seq<char>>) -> Seq<Seq<char>>
    decreases s.len(),
{
    if s.len() == 0 {
        Seq::empty()
    } else if dedup_first(s.drop_last()).contains(s.last()) {
        dedup_first(s.drop_last())
    } else {
        dedup_first(s.drop_last()).push(s.last())
    }
}

proof fn lemma_kv_insert_at<V>(m: Seq<(Seq<char>, V)>, k: Seq<char>, v: V, j: int)
    requires
        0 <= j <= m.len(),
        forall|i: int| 0 <= i < j ==> m[i].0 != k && !seq_lt(k, #[trigger] m[i].0),
        j < m.len() ==> (m[j].0 == k || seq_lt(k, m[j].0)),
    ensures
        j < m.len() && m[j].0 == k ==> kv_insert(m, k, v) == m.update(j, (k, v)),
        !(j < m.len() && m[j].0 == k) ==> kv_insert(m, k, v) == m.insert(j, (k, v)),
    decreases j,
{
    if j == 0 {
        if m.len() > 0 && m[0].0 == k {
            assert(seq![(k, v)] + m.drop_first() =~= m.update(0, (k, v)));
        } else if m.len() > 0 {
            assert(seq![(k, v)] + m =~= m.insert(0, (k, v)));
        } else {
            assert(seq![(k, v)] =~= m.insert(0, (k, v)));
        }
    } else {
        let t = m.drop_first();
        assert forall|i: int| 0 <= i < j - 1 implies t[i].0 != k && !seq_lt(k, #[trigger] t[i].0) by {
            assert(t[i] == m[i + 1]);
        }
        lemma_kv_insert_at(t, k, v, j - 1);
        assert(m[0].0 != k && !seq_lt(k, m[0].0));
        if j < m.len() && m[j].0 == k {
            assert(seq![m[0]] + t.update(j - 1, (k, v)) =~= m.update(j, (k, v)));
        } else {
            assert(seq![m[0]] + t.insert(j - 1, (k, v)) =~= m.insert(j, (k, v)));
        }
    }
}

/// The models of a string-keyed association list.
pub open spec fn kv_view<V: View>(m: Seq<(String, V)>) -> Seq<(Seq<char>, V::V)> {
    m.map_values(|p: (String, V)| (p.0@, p.1@))
}

/// Inserts `(k, v)` into a key-sorted association list, replacing the value of an equal key.
pub fn kv_insert_exec<V: View>(m: &mut Vec<(String, V)>, k: String, v: V)
    ensures
        kv_view(final(m)@) == kv_insert(kv_view(old(m)@), k@, v@),
{
    let ghost mv = kv_view(m@);
    let mut j: usize = 0;
    while j < m.len() && !str_eq(k.as_str(), m[j].0.as_str()) && !str_lt(k.as_str(), m[j].0.as_str())
        invariant
            j <= m@.len(),
            mv == kv_view(m@),
            mv.len() == m@.len(),
            forall|i: int| 0 <= i < m@.len() ==> #[trigger] mv[i] == (m@[i].0@, m@[i].1@),
            forall|i: int| 0 <= i < j ==> mv[i].0 != k@ && !seq_lt(k@, #[trigger] mv[i].0),
        decreases m@.len() - j,
    {
        j += 1;
    }
    let found = j < m.len() && str_eq(k.as_str(), m[j].0.as_str());
    proof {
        lemma_kv_insert_at(mv, k@, v@, j as int);
    }
    let ghost kv = (k@, v@);
    if found {
        m.set(j, (k, v));
        assert(kv_view(m@) =~= mv.update(j as int, kv));
    } else {
        m.insert(j, (k, v));
        assert(kv_view(m@) =~= mv.insert(j as int, kv));
    }
}

/// Strings joined with a separator character.
pub fn join_sep_exec(s: &Vec<String>, sep: char) -> (r: String)
    ensures
        r@ == join_sep(str_views(s@), sep),
{
    let mut out = String::new();
    let mut i: usize = 0;
    while i < s.len()
        invariant
            i <= s@.len(),
            out@ == join_sep(str_views(s@.take(i as int)), sep),
        decreases s@.len() - i,
    {
        let ghost t = str_views(s@.take(i + 1));
        assert(t.drop_last() =~= str_views(s@.take(i as int)));
        assert(t.last() == s@[i as int]@);
        if i > 0 {
            push_char(&mut out, sep);
        }
        push_str(&mut out, s[i].as_str());
        proof {
            if i == 0 {
                assert(out@ =~= t[0]);
            } else {
                assert(out@ =~= join_sep(t.drop_last(), sep).push(sep) + t.last());
            }
        }
        i += 1;
    }
    assert(s@.take(s@.len() as int) =~= s@);
    out
}

/// No text is below itself.
pub proof fn lemma_seq_lt_irreflexive(a: Seq<char>)
    ensures
        !seq_lt(a, a),
    decreases a.len(),
{
    if a.len() > 0 {
        lemma_seq_lt_irreflexive(a.drop_first());
    }
}

/// Of two different texts one is below the other.
pub proof fn lemma_seq_lt_total(a: Seq<char>, b: Seq<char>)
    requires
        a != b,
    ensures
        seq_lt(a, b) || seq_lt(b, a),
    decreases a.len(),
{
    if a.len() > 0 && b.len() > 0 && a[0] == b[0] {
        if a.drop_first() == b.drop_first() {
            assert(a =~= seq![a[0]] + a.drop_first());
            assert(b =~= seq![b[0]] + b.drop_first());
        }
        lemma_seq_lt_total(a.drop_first(), b.drop_first());
    } else if a.len() > 0 && b.len() > 0 {
        let x = a[0];
        let y = b[0];
        vstd::utf8::char_u32_cast(x, x as u32);
        vstd::utf8::char_u32_cast(y, y as u32);
        assert((x as u32) != (y as u32));
    } else if a.len() == 0 && b.len() == 0 {
        assert(a =~= b);
    }
}

/// The order of texts is transitive.
pub proof fn lemma_seq_lt_transitive(a: Seq<char>, b: Seq<char>, c: Seq<char>)
    requires
        seq_lt(a, b),
        seq_lt(b, c),
    ensures
        seq_lt(a, c),
    decreases a.len(),
{
    if a.len() > 0 && b.len() > 0 && c.len() > 0 && a[0] == b[0] && b[0] == c[0] {
        lemma_seq_lt_transitive(a.drop_first(), b.drop_first(), c.drop_first());
    }
}

/// Keys in nondecreasing order.
pub open spec fn sorted_by<T>(s: Seq<T>, key: spec_fn(T) -> Seq<char>) -> bool {
    forall|i: int, j: int| 0 <= i < j < s.len() ==> !seq_lt(#[trigger] key(s[j]), #[trigger] key(s[i]))
}

proof fn lemma_not_lt_transitive(a: Seq<char>, b: Seq<char>, c: Seq<char>)
    requires
        !seq_lt(b, a),
        !seq_lt(c, b),
    ensures
        !seq_lt(c, a),
{
    if seq_lt(c, a) {
        if a == b {
        } else {
            lemma_seq_lt_total(a, b);
            if b == c {
            } else {
                lemma_seq_lt_total(b, c);
                lemma_seq_lt_transitive(a, b, c);
                lemma_seq_lt_transitive(c, a, b);
                lemma_seq_lt_irreflexive(c);
                lemma_seq_lt_transitive(c, a, c);
            }
        }
        if a == b {
            lemma_seq_lt_irreflexive(a);
            if b != c {
                lemma_seq_lt_total(b, c);
                lemma_seq_lt_transitive(c, a, c);
                lemma_seq_lt_irreflexive(c);
            }
        }
    }
}

/// Every element of `ins_key(a, x, key)` is `x` or an element of `a`, and
/// sorted input stays sorted.
proof fn lemma_ins_key_sorted<T>(a: Seq<T>, x: T, key: spec_fn(T) -> Seq<char>)
    ensures
        forall|i: int| 0 <= i < ins_key(a, x, key).len() ==>
            #[trigger] ins_key(a, x, key)[i] == x || exists|j: int| 0 <= j < a.len() && a[j] == ins_key(a, x, key)[i],
        ins_key(a, x, key).len() == a.len() + 1,
        sorted_by(a, key) ==> sorted_by(ins_key(a, x, key), key),
    decreases a.len(),
{
    let r = ins_key(a, x, key);
    if a.len() == 0 {
    } else if seq_lt(key(x), key(a.last())) {
        let b = a.drop_last();
        lemma_ins_key_sorted(b, x, key);
        let rb = ins_key(b, x, key);
        assert(r == rb.push(a.last()));
        assert forall|i: int| 0 <= i < r.len() implies #[trigger] r[i] == x
            || exists|j: int| 0 <= j < a.len() && a[j] == r[i] by {
            if i == r.len() - 1 {
                assert(a[a.len() - 1] == r[i]);
            } else {
                assert(r[i] == rb[i]);
                if rb[i] != x {
                    let j = choose|j: int| 0 <= j < b.len() && b[j] == rb[i];
                    assert(a[j] == r[i]);
                }
            }
        }
        if sorted_by(a, key) {
            assert(sorted_by(b, key)) by {
                assert forall|i: int, j: int| 0 <= i < j < b.len() implies !seq_lt(#[trigger] key(b[j]), #[trigger] key(b[i])) by {
                    assert(b[i] == a[i] && b[j] == a[j]);
                }
            }
            assert forall|i: int, j: int| 0 <= i < j < r.len() implies !seq_lt(#[trigger] key(r[j]), #[trigger] key(r[i])) by {
                if j == r.len() - 1 {
                    assert(r[j] == a.last());
                    assert(r[i] == rb[i]);
                    if rb[i] == x {
                        lemma_seq_lt_irreflexive(key(x));
                        if seq_lt(key(a.last()), key(x)) {
                            lemma_seq_lt_transitive(key(x), key(a.last()), key(x));
                        }
                    } else {
                        let m = choose|m: int| 0 <= m < b.len() && b[m] == rb[i];
                        assert(a[m] == b[m]);
                        assert(!seq_lt(key(a[a.len() - 1]), key(a[m])));
                    }
                } else {
                    assert(r[i] == rb[i] && r[j] == rb[j]);
                }
            }
        }
    } else {
        assert(r == a.push(x));
        assert forall|i: int| 0 <= i < r.len() implies #[trigger] r[i] == x
            || exists|j: int| 0 <= j < a.len() && a[j] == r[i] by {
            if i < a.len() {
                assert(a[i] == r[i]);
            }
        }
        if sorted_by(a, key) {
            assert forall|i: int, j: int| 0 <= i < j < r.len() implies !seq_lt(#[trigger] key(r[j]), #[trigger] key(r[i])) by {
                if j == r.len() - 1 {
                    assert(r[j] == x);
                    assert(r[i] == a[i]);
                    if i < a.len() - 1 {
                        assert(!seq_lt(key(a[a.len() - 1]), key(a[i])));
                        lemma_not_lt_transitive(key(a[i]), key(a[a.len() - 1]), key(x));
                    }
                } else {
                    assert(r[i] == a[i] && r[j] == a[j]);
                }
            }
        }
    }
}

/// A stable sort by key yields keys in nondecreasing order.
pub proof fn lemma_sort_key_sorted<T>(a: Seq<T>, key: spec_fn(T) -> Seq<char>)
    ensures
        sorted_by(sort_key(a, key), key),
        sort_key(a, key).len() == a.len(),
    decreases a.len(),
{
    if a.len() > 0 {
        lemma_sort_key_sorted(a.drop_last(), key);
        lemma_ins_key_sorted(sort_key(a.drop_last(), key), a.last(), key);
    }
}

/// A list whose first repeat is none has no two equal elements.
pub proof fn lemma_no_repeat(s: Seq<Seq<char>>, i: int)
    requires
        0 <= i <= s.len(),
        first_repeat(s, i) is None,
    ensures
        forall|a: int, b: int| 0 <= a < b < s.len() && i <= b ==> s[a] != s[b],
    decreases s.len() - i,
{
    if i < s.len() {
        assert(!s.take(i).contains(s[i]));
        lemma_no_repeat(s, i + 1);
        assert forall|a: int, b: int| 0 <= a < b < s.len() && i <= b implies s[a] != s[b] by {
            if b == i {
                assert(s.take(i)[a] == s[a]);
            }
        }
    }
}

/// Every element of a stable sort is an element of its input.
pub proof fn lemma_sort_key_members<T>(a: Seq<T>, key: spec_fn(T) -> Seq<char>)
    ensures
        forall|i: int| 0 <= i < sort_key(a, key).len() ==>
            exists|j: int| 0 <= j < a.len() && a[j] == #[trigger] sort_key(a, key)[i],
    decreases a.len(),
{
    if a.len() > 0 {
        let b = a.drop_last();
        lemma_sort_key_members(b, key);
        lemma_sort_key_sorted(b, key);
        lemma_ins_key_sorted(sort_key(b, key), a.last(), key);
        let s = sort_key(a, key);
        assert forall|i: int| 0 <= i < s.len() implies exists|j: int| 0 <= j < a.len() && a[j] == #[trigger] s[i] by {
            if s[i] == a.last() {
                assert(a[a.len() - 1] == s[i]);
            } else {
                let m = choose|m: int| 0 <= m < sort_key(b, key).len() && sort_key(b, key)[m] == s[i];
                let j = choose|j: int| 0 <= j < b.len() && b[j] == sort_key(b, key)[m];
                assert(a[j] == s[i]);
            }
        }
    }
}

/// Names in strictly increasing order.
pub open spec fn names_increasing(s: Seq<Seq<char>>) -> bool {
    forall|i: int, j: int| 0 <= i < j < s.len() ==> seq_lt(#[trigger] s[i], #[trigger] s[j])
}

/// Sorted keys with no repeat are strictly increasing.
pub proof fn lemma_sorted_distinct_increasing<T>(s: Seq<T>, key: spec_fn(T) -> Seq<char>)
    requires
        sorted_by(s, key),
        first_repeat(s.map_values(|x: T| key(x)), 0) is None,
    ensures
        names_increasing(s.map_values(|x: T| key(x))),
{
    let names = s.map_values(|x: T| key(x));
    lemma_no_repeat(names, 0);
    assert forall|i: int, j: int| 0 <= i < j < names.len() implies seq_lt(#[trigger] names[i], #[trigger] names[j]) by {
        assert(names[i] == key(s[i]) && names[j] == key(s[j]));
        assert(!seq_lt(key(s[j]), key(s[i])));
        assert(names[i] != names[j]);
        lemma_seq_lt_total(names[i], names[j]);
    }
}

/// Sorting what is already sorted changes nothing.
pub proof fn lemma_sort_key_sorted_id<T>(a: Seq<T>, key: spec_fn(T) -> Seq<char>)
    requires
        sorted_by(a, key),
    ensures
        sort_key(a, key) == a,
    decreases a.len(),
{
    if a.len() > 0 {
        let b = a.drop_last();
        assert(sorted_by(b, key)) by {
            assert forall|i: int, j: int| 0 <= i < j < b.len() implies !seq_lt(#[trigger] key(b[j]), #[trigger] key(b[i])) by {
                assert(b[i] == a[i] && b[j] == a[j]);
            }
        }
        lemma_sort_key_sorted_id(b, key);
        if b.len() > 0 {
            assert(!seq_lt(key(a[a.len() - 1]), key(a[a.len() - 2])));
            assert(b.last() == a[a.len() - 2]);
        }
        assert(b.push(a.last()) =~= a);
    }
}

/// Strictly increasing names have no repeat.
pub proof fn lemma_increasing_no_repeat(s: Seq<Seq<char>>, i: int)
    requires
        names_increasing(s),
        0 <= i,
    ensures
        first_repeat(s, i) is None,
    decreases s.len() - i,
{
    if i < s.len() {
        assert(!s.take(i).contains(s[i])) by {
            if s.take(i).contains(s[i]) {
                let a = choose|a: int| 0 <= a < s.take(i).len() && s.take(i)[a] == s[i];
                assert(s[a] == s[i]);
                assert(seq_lt(s[a], s[i]));
                lemma_seq_lt_irreflexive(s[i]);
            }
        }
        lemma_increasing_no_repeat(s, i + 1);
    }
}

// ---------------------------------------------------------------------------
// Sorting keeps the elements
// ---------------------------------------------------------------------------

/// Inserting adds the element to the multiset of the list.
pub proof fn lemma_ins_key_multiset<T>(a: Seq<T>, x: T, key: spec_fn(T) -> Seq<char>)
    ensures
        ins_key(a, x, key).to_multiset() == a.to_multiset().insert(x),
    decreases a.len(),
{
    broadcast use vstd::seq_lib::group_to_multiset_ensures;
    if a.len() == 0 {
        assert(seq![x] == Seq::<T>::empty().push(x));
    } else if seq_lt(key(x), key(a.last())) {
        let d = a.drop_last();
        lemma_ins_key_multiset(d, x, key);
        assert(d.push(a.last()) == a);
        assert(ins_key(a, x, key).to_multiset() =~= a.to_multiset().insert(x));
    }
}

/// A stable sort is a permutation: it keeps the multiset of the list.
pub proof fn lemma_sort_key_multiset<T>(a: Seq<T>, key: spec_fn(T) -> Seq<char>)
    ensures
        sort_key(a, key).to_multiset() == a.to_multiset(),
    decreases a.len(),
{
    broadcast use vstd::seq_lib::group_to_multiset_ensures;
    if a.len() > 0 {
        let d = a.drop_last();
        lemma_sort_key_multiset(d, key);
        lemma_ins_key_multiset(sort_key(d, key), a.last(), key);
        assert(d.push(a.last()) == a);
    }
}

/// Texts ordered by themselves.
pub open spec fn text_key() -> spec_fn(Seq<char>) -> Seq<char> {
    |t: Seq<char>| t
}

proof fn lemma_ins_key_map<T>(a: Seq<T>, x: T, key: spec_fn(T) -> Seq<char>)
    ensures
        ins_key(a, x, key).map_values(key) == ins_key(a.map_values(key), key(x), text_key()),
    decreases a.len(),
{
    let am = a.map_values(key);
    if a.len() == 0 {
        assert(ins_key(a, x, key).map_values(key) =~= seq![key(x)]);
    } else {
        let d = a.drop_last();
        assert(am.drop_last() =~= d.map_values(key));
        assert(am.last() == key(a.last()));
        if seq_lt(key(x), key(a.last())) {
            lemma_ins_key_map(d, x, key);
            assert(ins_key(a, x, key).map_values(key) =~= ins_key(d, x, key).map_values(key).push(key(a.last())));
        } else {
            assert(ins_key(a, x, key).map_values(key) =~= am.push(key(x)));
        }
    }
}

/// The keys of a stable sort are the stable sort of the keys.
pub proof fn lemma_sort_key_map<T>(a: Seq<T>, key: spec_fn(T) -> Seq<char>)
    ensures
        sort_key(a, key).map_values(key) == sort_key(a.map_values(key), text_key()),
    decreases a.len(),
{
    if a.len() > 0 {
        let d = a.drop_last();
        lemma_sort_key_map(d, key);
        lemma_ins_key_map(sort_key(d, key), a.last(), key);
        assert(a.map_values(key).drop_last() =~= d.map_values(key));
    }
}

/// No text occurs twice in the list.
pub open spec fn texts_distinct(s: Seq<Seq<char>>) -> bool {
    forall|a: int, b: int| 0 <= a < b < s.len() ==> #[trigger] s[a] != #[trigger] s[b]
}

/// A list has no repeat exactly when every text occurs at most once in it.
pub proof fn lemma_distinct_counts(s: Seq<Seq<char>>)
    ensures
        texts_distinct(s) <==> forall|x: Seq<char>| #[trigger] s.to_multiset().count(x) <= 1,
    decreases s.len(),
{
    broadcast use vstd::seq_lib::group_to_multiset_ensures;
    if s.len() > 0 {
        let d = s.drop_last();
        let y = s.last();
        lemma_distinct_counts(d);
        assert(d.push(y) == s);
        if texts_distinct(s) {
            assert(texts_distinct(d)) by {
                assert forall|a: int, b: int| 0 <= a < b < d.len() implies #[trigger] d[a] != #[trigger] d[b] by {
                    assert(d[a] == s[a] && d[b] == s[b]);
                }
            }
            assert(!d.contains(y)) by {
                if d.contains(y) {
                    let a = choose|a: int| 0 <= a < d.len() && d[a] == y;
                    assert(s[a] == s[s.len() - 1]);
                }
            }
            assert forall|x: Seq<char>| #[trigger] s.to_multiset().count(x) <= 1 by {
                assert(d.to_multiset().count(x) <= 1);
            }
        }
        if forall|x: Seq<char>| #[trigger] s.to_multiset().count(x) <= 1 {
            assert forall|x: Seq<char>| #[trigger] d.to_multiset().count(x) <= 1 by {
                assert(s.to_multiset().count(x) <= 1);
            }
            assert(s.to_multiset().count(y) <= 1);
            assert(d.to_multiset().count(y) == 0);
            assert forall|a: int, b: int| 0 <= a < b < s.len() implies #[trigger] s[a] != #[trigger] s[b] by {
                if b == s.len() - 1 {
                    assert(d[a] == s[a]);
                    assert(d.contains(d[a]));
                } else {
                    assert(d[a] == s[a] && d[b] == s[b]);
                }
            }
        }
    }
}

/// Sorting keeps a list of keys free of repeats, and keeps repeats.
pub proof fn lemma_sort_key_distinct<T>(a: Seq<T>, key: spec_fn(T) -> Seq<char>)
    ensures
        texts_distinct(sort_key(a, key).map_values(key)) <==> texts_distinct(a.map_values(key)),
{
    lemma_sort_key_map(a, key);
    lemma_sort_key_multiset(a.map_values(key), text_key());
    lemma_distinct_counts(sort_key(a, key).map_values(key));
    lemma_distinct_counts(a.map_values(key));
}

/// A list has no repeat exactly when its first repeat is none.
pub proof fn lemma_first_repeat_none_distinct(s: Seq<Seq<char>>, i: int)
    requires
        0 <= i <= s.len(),
    ensures
        first_repeat(s, i) is None <==> forall|a: int, b: int| 0 <= a < b < s.len() && i <= b ==> s[a] != s[b],
    decreases s.len() - i,
{
    if i < s.len() {
        lemma_first_repeat_none_distinct(s, i + 1);
        if s.take(i).contains(s[i]) {
            let a = choose|a: int| 0 <= a < s.take(i).len() && s.take(i)[a] == s[i];
            assert(s[a] == s[i]);
        } else {
            assert forall|a: int, b: int| 0 <= a < b < s.len() && i <= b && first_repeat(s, i + 1) is None implies s[a] != s[b] by {
                if b == i {
                    assert(s.take(i)[a] == s[a]);
                }
            }
        }
    }
}

} // verus!
