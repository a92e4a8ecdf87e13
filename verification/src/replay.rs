//! Keys of a replay store: `"<capability>::<node key>"`.
use vstd::prelude::*;
use crate::text::chars_of;
use crate::lang::lexer::sub_string;

verus! {

/// Whether `::` starts at `i`.
pub open spec fn sep_at(s: Seq<char>, i: int) -> bool {
    0 <= i && i + 1 < s.len() && s[i] == ':' && s[i + 1] == ':'
}

/// The first index at or after `i` where `::` starts, if any.
pub open spec fn first_sep(s: Seq<char>, i: int) -> Option<int>
    decreases s.len() - i,
{
    if i < 0 || i + 1 >= s.len() {
        None
    } else if sep_at(s, i) {
        Some(i)
    } else {
        first_sep(s, i + 1)
    }
}

/// A replay-store key split at its first `::` into the capability and the
/// node key; a key without `::` is invalid (`None`).
pub fn split_replay_key(key: &str) -> (r: Option<(String, String)>)
    ensures
        match first_sep(key@, 0) {
            Some(i) => r matches Some(p) && p.0@ == key@.subrange(0, i) && p.1@ == key@.subrange(i + 2, key@.len() as int),
            None => r is None,
        },
{
    let cs = chars_of(key);
    let mut i: usize = 0;
    while cs.len() > 1 && i < cs.len() - 1
        invariant
            cs@ == key@,
            i <= cs@.len(),
            first_sep(key@, 0) == first_sep(key@, i as int),
        decreases cs@.len() - i,
    {
        if cs[i] == ':' && cs[i + 1] == ':' {
            return Some((sub_string(&cs, 0, i), sub_string(&cs, i + 2, cs.len())));
        }
        i += 1;
    }
    None
}

} // verus!
