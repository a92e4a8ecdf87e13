//! SHA-256 content hashes in `sha256:<hex>` form and stable entity ids.
use vstd::prelude::*;
use crate::text::{chars_of, digit_char, push_str};
use sha2::Digest;
use vstd::string::StringSliceAdditionalSpecFns;
use vstd::utf8::encode_utf8;

verus! {

/// The SHA-256 digest of a byte sequence, as computed by the `sha2` crate.
pub uninterp spec fn sha256_digest(data: Seq<u8>) -> Seq<u8>;

/// The lower-case hexadecimal digit for `n < 16`.
pub open spec fn hex_digit(n: nat) -> char {
    if n < 10 { digit_char(n) } else if n == 10 { 'a' } else if n == 11 { 'b' } else if n == 12 { 'c' }
    else if n == 13 { 'd' } else if n == 14 { 'e' } else { 'f' }
}

/// Lower-case hexadecimal encoding: two digits per byte, high nibble first.
pub open spec fn hex_lower(b: Seq<u8>) -> Seq<char>
    decreases b.len(),
{
    if b.len() == 0 {
        Seq::empty()
    } else {
        seq![hex_digit((b[0] / 16) as nat), hex_digit((b[0] % 16) as nat)] + hex_lower(b.drop_first())
    }
}

/// `0-9`, `a-f` or `A-F`.
pub open spec fn is_hex_char(c: char) -> bool {
    ('0' <= c && c <= '9') || ('a' <= c && c <= 'f') || ('A' <= c && c <= 'F')
}

/// The text `sha256:`.
pub open spec fn sha256_prefix() -> Seq<char> {
    seq!['s', 'h', 'a', '2', '5', '6', ':']
}

/// `sha256:` followed by exactly 64 hexadecimal digits (either case).
pub open spec fn is_hash_text(s: Seq<char>) -> bool {
    &&& s.len() == 71
    &&& s.subrange(0, 7) == sha256_prefix()
    &&& forall|i: int| 7 <= i < 71 ==> is_hex_char(#[trigger] s[i])
}

/// `0-9` or `a-f`.
pub open spec fn is_lower_hex_char(c: char) -> bool {
    ('0' <= c && c <= '9') || ('a' <= c && c <= 'f')
}

/// `sha256:` followed by exactly 64 lower-case hexadecimal digits.
pub open spec fn is_lower_hash_text(s: Seq<char>) -> bool {
    &&& s.len() == 71
    &&& s.subrange(0, 7) == sha256_prefix()
    &&& forall|i: int| 7 <= i < 71 ==> is_lower_hex_char(#[trigger] s[i])
}

/// The `sha256:<hex>` text of the digest of `data`.
pub open spec fn hash_text(data: Seq<u8>) -> Seq<char> {
    sha256_prefix() + hex_lower(sha256_digest(data))
}

/// `sha2::Sha256` over `data`: the contract names the digest and states its
/// documented 32-byte length.
#[verifier::external_body]
fn sha256(data: &[u8]) -> (d: Vec<u8>)
    ensures
        d@ == sha256_digest(data@),
        d@.len() == 32,
{
    let mut hasher = sha2::Sha256::new();
    hasher.update(data);
    hasher.finalize().to_vec()
}

/// `hex::encode`: lower-case hexadecimal, two digits per byte, high nibble first
/// (the crate's `HEX_CHARS_LOWER` table).
#[verifier::external_body]
fn hex_encode(data: &[u8]) -> (s: String)
    ensures
        s@ == hex_lower(data@),
{
    hex::encode(data)
}

proof fn lemma_hex_lower(b: Seq<u8>)
    ensures
        hex_lower(b).len() == 2 * b.len(),
        forall|i: int| 0 <= i < hex_lower(b).len() ==> is_hex_char(#[trigger] hex_lower(b)[i]),
    decreases b.len(),
{
    if b.len() > 0 {
        lemma_hex_lower(b.drop_first());
        let h = seq![hex_digit((b[0] / 16) as nat), hex_digit((b[0] % 16) as nat)];
        assert forall|i: int| 0 <= i < hex_lower(b).len() implies is_hex_char(#[trigger] hex_lower(b)[i]) by {
            if i >= 2 {
                assert(hex_lower(b)[i] == hex_lower(b.drop_first())[i - 2]);
            }
        }
    }
}

fn prefix_char(i: usize) -> (c: char)
    requires
        i < 7,
    ensures
        c == sha256_prefix()[i as int],
{
    if i == 0 { 's' } else if i == 1 { 'h' } else if i == 2 { 'a' } else if i == 3 { '2' }
    else if i == 4 { '5' } else if i == 5 { '6' } else { ':' }
}

/// Errors of hash parsing.
#[derive(Debug, Clone, PartialEq, Eq)]
pub enum HashError {
    /// The text is not `sha256:` followed by 64 hexadecimal digits.
    InvalidFormat(String),
}

/// A SHA-256 hash in `sha256:<hex>` form.
#[derive(Debug)]
pub struct Hash(String);

impl Clone for Hash {
    fn clone(&self) -> (r: Hash)
        ensures
            r@ == self@,
    {
        proof {
            use_type_invariant(self);
        }
        Hash(self.0.clone())
    }
}

impl View for Hash {
    type V = Seq<char>;

    closed spec fn view(&self) -> Seq<char> {
        self.0@
    }
}

impl PartialEq for Hash {
    fn eq(&self, other: &Self) -> (r: bool) {
        self.0 == other.0
    }
}

impl vstd::std_specs::cmp::PartialEqSpecImpl for Hash {
    open spec fn obeys_eq_spec() -> bool {
        true
    }

    closed spec fn eq_spec(&self, other: &Self) -> bool {
        self.0@ == other.0@
    }
}

impl Eq for Hash {}

impl Hash {
    /// Every hash is `sha256:` followed by 64 hexadecimal digits.
    #[verifier::type_invariant]
    spec fn well_formed(self) -> bool {
        is_hash_text(self.0@)
    }

    /// Parses `sha256:<64 hex digits>`; anything else is `InvalidFormat(s)`.
    pub fn parse(s: &str) -> (r: Result<Hash, HashError>)
        ensures
            r is Ok <==> is_hash_text(s@),
            r matches Ok(h) ==> h@ == s@,
            r matches Err(HashError::InvalidFormat(t)) ==> t@ == s@,
    {
        let cs = chars_of(s);
        let mut ok = cs.len() == 71;
        if ok {
            let mut i: usize = 0;
            while i < 7
                invariant
                    0 <= i <= 7,
                    cs@.len() == 71,
                    ok ==> forall|j: int| 0 <= j < i ==> cs@[j] == #[trigger] sha256_prefix()[j],
                    !ok ==> exists|j: int| 0 <= j < i && cs@[j] != #[trigger] sha256_prefix()[j],
                decreases 7 - i,
            {
                if cs[i] != prefix_char(i) {
                    ok = false;
                }
                i += 1;
            }
            if ok {
                assert(cs@.subrange(0, 7) =~= sha256_prefix());
            } else {
                assert(cs@.subrange(0, 7) != sha256_prefix()) by {
                    let j = choose|j: int| 0 <= j < 7 && cs@[j] != #[trigger] sha256_prefix()[j];
                    assert(cs@.subrange(0, 7)[j] == cs@[j]);
                }
            }
        }
        if ok {
            let mut i: usize = 7;
            while i < 71
                invariant
                    7 <= i <= 71,
                    cs@.len() == 71,
                    ok ==> forall|j: int| 7 <= j < i ==> is_hex_char(#[trigger] cs@[j]),
                    !ok ==> exists|j: int| 7 <= j < i && !is_hex_char(#[trigger] cs@[j]),
                decreases 71 - i,
            {
                let c = cs[i];
                if !(('0' <= c && c <= '9') || ('a' <= c && c <= 'f') || ('A' <= c && c <= 'F')) {
                    ok = false;
                }
                i += 1;
            }
        }
        if ok {
            Ok(Hash(String::from_str(s)))
        } else {
            Err(HashError::InvalidFormat(String::from_str(s)))
        }
    }

    /// The 64 hexadecimal digits after `sha256:`.
    pub fn hex(&self) -> (r: &str)
        ensures
            r@ == self@.subrange(7, self@.len() as int),
            r@.len() == 64,
    {
        proof {
            use_type_invariant(self);
        }
        let s = self.0.as_str();
        let n = s.unicode_len();
        s.substring_char(7, n)
    }

    /// The `sha256:<hex>` digest of raw bytes.
    pub fn from_bytes(bytes: &[u8]) -> (h: Hash)
        ensures
            h@ == hash_text(bytes@),
    {
        let digest = sha256(bytes);
        let hex = hex_encode(digest.as_slice());
        let mut s = String::from_str("sha256:");
        proof {
            reveal_strlit("sha256:");
            lemma_hex_lower(digest@);
        }
        assert(s@ == sha256_prefix());
        push_str(&mut s, hex.as_str());
        assert(s@.subrange(0, 7) =~= sha256_prefix());
        assert forall|i: int| 7 <= i < 71 implies is_hex_char(#[trigger] s@[i]) by {
            assert(s@[i] == hex@[i - 7]);
        }
        Hash(s)
    }

    /// The text of the hash, `sha256:<hex>`.
    pub fn to_string(&self) -> (s: String)
        ensures
            s@ == self@,
            is_hash_text(s@),
    {
        proof {
            use_type_invariant(self);
        }
        self.0.clone()
    }
}

/// Hash raw bytes with SHA-256.
pub fn sha256_bytes(data: &[u8]) -> (h: Hash)
    ensures
        h@ == hash_text(data@),
{
    Hash::from_bytes(data)
}

/// Hash the UTF-8 encoding of a string with SHA-256.
pub fn sha256_str(data: &str) -> (h: Hash)
    ensures
        h@ == hash_text(data.spec_bytes()),
{
    Hash::from_bytes(data.as_bytes())
}

/// The domain separator of stable ids.
pub open spec fn stable_id_domain() -> Seq<char> {
    "conclave:v0.1"@
}

/// `sha256("conclave:v0.1" || entity_kind || canonical_body)`, the parts
/// concatenated as UTF-8 bytes with no delimiters.
pub open spec fn stable_id_text(kind: Seq<char>, body: Seq<char>) -> Seq<char> {
    hash_text(encode_utf8(stable_id_domain()) + encode_utf8(kind) + encode_utf8(body))
}

fn append_bytes(v: &mut Vec<u8>, b: &[u8])
    ensures
        final(v)@ == old(v)@ + b@,
{
    let mut i: usize = 0;
    while i < b.len()
        invariant
            i <= b@.len(),
            v@ == old(v)@ + b@.take(i as int),
        decreases b@.len() - i,
    {
        v.push(b[i]);
        assert(b@.take(i + 1) == b@.take(i as int).push(b@[i as int]));
        i += 1;
    }
    assert(b@.take(b@.len() as int) == b@);
}

/// Compute a stable entity id from its kind and canonical body:
/// `sha256("conclave:v0.1" || entity_kind || canonical_body)`.
pub fn compute_stable_id(entity_kind: &str, canonical_body: &str) -> (h: Hash)
    ensures
        h@ == stable_id_text(entity_kind@, canonical_body@),
{
    let mut data: Vec<u8> = Vec::new();
    append_bytes(&mut data, "conclave:v0.1".as_bytes());
    append_bytes(&mut data, entity_kind.as_bytes());
    append_bytes(&mut data, canonical_body.as_bytes());
    sha256_bytes(data.as_slice())
}

} // verus!
