//! Sealed artifacts: `runtime_bytes || bundle_bytes || trailer`, where the
//! trailer is the bundle length as 8 little-endian bytes followed by the
//! magic `CNCLV01\0`, and the bundle is the canonical JSON of the manifest,
//! the Plan IR and the hashes that bind them.
use vstd::prelude::*;
use crate::hash::{hash_text, sha256_bytes, sha256_str};
use crate::ir::{PlanIr, plan_json, plan_to_json};
use crate::ir::canonical::{compute_plan_ir_hash, plan_hash};
use crate::json::{
    JsonValue, SJson, canonical_text, push_member, remove_at_path, remove_field_at_path,
    to_canonical_json, view_members,
};
use crate::manifest::{
    Manifest, compute_canonical_manifest_hash, manifest_hash, manifest_json, manifest_to_json, s,
};
use crate::text::{push_str, str_eq};
use vstd::utf8::encode_utf8;

verus! {

/// The sealed program payload of an artifact.
#[derive(Debug)]
pub struct Bundle {
    /// `0.1`
    pub bundle_version: String,
    pub manifest: Manifest,
    pub plan_ir: PlanIr,
    /// Name to embedded capability artifact, key-sorted.
    pub embedded_artifacts: Option<Vec<(String, EmbeddedArtifact)>>,
    pub bundle_hashes: BundleHashes,
}

/// An embedded capability artifact; `bytes` is base64 for JSON transport.
#[derive(Debug, Clone)]
pub struct EmbeddedArtifact {
    pub kind: String,
    pub name: String,
    pub signature: String,
    /// `raw`
    pub bytes_encoding: String,
    pub bytes: String,
}

/// Hashes pinned inside the bundle.
#[derive(Debug, Clone)]
pub struct BundleHashes {
    pub canonical_manifest_hash: String,
    pub plan_ir_hash: String,
    pub bundle_hash: String,
}

/// Faults of packing and unpacking.
#[derive(Debug, Clone, PartialEq, Eq)]
pub enum PackError {
    ArtifactTruncated,
    ArtifactBadMagic,
    BundleParseFailed(String),
    BundleHashMismatch { expected: String, got: String },
    ManifestHashMismatch { expected: String, got: String },
    PlanHashMismatch { expected: String, got: String },
}

pub enum PackErrorV {
    ArtifactTruncated,
    ArtifactBadMagic,
    BundleParseFailed(Seq<char>),
    BundleHashMismatch { expected: Seq<char>, got: Seq<char> },
    ManifestHashMismatch { expected: Seq<char>, got: Seq<char> },
    PlanHashMismatch { expected: Seq<char>, got: Seq<char> },
}

impl View for PackError {
    type V = PackErrorV;

    open spec fn view(&self) -> PackErrorV {
        match self {
            PackError::ArtifactTruncated => PackErrorV::ArtifactTruncated,
            PackError::ArtifactBadMagic => PackErrorV::ArtifactBadMagic,
            PackError::BundleParseFailed(m) => PackErrorV::BundleParseFailed(m@),
            PackError::BundleHashMismatch { expected, got } =>
                PackErrorV::BundleHashMismatch { expected: expected@, got: got@ },
            PackError::ManifestHashMismatch { expected, got } =>
                PackErrorV::ManifestHashMismatch { expected: expected@, got: got@ },
            PackError::PlanHashMismatch { expected, got } =>
                PackErrorV::PlanHashMismatch { expected: expected@, got: got@ },
        }
    }
}

// ---------------------------------------------------------------------------
// The bundle's JSON, bytes and hash
// ---------------------------------------------------------------------------

pub open spec fn artifact_json(a: EmbeddedArtifact) -> SJson {
    SJson::Object(
        seq![
            ("kind"@, s(a.kind)),
            ("name"@, s(a.name)),
            ("signature"@, s(a.signature)),
            ("bytes_encoding"@, s(a.bytes_encoding)),
            ("bytes"@, s(a.bytes)),
        ],
    )
}

/// The `bundle_hashes` object with the given hash texts.
pub open spec fn hashes_json(manifest_h: Seq<char>, plan_h: Seq<char>, bundle_h: Seq<char>) -> SJson {
    SJson::Object(
        seq![
            ("canonical_manifest_hash"@, SJson::Str(manifest_h)),
            ("plan_ir_hash"@, SJson::Str(plan_h)),
            ("bundle_hash"@, SJson::Str(bundle_h)),
        ],
    )
}

/// The JSON of a bundle whose `bundle_hashes` member is `hs`; absent
/// embedded artifacts are left out.
pub open spec fn bundle_json_with(b: Bundle, hs: SJson) -> SJson {
    SJson::Object(
        seq![
            ("bundle_version"@, s(b.bundle_version)),
            ("manifest"@, manifest_json(b.manifest)),
            ("plan_ir"@, plan_json(b.plan_ir@)),
        ] + match b.embedded_artifacts {
            Some(m) => seq![
                ("embedded_artifacts"@, SJson::Object(
                    m@.map_values(|p: (String, EmbeddedArtifact)| (p.0@, artifact_json(p.1))),
                )),
            ],
            None => Seq::empty(),
        } + seq![("bundle_hashes"@, hs)],
    )
}

/// The JSON of a bundle.
pub open spec fn bundle_json(b: Bundle) -> SJson {
    bundle_json_with(
        b,
        hashes_json(
            b.bundle_hashes.canonical_manifest_hash@,
            b.bundle_hashes.plan_ir_hash@,
            b.bundle_hashes.bundle_hash@,
        ),
    )
}

pub open spec fn bundle_hash_path() -> Seq<Seq<char>> {
    seq!["bundle_hashes"@, "bundle_hash"@]
}

/// `bundle_hash`: SHA-256 of the canonical JSON without `bundle_hashes.bundle_hash`.
pub open spec fn bundle_hash_of(j: SJson) -> Seq<char> {
    hash_text(encode_utf8(canonical_text(remove_at_path(j, bundle_hash_path()))))
}

/// The bundle bytes of an artifact: the UTF-8 canonical JSON.
pub open spec fn bundle_bytes_of(j: SJson) -> Seq<u8> {
    encode_utf8(canonical_text(j))
}

fn str_json(t: &String) -> (j: JsonValue)
    ensures
        j@ == s(*t),
{
    JsonValue::Str(t.clone())
}

fn artifact_to_json(a: &EmbeddedArtifact) -> (j: JsonValue)
    ensures
        j@ == artifact_json(*a),
{
    let mut ps: Vec<(String, JsonValue)> = Vec::new();
    push_member(&mut ps, "kind", str_json(&a.kind));
    push_member(&mut ps, "name", str_json(&a.name));
    push_member(&mut ps, "signature", str_json(&a.signature));
    push_member(&mut ps, "bytes_encoding", str_json(&a.bytes_encoding));
    push_member(&mut ps, "bytes", str_json(&a.bytes));
    assert(view_members(ps@) =~= artifact_json(*a)->Object_0);
    JsonValue::Object(ps)
}

fn artifacts_to_json(m: &Vec<(String, EmbeddedArtifact)>) -> (j: JsonValue)
    ensures
        j@ == SJson::Object(m@.map_values(|p: (String, EmbeddedArtifact)| (p.0@, artifact_json(p.1)))),
{
    let mut ps: Vec<(String, JsonValue)> = Vec::new();
    let mut i: usize = 0;
    while i < m.len()
        invariant
            i <= m@.len(),
            view_members(ps@) == m@.take(i as int).map_values(|p: (String, EmbeddedArtifact)| (p.0@, artifact_json(p.1))),
        decreases m@.len() - i,
    {
        let ghost before = view_members(ps@);
        push_member(&mut ps, m[i].0.as_str(), artifact_to_json(&m[i].1));
        assert(m@.take(i + 1).map_values(|p: (String, EmbeddedArtifact)| (p.0@, artifact_json(p.1)))
            =~= before.push((m@[i as int].0@, artifact_json(m@[i as int].1)))) by {
            assert(m@.take(i + 1).drop_last() =~= m@.take(i as int));
        }
        i += 1;
    }
    assert(m@.take(m@.len() as int) =~= m@);
    JsonValue::Object(ps)
}

fn hashes_to_json(h: &BundleHashes) -> (j: JsonValue)
    ensures
        j@ == hashes_json(h.canonical_manifest_hash@, h.plan_ir_hash@, h.bundle_hash@),
{
    let mut ps: Vec<(String, JsonValue)> = Vec::new();
    push_member(&mut ps, "canonical_manifest_hash", str_json(&h.canonical_manifest_hash));
    push_member(&mut ps, "plan_ir_hash", str_json(&h.plan_ir_hash));
    push_member(&mut ps, "bundle_hash", str_json(&h.bundle_hash));
    assert(view_members(ps@) =~= hashes_json(h.canonical_manifest_hash@, h.plan_ir_hash@, h.bundle_hash@)->Object_0);
    JsonValue::Object(ps)
}

/// The JSON value of a bundle.
pub fn bundle_to_json(b: &Bundle) -> (j: JsonValue)
    ensures
        j@ == bundle_json(*b),
{
    let mut ps: Vec<(String, JsonValue)> = Vec::new();
    push_member(&mut ps, "bundle_version", str_json(&b.bundle_version));
    push_member(&mut ps, "manifest", manifest_to_json(&b.manifest));
    push_member(&mut ps, "plan_ir", plan_to_json(&b.plan_ir));
    match &b.embedded_artifacts {
        Some(m) => {
            push_member(&mut ps, "embedded_artifacts", artifacts_to_json(m));
        },
        None => {},
    }
    push_member(&mut ps, "bundle_hashes", hashes_to_json(&b.bundle_hashes));
    assert(view_members(ps@) =~= bundle_json(*b)->Object_0);
    JsonValue::Object(ps)
}

fn text_bytes(t: &str) -> (v: Vec<u8>)
    ensures
        v@ == encode_utf8(t@),
{
    vstd::slice::slice_to_vec(t.as_bytes())
}

/// The bundle bytes of an artifact: the UTF-8 canonical JSON of the bundle.
pub fn serialize_bundle(bundle: &Bundle) -> (r: Vec<u8>)
    ensures
        r@ == bundle_bytes_of(bundle_json(*bundle)),
{
    let v = bundle_to_json(bundle);
    let text = to_canonical_json(&v);
    text_bytes(text.as_str())
}

/// Computes `bundle_hash`: the `bundle_hashes.bundle_hash` member, which
/// cannot sign itself, is left out.
pub fn compute_bundle_hash(bundle: &Bundle) -> (h: crate::hash::Hash)
    ensures
        h@ == bundle_hash_of(bundle_json(*bundle)),
{
    let mut v = bundle_to_json(bundle);
    let path: [&str; 2] = ["bundle_hashes", "bundle_hash"];
    assert(path@.map_values(|p: &str| p@) =~= bundle_hash_path());
    remove_field_at_path(&mut v, &path);
    let text = to_canonical_json(&v);
    sha256_str(text.as_str())
}

// ---------------------------------------------------------------------------
// The trailer
// ---------------------------------------------------------------------------

/// `CNCLV01\0`
pub open spec fn magic() -> Seq<u8> {
    seq![0x43u8, 0x4Eu8, 0x43u8, 0x4Cu8, 0x56u8, 0x30u8, 0x31u8, 0x00u8]
}

pub open spec fn pow256(k: nat) -> nat
    decreases k,
{
    if k == 0 { 1 } else { 256 * pow256((k - 1) as nat) }
}

/// The little-endian value of a byte sequence.
pub open spec fn le_value(bs: Seq<u8>) -> nat
    decreases bs.len(),
{
    if bs.len() == 0 { 0 } else { bs[0] as nat + 256 * le_value(bs.drop_first()) }
}

/// The `k` little-endian bytes of `n` (modulo `256^k`).
pub open spec fn le_bytes(n: nat, k: nat) -> Seq<u8>
    decreases k,
{
    if k == 0 { Seq::empty() } else { seq![(n % 256) as u8] + le_bytes(n / 256, (k - 1) as nat) }
}

/// The bytes that `runtime` and `bundle` pack to.
pub open spec fn framed(runtime: Seq<u8>, bundle: Seq<u8>) -> Seq<u8> {
    runtime + bundle + le_bytes(bundle.len(), 8) + magic()
}

/// The bundle bytes that an artifact holds, or why it holds none.
pub open spec fn frame_spec(a: Seq<u8>) -> Result<Seq<u8>, PackErrorV> {
    if a.len() < 16 {
        Err(PackErrorV::ArtifactTruncated)
    } else if a.subrange(a.len() - 8, a.len() as int) != magic() {
        Err(PackErrorV::ArtifactBadMagic)
    } else {
        let n = le_value(a.subrange(a.len() - 16, a.len() - 8));
        if n > a.len() - 16 {
            Err(PackErrorV::ArtifactTruncated)
        } else {
            Ok(a.subrange(a.len() - 16 - n, a.len() - 16))
        }
    }
}

proof fn lemma_le_bytes_len(n: nat, k: nat)
    ensures
        le_bytes(n, k).len() == k,
    decreases k,
{
    if k > 0 {
        lemma_le_bytes_len(n / 256, (k - 1) as nat);
    }
}

/// Reading back the little-endian bytes of `n` gives `n`.
pub proof fn lemma_le_round_trip(n: nat, k: nat)
    requires
        n < pow256(k),
    ensures
        le_value(le_bytes(n, k)) == n,
    decreases k,
{
    if k > 0 {
        lemma_le_bytes_len(n, k);
        let b = le_bytes(n, k);
        assert(b.drop_first() =~= le_bytes(n / 256, (k - 1) as nat));
        assert(n / 256 < pow256((k - 1) as nat));
        lemma_le_round_trip(n / 256, (k - 1) as nat);
    }
}

fn magic_byte(i: usize) -> (b: u8)
    requires
        i < 8,
    ensures
        b == magic()[i as int],
{
    if i == 0 { 0x43 } else if i == 1 { 0x4E } else if i == 2 { 0x43 } else if i == 3 { 0x4C }
    else if i == 4 { 0x56 } else if i == 5 { 0x30 } else if i == 6 { 0x31 } else { 0x00 }
}

fn push_bytes(v: &mut Vec<u8>, b: &[u8])
    ensures
        final(v)@ == old(v)@ + b@,
{
    let mut i: usize = 0;
    while i < b.len()
        invariant
            i <= b@.len(),
            v@ == old(v)@ + b@.take(i as int),
        decreases b@.len() - i,
    {
        v.push(b[i]);
        assert(b@.take(i + 1) == b@.take(i as int).push(b@[i as int]));
        i += 1;
    }
    assert(b@.take(b@.len() as int) == b@);
}

fn push_le_u64(v: &mut Vec<u8>, n: u64)
    ensures
        final(v)@ == old(v)@ + le_bytes(n as nat, 8),
{
    let ghost v0 = v@;
    let mut x: u64 = n;
    let mut i: usize = 0;
    assert(v0 + le_bytes(n as nat, 8) =~= v@ + le_bytes(x as nat, 8));
    while i < 8
        invariant
            i <= 8,
            v@ + le_bytes(x as nat, (8 - i) as nat) == v0 + le_bytes(n as nat, 8),
        decreases 8 - i,
    {
        let ghost k = (8 - i) as nat;
        assert(le_bytes(x as nat, k) == seq![(x as nat % 256) as u8] + le_bytes(x as nat / 256, (k - 1) as nat));
        v.push((x % 256) as u8);
        assert(v@ + le_bytes((x / 256) as nat, (k - 1) as nat) =~= v@.drop_last() + le_bytes(x as nat, k));
        x = x / 256;
        i += 1;
    }
    assert(le_bytes(x as nat, 0) =~= Seq::<u8>::empty());
    assert(v@ =~= v0 + le_bytes(n as nat, 8));
}

fn read_le_u64(a: &[u8], start: usize) -> (n: u64)
    requires
        start + 8 <= a@.len(),
    ensures
        n as nat == le_value(a@.subrange(start as int, start + 8)),
{
    let mut v: u64 = 0;
    let mut i: usize = 8;
    assert(a@.subrange(start + 8, start + 8) =~= Seq::<u8>::empty());
    while i > 0
        invariant
            i <= 8,
            start + 8 <= a@.len(),
            a@.len() == a.len(),
            v as nat == le_value(a@.subrange(start + i, start + 8)),
            (v as nat) < pow256((8 - i) as nat),
        decreases i,
    {
        let ghost k = (8 - i) as nat;
        assert(pow256(k + 1) == 256 * pow256(k));
        assert(pow256(8) == 0x1_0000_0000_0000_0000nat) by {
            reveal_with_fuel(pow256, 9);
        }
        assert(pow256(k) <= pow256(7)) by {
            reveal_with_fuel(pow256, 9);
            assert(k <= 7);
            if k < 7 {
                assert(pow256(k) <= pow256(6));
            }
        }
        let b = a[start + i - 1];
        assert(v as nat * 256 + b as nat <= (pow256(k) - 1) * 256 + 255);
        let nv: u64 = v * 256 + b as u64;
        proof {
            let t = a@.subrange(start + i - 1, start + 8);
            assert(t.drop_first() =~= a@.subrange(start + i, start + 8));
            assert(t[0] == b);
        }
        v = nv;
        i -= 1;
    }
    v
}

// ---------------------------------------------------------------------------
// Packing and unpacking
// ---------------------------------------------------------------------------

/// Input for the pack operation.
pub struct PackInput {
    pub runtime_bytes: Vec<u8>,
    pub bundle: Bundle,
}

/// Output from the pack operation.
pub struct PackOutput {
    pub artifact_bytes: Vec<u8>,
    pub artifact_hash: crate::hash::Hash,
    pub bundle_hash: crate::hash::Hash,
}

/// The hashes that pack writes into a bundle: its manifest hash, its Plan IR
/// hash and the bundle hash computed over both.
pub open spec fn sealed_hashes(b: Bundle) -> (Seq<char>, Seq<char>, Seq<char>) {
    let mh = manifest_hash(b.manifest);
    let ph = plan_hash(b.plan_ir@);
    (mh, ph, bundle_hash_of(bundle_json_with(b, hashes_json(mh, ph, Seq::empty()))))
}

/// The JSON of the bundle with the hashes that pack writes.
pub open spec fn sealed_json(b: Bundle) -> SJson {
    let h = sealed_hashes(b);
    bundle_json_with(b, hashes_json(h.0, h.1, h.2))
}

/// Packs `runtime_bytes || bundle_bytes || trailer`, after writing the
/// manifest hash, the Plan IR hash and the bundle hash into the bundle.
/// Deterministic: no timestamps, no randomness, no host data.
pub fn pack(input: PackInput) -> (r: Result<PackOutput, PackError>)
    ensures
        r matches Ok(out) && {
            &&& out.bundle_hash@ == sealed_hashes(input.bundle).2
            &&& out.artifact_bytes@ == framed(input.runtime_bytes@, bundle_bytes_of(sealed_json(input.bundle)))
            &&& out.artifact_hash@ == hash_text(out.artifact_bytes@)
        },
{
    let PackInput { runtime_bytes, mut bundle } = input;
    let ghost b0 = bundle;
    let plan_h = compute_plan_ir_hash(&bundle.plan_ir);
    let manifest_h = compute_canonical_manifest_hash(&bundle.manifest);
    bundle.bundle_hashes = BundleHashes {
        canonical_manifest_hash: manifest_h.to_string(),
        plan_ir_hash: plan_h.to_string(),
        bundle_hash: String::new(),
    };
    assert(bundle_json(bundle) == bundle_json_with(b0, hashes_json(manifest_h@, plan_h@, Seq::empty())));
    let bundle_h = compute_bundle_hash(&bundle);
    bundle.bundle_hashes.bundle_hash = bundle_h.to_string();
    assert(bundle_json(bundle) == sealed_json(b0));
    let bundle_bytes = serialize_bundle(&bundle);
    let mut artifact: Vec<u8> = Vec::new();
    push_bytes(&mut artifact, runtime_bytes.as_slice());
    push_bytes(&mut artifact, bundle_bytes.as_slice());
    push_le_u64(&mut artifact, bundle_bytes.len() as u64);
    let mut i: usize = 0;
    while i < 8
        invariant
            i <= 8,
            artifact@ == runtime_bytes@ + bundle_bytes@ + le_bytes(bundle_bytes@.len(), 8) + magic().take(i as int),
        decreases 8 - i,
    {
        artifact.push(magic_byte(i));
        assert(magic().take(i + 1) =~= magic().take(i as int).push(magic()[i as int]));
        i += 1;
    }
    assert(magic().take(8) =~= magic());
    let artifact_hash = sha256_bytes(artifact.as_slice());
    Ok(PackOutput { artifact_bytes: artifact, artifact_hash, bundle_hash: bundle_h })
}

/// The bundle bytes of an artifact: the trailer's magic and length are
/// checked and the bytes before the trailer taken.  Turning them into a
/// `Bundle` is the caller's part; `verify_bundle` then checks it.
pub fn unpack_frame(artifact_bytes: &[u8]) -> (r: Result<Vec<u8>, PackError>)
    ensures
        match frame_spec(artifact_bytes@) {
            Ok(bs) => r matches Ok(v) && v@ == bs,
            Err(e) => r matches Err(x) && x@ == e,
        },
{
    let len = artifact_bytes.len();
    if len < 16 {
        return Err(PackError::ArtifactTruncated);
    }
    let mut i: usize = 0;
    while i < 8
        invariant
            i <= 8,
            len == artifact_bytes@.len(),
            len >= 16,
            forall|j: int| 0 <= j < i ==> artifact_bytes@[len - 8 + j] == #[trigger] magic()[j],
        decreases 8 - i,
    {
        if artifact_bytes[len - 8 + i] != magic_byte(i) {
            assert(artifact_bytes@.subrange(len - 8, len as int)[i as int] != magic()[i as int]);
            return Err(PackError::ArtifactBadMagic);
        }
        i += 1;
    }
    assert(artifact_bytes@.subrange(len - 8, len as int) =~= magic());
    let n = read_le_u64(artifact_bytes, len - 16);
    let body = (len - 16) as u64;
    if n > body {
        return Err(PackError::ArtifactTruncated);
    }
    let start = len - 16 - (n as usize);
    let mut out: Vec<u8> = Vec::new();
    let mut k: usize = start;
    while k < len - 16
        invariant
            start <= k <= len - 16,
            len == artifact_bytes@.len(),
            len >= 16,
            out@ == artifact_bytes@.subrange(start as int, k as int),
        decreases len - 16 - k,
    {
        out.push(artifact_bytes[k]);
        assert(artifact_bytes@.subrange(start as int, k + 1) =~= artifact_bytes@.subrange(start as int, k as int).push(artifact_bytes@[k as int]));
        k += 1;
    }
    Ok(out)
}

/// The checks of an unpacked bundle, in order: the stored Plan IR hash is
/// the Plan IR's, the manifest names it, the stored manifest hash is the
/// manifest's, and the stored bundle hash is the bundle's.
pub open spec fn verify_spec(b: Bundle) -> Result<(), PackErrorV> {
    let stored_plan = b.bundle_hashes.plan_ir_hash@;
    let stored_manifest = b.bundle_hashes.canonical_manifest_hash@;
    let stored_bundle = b.bundle_hashes.bundle_hash@;
    if stored_plan != plan_hash(b.plan_ir@) {
        Err(PackErrorV::PlanHashMismatch { expected: stored_plan, got: plan_hash(b.plan_ir@) })
    } else if b.manifest.program.plan_ir_hash@ != stored_plan {
        Err(PackErrorV::PlanHashMismatch { expected: b.manifest.program.plan_ir_hash@, got: stored_plan })
    } else if stored_manifest != manifest_hash(b.manifest) {
        Err(PackErrorV::ManifestHashMismatch { expected: stored_manifest, got: manifest_hash(b.manifest) })
    } else if stored_bundle != bundle_hash_of(bundle_json(b)) {
        Err(PackErrorV::BundleHashMismatch { expected: stored_bundle, got: bundle_hash_of(bundle_json(b)) })
    } else {
        Ok(())
    }
}

/// Checks the hashes of an unpacked bundle.
pub fn verify_bundle(bundle: &Bundle) -> (r: Result<(), PackError>)
    ensures
        match verify_spec(*bundle) {
            Ok(()) => r is Ok,
            Err(e) => r matches Err(x) && x@ == e,
        },
{
    let stored_plan = &bundle.bundle_hashes.plan_ir_hash;
    let computed_plan = compute_plan_ir_hash(&bundle.plan_ir).to_string();
    if !str_eq(stored_plan.as_str(), computed_plan.as_str()) {
        return Err(PackError::PlanHashMismatch { expected: stored_plan.clone(), got: computed_plan });
    }
    if !str_eq(bundle.manifest.program.plan_ir_hash.as_str(), stored_plan.as_str()) {
        return Err(PackError::PlanHashMismatch {
            expected: bundle.manifest.program.plan_ir_hash.clone(),
            got: stored_plan.clone(),
        });
    }
    let stored_manifest = &bundle.bundle_hashes.canonical_manifest_hash;
    let computed_manifest = compute_canonical_manifest_hash(&bundle.manifest).to_string();
    if !str_eq(stored_manifest.as_str(), computed_manifest.as_str()) {
        return Err(PackError::ManifestHashMismatch { expected: stored_manifest.clone(), got: computed_manifest });
    }
    let stored_bundle = &bundle.bundle_hashes.bundle_hash;
    let computed_bundle = compute_bundle_hash(bundle).to_string();
    if !str_eq(stored_bundle.as_str(), computed_bundle.as_str()) {
        return Err(PackError::BundleHashMismatch { expected: stored_bundle.clone(), got: computed_bundle });
    }
    Ok(())
}

// ---------------------------------------------------------------------------
// Laws
// ---------------------------------------------------------------------------

/// Unpacking what pack framed gives back the bundle bytes, whatever the
/// runtime bytes before them.
pub proof fn lemma_frame_round_trip(runtime: Seq<u8>, bundle: Seq<u8>)
    requires
        bundle.len() < pow256(8),
    ensures
        frame_spec(framed(runtime, bundle)) == Ok::<Seq<u8>, PackErrorV>(bundle),
{
    let a = framed(runtime, bundle);
    let t = le_bytes(bundle.len(), 8);
    lemma_le_bytes_len(bundle.len(), 8);
    lemma_le_round_trip(bundle.len(), 8);
    let n = a.len();
    assert(n == runtime.len() + bundle.len() + 16);
    assert(a.subrange(n - 8, n as int) =~= magic());
    assert(a.subrange(n - 16, n - 8) =~= t);
    assert(a.subrange(n - 16 - bundle.len(), n - 16) =~= bundle);
}

/// The bundle hash does not depend on the `bundle_hash` member itself.
pub proof fn lemma_bundle_hash_ignores_itself(b: Bundle, mh: Seq<char>, ph: Seq<char>, x: Seq<char>, y: Seq<char>)
    ensures
        bundle_hash_of(bundle_json_with(b, hashes_json(mh, ph, x)))
            == bundle_hash_of(bundle_json_with(b, hashes_json(mh, ph, y))),
{
    let jx = bundle_json_with(b, hashes_json(mh, ph, x));
    let jy = bundle_json_with(b, hashes_json(mh, ph, y));
    let px = jx->Object_0;
    let py = jy->Object_0;
    let path = bundle_hash_path();
    let rest = path.drop_first();
    assert(rest =~= seq!["bundle_hash"@]);
    let hx = hashes_json(mh, ph, x)->Object_0;
    let hy = hashes_json(mh, ph, y)->Object_0;
    assert(hx.drop_last() =~= hy.drop_last());
    assert(remove_at_path(hashes_json(mh, ph, x), rest) == remove_at_path(hashes_json(mh, ph, y), rest));
    assert(px.len() == py.len());
    let last = px.len() - 1;
    assert(px[last] == ("bundle_hashes"@, hashes_json(mh, ph, x)));
    assert(py[last] == ("bundle_hashes"@, hashes_json(mh, ph, y)));
    assert forall|i: int| 0 <= i < last implies px[i] == py[i] by {}
    assert(remove_at_path(jx, path) =~= remove_at_path(jy, path)) by {
        let rx = remove_at_path(jx, path)->Object_0;
        let ry = remove_at_path(jy, path)->Object_0;
        assert(rx.len() == ry.len());
        assert forall|i: int| 0 <= i < rx.len() implies rx[i] == ry[i] by {
            if i < last {
                assert(px[i] == py[i]);
            }
        }
        assert(rx =~= ry);
    }
}

/// A bundle that carries the hashes that pack writes, and whose manifest
/// names its Plan IR hash, passes the checks of unpacking.
pub proof fn lemma_sealed_bundle_verifies(b: Bundle)
    requires
        b.bundle_hashes.canonical_manifest_hash@ == sealed_hashes(b).0,
        b.bundle_hashes.plan_ir_hash@ == sealed_hashes(b).1,
        b.bundle_hashes.bundle_hash@ == sealed_hashes(b).2,
        b.manifest.program.plan_ir_hash@ == plan_hash(b.plan_ir@),
    ensures
        verify_spec(b) is Ok,
{
    let h = sealed_hashes(b);
    lemma_bundle_hash_ignores_itself(b, h.0, h.1, h.2, Seq::empty());
}

/// The bundle that pack writes is the input bundle with its hashes set to
/// `sealed_hashes`: its JSON is `sealed_json`, so `compute_bundle_hash` of it
/// is the bundle hash that pack returns and `serialize_bundle` of it is the
/// bundle part of the artifact.
pub proof fn lemma_pack_writes_sealed_bundle(b: Bundle, hs: BundleHashes)
    requires
        hs.canonical_manifest_hash@ == sealed_hashes(b).0,
        hs.plan_ir_hash@ == sealed_hashes(b).1,
        hs.bundle_hash@ == sealed_hashes(b).2,
    ensures
        bundle_json(Bundle { bundle_hashes: hs, ..b }) == sealed_json(b),
        bundle_hash_of(bundle_json(Bundle { bundle_hashes: hs, ..b })) == sealed_hashes(b).2,
{
    let h = sealed_hashes(b);
    let b2 = Bundle { bundle_hashes: hs, ..b };
    assert(bundle_json_with(b2, hashes_json(h.0, h.1, h.2)) == bundle_json_with(b, hashes_json(h.0, h.1, h.2)));
    lemma_bundle_hash_ignores_itself(b, h.0, h.1, h.2, Seq::empty());
}

/// A bundle that passes the checks of unpacking carries consistent hashes:
/// its Plan IR hashes to the stored Plan IR hash, which the manifest names;
/// its manifest hashes to the stored manifest hash; and the bundle hashes to
/// the stored bundle hash.
pub proof fn lemma_verified_bundle_hashes(b: Bundle)
    requires
        verify_spec(b) is Ok,
    ensures
        plan_hash(b.plan_ir@) == b.bundle_hashes.plan_ir_hash@,
        b.manifest.program.plan_ir_hash@ == b.bundle_hashes.plan_ir_hash@,
        manifest_hash(b.manifest) == b.bundle_hashes.canonical_manifest_hash@,
        bundle_hash_of(bundle_json(b)) == b.bundle_hashes.bundle_hash@,
{
}

/// A bundle that passes the checks fails them once any of its three stored
/// hashes is changed.
pub proof fn lemma_changed_hash_fails(b: Bundle, hs: BundleHashes)
    requires
        verify_spec(b) is Ok,
        hs.canonical_manifest_hash@ != b.bundle_hashes.canonical_manifest_hash@
            || hs.plan_ir_hash@ != b.bundle_hashes.plan_ir_hash@
            || hs.bundle_hash@ != b.bundle_hashes.bundle_hash@,
    ensures
        verify_spec(Bundle { bundle_hashes: hs, ..b }) is Err,
{
    let b2 = Bundle { bundle_hashes: hs, ..b };
    let mh = hs.canonical_manifest_hash@;
    let ph = hs.plan_ir_hash@;
    lemma_bundle_hash_ignores_itself(b, mh, ph, hs.bundle_hash@, b.bundle_hashes.bundle_hash@);
    assert(bundle_json(b2) == bundle_json_with(b, hashes_json(mh, ph, hs.bundle_hash@)));
}

/// The message of a PackError value.
pub open spec fn pack_message(e: PackErrorV) -> Seq<char> {
    match e {
        PackErrorV::ArtifactTruncated => "ERR_ARTIFACT_TRUNCATED: artifact is too short to contain a valid trailer"@,
        PackErrorV::ArtifactBadMagic => "ERR_ARTIFACT_BAD_MAGIC: trailer magic bytes do not match CNCLV01\\0"@,
        PackErrorV::BundleParseFailed(x) => "ERR_BUNDLE_PARSE_FAILED: "@ + x,
        PackErrorV::BundleHashMismatch { expected, got } => "ERR_BUNDLE_HASH_MISMATCH: expected "@ + expected + ", got "@ + got,
        PackErrorV::ManifestHashMismatch { expected, got } => "ERR_MANIFEST_HASH_MISMATCH: expected "@ + expected + ", got "@ + got,
        PackErrorV::PlanHashMismatch { expected, got } => "ERR_PLAN_HASH_MISMATCH: expected "@ + expected + ", got "@ + got,
    }
}

impl PackError {
    /// The message of the error.
    pub fn to_string(&self) -> (s: String)
        ensures
            s@ == pack_message(self@),
    {
        match self {
            PackError::ArtifactTruncated => {
                let mut s = String::from_str("ERR_ARTIFACT_TRUNCATED: artifact is too short to contain a valid trailer");
                s
            },
            PackError::ArtifactBadMagic => {
                let mut s = String::from_str("ERR_ARTIFACT_BAD_MAGIC: trailer magic bytes do not match CNCLV01\\0");
                s
            },
            PackError::BundleParseFailed(x) => {
                let mut s = String::from_str("ERR_BUNDLE_PARSE_FAILED: ");
                push_str(&mut s, x.as_str());
                s
            },
            PackError::BundleHashMismatch { expected, got } => {
                let mut s = String::from_str("ERR_BUNDLE_HASH_MISMATCH: expected ");
                push_str(&mut s, expected.as_str());
                push_str(&mut s, ", got ");
                push_str(&mut s, got.as_str());
                s
            },
            PackError::ManifestHashMismatch { expected, got } => {
                let mut s = String::from_str("ERR_MANIFEST_HASH_MISMATCH: expected ");
                push_str(&mut s, expected.as_str());
                push_str(&mut s, ", got ");
                push_str(&mut s, got.as_str());
                s
            },
            PackError::PlanHashMismatch { expected, got } => {
                let mut s = String::from_str("ERR_PLAN_HASH_MISMATCH: expected ");
                push_str(&mut s, expected.as_str());
                push_str(&mut s, ", got ");
                push_str(&mut s, got.as_str());
                s
            },
        }
    }
}

} // verus!
