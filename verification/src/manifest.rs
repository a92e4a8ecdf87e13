//! The sealed-run manifest: its types, its JSON form, and its canonical hash.
//!
//! Maps are held as lists of (key, value) pairs in increasing key order.
use vstd::prelude::*;
use crate::hash::{hash_text, sha256_str};
use crate::json::{
    JsonValue, SJson, canonical_text, push_member, remove_at_path, remove_field_at_path, str_array,
    strings_to_json, to_canonical_json, view_members,
};
use vstd::utf8::encode_utf8;

pub mod seal;

verus! {

#[derive(Debug)]
pub struct Manifest {
    pub conclave_manifest_version: String,
    pub program: Program,
    pub target: Target,
    pub toolchain: Toolchain,
    /// Capability signature to its binding, in key order with no signature twice.
    pub capability_bindings: Vec<(String, CapabilityBinding)>,
    /// Import name to the plan_ir_hash of the imported goal, in key order with
    /// no name twice.
    pub module_bindings: Vec<(String, String)>,
    pub scheduler_policy: SchedulerPolicy,
    pub determinism: Determinism,
    pub observability: Observability,
    pub supply_chain: SupplyChain,
}

#[derive(Debug, Clone)]
pub struct Program {
    pub name: String,
    pub plan_ir_hash: String,
}

#[derive(Debug, Clone)]
pub struct Target {
    pub triple: String,
    pub os: String,
    pub arch: String,
}

#[derive(Debug, Clone)]
pub struct Toolchain {
    pub lowerer_hash: String,
    pub runtime_hash: String,
    pub stdlib_hash: String,
}

#[derive(Debug)]
pub struct CapabilityBinding {
    pub capability_name: String,
    /// A pinned `sha256:...` hash; no floating references.
    pub artifact_hash: String,
    /// `replayable`, `fixed` or `nondet`.
    pub determinism_profile: String,
    pub trust: String,
    /// Configuration members, key-sorted.
    pub config: Option<Vec<(String, JsonValue)>>,
    pub signatures: Option<CapabilitySignatures>,
}

#[derive(Debug, Clone)]
pub struct CapabilitySignatures {
    pub required: bool,
    pub accepted_keys: Vec<String>,
}

#[derive(Debug, Clone)]
pub struct SchedulerPolicy {
    pub strategy: String,
    pub max_inflight: u32,
    pub ready_queue_order: Vec<String>,
    pub node_kind_order: Vec<String>,
    pub tie_breaker: TieBreaker,
}

#[derive(Debug, Clone)]
pub struct TieBreaker {
    pub kind: String,
    pub seed: u64,
}

#[derive(Debug, Clone)]
pub struct Determinism {
    /// `sealed_replay`
    pub mode: String,
    /// `virtual`
    pub clock: String,
    pub randomness: RandomnessPolicy,
    /// `strict`
    pub float: String,
    pub io_policy: IoPolicy,
}

#[derive(Debug, Clone)]
pub struct RandomnessPolicy {
    pub allowed: bool,
    pub seed: u64,
    pub source: String,
}

#[derive(Debug, Clone)]
pub struct IoPolicy {
    pub network: NetworkPolicy,
    pub filesystem: FilesystemPolicy,
    pub env: EnvPolicy,
}

#[derive(Debug, Clone, Copy, PartialEq, Eq, Structural)]
pub enum NetworkPolicy {
    Deny,
    ReplayOnly,
    Live,
}

#[derive(Debug, Clone, Copy, PartialEq, Eq, Structural)]
pub enum FilesystemPolicy {
    Deny,
    Sandboxed,
    Host,
}

#[derive(Debug, Clone, Copy, PartialEq, Eq, Structural)]
pub enum EnvPolicy {
    Frozen,
    Host,
}

#[derive(Debug, Clone)]
pub struct Observability {
    pub trace_level: String,
    pub emit_scheduler_trace: bool,
    pub emit_capability_metrics: bool,
}

#[derive(Debug, Clone)]
pub struct SupplyChain {
    pub artifact_store: String,
    pub require_artifact_signatures: bool,
    pub manifest_signature: Option<ManifestSignature>,
}

#[derive(Debug, Clone)]
pub struct ManifestSignature {
    pub algo: String,
    pub public_key_id: String,
    /// Left out of the canonical manifest hash: a signature cannot sign itself.
    pub signature: String,
}

// ---------------------------------------------------------------------------
// JSON form
// ---------------------------------------------------------------------------

pub open spec fn s(t: String) -> SJson {
    SJson::Str(t@)
}

pub open spec fn network_name(p: NetworkPolicy) -> Seq<char> {
    match p {
        NetworkPolicy::Deny => "deny"@,
        NetworkPolicy::ReplayOnly => "replay_only"@,
        NetworkPolicy::Live => "live"@,
    }
}

pub open spec fn filesystem_name(p: FilesystemPolicy) -> Seq<char> {
    match p {
        FilesystemPolicy::Deny => "deny"@,
        FilesystemPolicy::Sandboxed => "sandboxed"@,
        FilesystemPolicy::Host => "host"@,
    }
}

pub open spec fn env_name(p: EnvPolicy) -> Seq<char> {
    match p {
        EnvPolicy::Frozen => "frozen"@,
        EnvPolicy::Host => "host"@,
    }
}

pub open spec fn strings_json(v: Seq<String>) -> SJson {
    str_array(v.map_values(|x: String| x@))
}

/// The JSON object of a capability binding; absent options are left out.
pub open spec fn binding_json(b: CapabilityBinding) -> SJson {
    SJson::Object(
        seq![
            ("capability_name"@, s(b.capability_name)),
            ("artifact_hash"@, s(b.artifact_hash)),
            ("determinism_profile"@, s(b.determinism_profile)),
            ("trust"@, s(b.trust)),
        ] + match b.config {
            Some(c) => seq![("config"@, SJson::Object(view_members(c@)))],
            None => Seq::empty(),
        } + match b.signatures {
            Some(g) => seq![
                ("signatures"@, SJson::Object(
                    seq![("required"@, SJson::Bool(g.required)), ("accepted_keys"@, strings_json(g.accepted_keys@))],
                )),
            ],
            None => Seq::empty(),
        },
    )
}

pub open spec fn bindings_json(bs: Seq<(String, CapabilityBinding)>) -> SJson {
    SJson::Object(bs.map_values(|p: (String, CapabilityBinding)| (p.0@, binding_json(p.1))))
}

pub open spec fn string_pairs_json(m: Seq<(String, String)>) -> SJson {
    SJson::Object(m.map_values(|p: (String, String)| (p.0@, SJson::Str(p.1@))))
}

pub open spec fn scheduler_json(p: SchedulerPolicy) -> SJson {
    SJson::Object(
        seq![
            ("strategy"@, s(p.strategy)),
            ("max_inflight"@, SJson::Int(p.max_inflight as int)),
            ("ready_queue_order"@, strings_json(p.ready_queue_order@)),
            ("node_kind_order"@, strings_json(p.node_kind_order@)),
            ("tie_breaker"@, SJson::Object(
                seq![("kind"@, s(p.tie_breaker.kind)), ("seed"@, SJson::Int(p.tie_breaker.seed as int))],
            )),
        ],
    )
}

pub open spec fn determinism_json(d: Determinism) -> SJson {
    SJson::Object(
        seq![
            ("mode"@, s(d.mode)),
            ("clock"@, s(d.clock)),
            ("randomness"@, SJson::Object(
                seq![
                    ("allowed"@, SJson::Bool(d.randomness.allowed)),
                    ("seed"@, SJson::Int(d.randomness.seed as int)),
                    ("source"@, s(d.randomness.source)),
                ],
            )),
            ("float"@, s(d.float)),
            ("io_policy"@, SJson::Object(
                seq![
                    ("network"@, SJson::Str(network_name(d.io_policy.network))),
                    ("filesystem"@, SJson::Str(filesystem_name(d.io_policy.filesystem))),
                    ("env"@, SJson::Str(env_name(d.io_policy.env))),
                ],
            )),
        ],
    )
}

pub open spec fn supply_chain_json(c: SupplyChain) -> SJson {
    SJson::Object(
        seq![
            ("artifact_store"@, s(c.artifact_store)),
            ("require_artifact_signatures"@, SJson::Bool(c.require_artifact_signatures)),
        ] + match c.manifest_signature {
            Some(g) => seq![
                ("manifest_signature"@, SJson::Object(
                    seq![("algo"@, s(g.algo)), ("public_key_id"@, s(g.public_key_id)), ("signature"@, s(g.signature))],
                )),
            ],
            None => Seq::empty(),
        },
    )
}

/// The JSON object of a manifest, members in declaration order; empty
/// `module_bindings` and absent options are left out.
pub open spec fn manifest_json(m: Manifest) -> SJson {
    SJson::Object(
        seq![
            ("conclave_manifest_version"@, s(m.conclave_manifest_version)),
            ("program"@, SJson::Object(seq![("name"@, s(m.program.name)), ("plan_ir_hash"@, s(m.program.plan_ir_hash))])),
            ("target"@, SJson::Object(
                seq![("triple"@, s(m.target.triple)), ("os"@, s(m.target.os)), ("arch"@, s(m.target.arch))],
            )),
            ("toolchain"@, SJson::Object(
                seq![
                    ("lowerer_hash"@, s(m.toolchain.lowerer_hash)),
                    ("runtime_hash"@, s(m.toolchain.runtime_hash)),
                    ("stdlib_hash"@, s(m.toolchain.stdlib_hash)),
                ],
            )),
            ("capability_bindings"@, bindings_json(m.capability_bindings@)),
        ] + (if m.module_bindings@.len() == 0 {
            Seq::empty()
        } else {
            seq![("module_bindings"@, string_pairs_json(m.module_bindings@))]
        }) + seq![
            ("scheduler_policy"@, scheduler_json(m.scheduler_policy)),
            ("determinism"@, determinism_json(m.determinism)),
            ("observability"@, SJson::Object(
                seq![
                    ("trace_level"@, s(m.observability.trace_level)),
                    ("emit_scheduler_trace"@, SJson::Bool(m.observability.emit_scheduler_trace)),
                    ("emit_capability_metrics"@, SJson::Bool(m.observability.emit_capability_metrics)),
                ],
            )),
            ("supply_chain"@, supply_chain_json(m.supply_chain)),
        ],
    )
}

/// The path of the manifest signature, which the canonical hash leaves out.
pub open spec fn signature_path() -> Seq<Seq<char>> {
    seq!["supply_chain"@, "manifest_signature"@, "signature"@]
}

/// `canonical_manifest_hash`: SHA-256 of the canonical JSON of the manifest
/// without `supply_chain.manifest_signature.signature`.
pub open spec fn manifest_hash(m: Manifest) -> Seq<char> {
    hash_text(encode_utf8(canonical_text(remove_at_path(manifest_json(m), signature_path()))))
}

fn str_json(t: &String) -> (j: JsonValue)
    ensures
        j@ == s(*t),
{
    JsonValue::Str(t.clone())
}

fn clone_members(ps: &Vec<(String, JsonValue)>) -> (r: Vec<(String, JsonValue)>)
    ensures
        view_members(r@) == view_members(ps@),
{
    let mut out: Vec<(String, JsonValue)> = Vec::new();
    let mut i: usize = 0;
    while i < ps.len()
        invariant
            i <= ps@.len(),
            view_members(out@) == view_members(ps@.take(i as int)),
        decreases ps@.len() - i,
    {
        let k = ps[i].0.clone();
        let v = ps[i].1.clone();
        let ghost before = out@;
        out.push((k, v));
        assert(out@.drop_last() =~= before);
        assert(ps@.take(i + 1).drop_last() =~= ps@.take(i as int));
        i += 1;
    }
    assert(ps@.take(ps@.len() as int) =~= ps@);
    out
}

fn binding_to_json(b: &CapabilityBinding) -> (j: JsonValue)
    ensures
        j@ == binding_json(*b),
{
    let mut ps: Vec<(String, JsonValue)> = Vec::new();
    push_member(&mut ps, "capability_name", str_json(&b.capability_name));
    push_member(&mut ps, "artifact_hash", str_json(&b.artifact_hash));
    push_member(&mut ps, "determinism_profile", str_json(&b.determinism_profile));
    push_member(&mut ps, "trust", str_json(&b.trust));
    match &b.config {
        Some(c) => {
            push_member(&mut ps, "config", JsonValue::Object(clone_members(c)));
        },
        None => {},
    }
    match &b.signatures {
        Some(g) => {
            let mut gs: Vec<(String, JsonValue)> = Vec::new();
            push_member(&mut gs, "required", JsonValue::Bool(g.required));
            push_member(&mut gs, "accepted_keys", strings_to_json(&g.accepted_keys));
            assert(view_members(gs@) =~= seq![
                ("required"@, SJson::Bool(g.required)),
                ("accepted_keys"@, strings_json(g.accepted_keys@)),
            ]);
            push_member(&mut ps, "signatures", JsonValue::Object(gs));
        },
        None => {},
    }
    assert(view_members(ps@) =~= binding_json(*b)->Object_0);
    JsonValue::Object(ps)
}

fn bindings_to_json(bs: &Vec<(String, CapabilityBinding)>) -> (j: JsonValue)
    ensures
        j@ == bindings_json(bs@),
{
    let mut ps: Vec<(String, JsonValue)> = Vec::new();
    let mut i: usize = 0;
    while i < bs.len()
        invariant
            i <= bs@.len(),
            view_members(ps@) == bs@.take(i as int).map_values(|p: (String, CapabilityBinding)| (p.0@, binding_json(p.1))),
        decreases bs@.len() - i,
    {
        let ghost before = view_members(ps@);
        push_member(&mut ps, bs[i].0.as_str(), binding_to_json(&bs[i].1));
        assert(bs@.take(i + 1).map_values(|p: (String, CapabilityBinding)| (p.0@, binding_json(p.1)))
            =~= before.push((bs@[i as int].0@, binding_json(bs@[i as int].1)))) by {
            assert(bs@.take(i + 1).drop_last() =~= bs@.take(i as int));
        }
        i += 1;
    }
    assert(bs@.take(bs@.len() as int) =~= bs@);
    JsonValue::Object(ps)
}

fn string_pairs_to_json(m: &Vec<(String, String)>) -> (j: JsonValue)
    ensures
        j@ == string_pairs_json(m@),
{
    let mut ps: Vec<(String, JsonValue)> = Vec::new();
    let mut i: usize = 0;
    while i < m.len()
        invariant
            i <= m@.len(),
            view_members(ps@) == m@.take(i as int).map_values(|p: (String, String)| (p.0@, SJson::Str(p.1@))),
        decreases m@.len() - i,
    {
        let ghost before = view_members(ps@);
        push_member(&mut ps, m[i].0.as_str(), str_json(&m[i].1));
        assert(m@.take(i + 1).map_values(|p: (String, String)| (p.0@, SJson::Str(p.1@)))
            =~= before.push((m@[i as int].0@, SJson::Str(m@[i as int].1@)))) by {
            assert(m@.take(i + 1).drop_last() =~= m@.take(i as int));
        }
        i += 1;
    }
    assert(m@.take(m@.len() as int) =~= m@);
    JsonValue::Object(ps)
}

fn scheduler_to_json(p: &SchedulerPolicy) -> (j: JsonValue)
    ensures
        j@ == scheduler_json(*p),
{
    let mut tb: Vec<(String, JsonValue)> = Vec::new();
    push_member(&mut tb, "kind", str_json(&p.tie_breaker.kind));
    push_member(&mut tb, "seed", JsonValue::Int(p.tie_breaker.seed as i128));
    let mut ps: Vec<(String, JsonValue)> = Vec::new();
    push_member(&mut ps, "strategy", str_json(&p.strategy));
    push_member(&mut ps, "max_inflight", JsonValue::Int(p.max_inflight as i128));
    push_member(&mut ps, "ready_queue_order", strings_to_json(&p.ready_queue_order));
    push_member(&mut ps, "node_kind_order", strings_to_json(&p.node_kind_order));
    assert(view_members(tb@) =~= seq![("kind"@, s(p.tie_breaker.kind)), ("seed"@, SJson::Int(p.tie_breaker.seed as int))]);
    push_member(&mut ps, "tie_breaker", JsonValue::Object(tb));
    assert(view_members(ps@) =~= scheduler_json(*p)->Object_0);
    JsonValue::Object(ps)
}

fn network_to_json(p: NetworkPolicy) -> (j: JsonValue)
    ensures
        j@ == SJson::Str(network_name(p)),
{
    match p {
        NetworkPolicy::Deny => JsonValue::Str(String::from_str("deny")),
        NetworkPolicy::ReplayOnly => JsonValue::Str(String::from_str("replay_only")),
        NetworkPolicy::Live => JsonValue::Str(String::from_str("live")),
    }
}

fn filesystem_to_json(p: FilesystemPolicy) -> (j: JsonValue)
    ensures
        j@ == SJson::Str(filesystem_name(p)),
{
    match p {
        FilesystemPolicy::Deny => JsonValue::Str(String::from_str("deny")),
        FilesystemPolicy::Sandboxed => JsonValue::Str(String::from_str("sandboxed")),
        FilesystemPolicy::Host => JsonValue::Str(String::from_str("host")),
    }
}

fn env_to_json(p: EnvPolicy) -> (j: JsonValue)
    ensures
        j@ == SJson::Str(env_name(p)),
{
    match p {
        EnvPolicy::Frozen => JsonValue::Str(String::from_str("frozen")),
        EnvPolicy::Host => JsonValue::Str(String::from_str("host")),
    }
}

fn determinism_to_json(d: &Determinism) -> (j: JsonValue)
    ensures
        j@ == determinism_json(*d),
{
    let mut rs: Vec<(String, JsonValue)> = Vec::new();
    push_member(&mut rs, "allowed", JsonValue::Bool(d.randomness.allowed));
    push_member(&mut rs, "seed", JsonValue::Int(d.randomness.seed as i128));
    push_member(&mut rs, "source", str_json(&d.randomness.source));
    let mut io: Vec<(String, JsonValue)> = Vec::new();
    push_member(&mut io, "network", network_to_json(d.io_policy.network));
    push_member(&mut io, "filesystem", filesystem_to_json(d.io_policy.filesystem));
    push_member(&mut io, "env", env_to_json(d.io_policy.env));
    let mut ps: Vec<(String, JsonValue)> = Vec::new();
    push_member(&mut ps, "mode", str_json(&d.mode));
    push_member(&mut ps, "clock", str_json(&d.clock));
    let ghost rv = view_members(rs@);
    let ghost iv = view_members(io@);
    push_member(&mut ps, "randomness", JsonValue::Object(rs));
    push_member(&mut ps, "float", str_json(&d.float));
    push_member(&mut ps, "io_policy", JsonValue::Object(io));
    assert(rv =~= determinism_json(*d)->Object_0[2].1->Object_0);
    assert(iv =~= determinism_json(*d)->Object_0[4].1->Object_0);
    assert(view_members(ps@) =~= determinism_json(*d)->Object_0);
    JsonValue::Object(ps)
}

fn supply_chain_to_json(c: &SupplyChain) -> (j: JsonValue)
    ensures
        j@ == supply_chain_json(*c),
{
    let mut ps: Vec<(String, JsonValue)> = Vec::new();
    push_member(&mut ps, "artifact_store", str_json(&c.artifact_store));
    push_member(&mut ps, "require_artifact_signatures", JsonValue::Bool(c.require_artifact_signatures));
    match &c.manifest_signature {
        Some(g) => {
            let mut gs: Vec<(String, JsonValue)> = Vec::new();
            push_member(&mut gs, "algo", str_json(&g.algo));
            push_member(&mut gs, "public_key_id", str_json(&g.public_key_id));
            push_member(&mut gs, "signature", str_json(&g.signature));
            assert(view_members(gs@) =~= seq![("algo"@, s(g.algo)), ("public_key_id"@, s(g.public_key_id)), ("signature"@, s(g.signature))]);
            push_member(&mut ps, "manifest_signature", JsonValue::Object(gs));
        },
        None => {},
    }
    assert(view_members(ps@) =~= supply_chain_json(*c)->Object_0);
    JsonValue::Object(ps)
}

/// The JSON value of a manifest.
pub fn manifest_to_json(m: &Manifest) -> (j: JsonValue)
    ensures
        j@ == manifest_json(*m),
{
    let mut program: Vec<(String, JsonValue)> = Vec::new();
    push_member(&mut program, "name", str_json(&m.program.name));
    push_member(&mut program, "plan_ir_hash", str_json(&m.program.plan_ir_hash));
    let mut target: Vec<(String, JsonValue)> = Vec::new();
    push_member(&mut target, "triple", str_json(&m.target.triple));
    push_member(&mut target, "os", str_json(&m.target.os));
    push_member(&mut target, "arch", str_json(&m.target.arch));
    let mut tc: Vec<(String, JsonValue)> = Vec::new();
    push_member(&mut tc, "lowerer_hash", str_json(&m.toolchain.lowerer_hash));
    push_member(&mut tc, "runtime_hash", str_json(&m.toolchain.runtime_hash));
    push_member(&mut tc, "stdlib_hash", str_json(&m.toolchain.stdlib_hash));
    let mut obs: Vec<(String, JsonValue)> = Vec::new();
    push_member(&mut obs, "trace_level", str_json(&m.observability.trace_level));
    push_member(&mut obs, "emit_scheduler_trace", JsonValue::Bool(m.observability.emit_scheduler_trace));
    push_member(&mut obs, "emit_capability_metrics", JsonValue::Bool(m.observability.emit_capability_metrics));
    let ghost mj = manifest_json(*m)->Object_0;
    let ghost pv = view_members(program@);
    let ghost tv = view_members(target@);
    let ghost cv = view_members(tc@);
    let ghost ov = view_members(obs@);
    assert(pv =~= seq![("name"@, s(m.program.name)), ("plan_ir_hash"@, s(m.program.plan_ir_hash))]);
    assert(tv =~= seq![("triple"@, s(m.target.triple)), ("os"@, s(m.target.os)), ("arch"@, s(m.target.arch))]);
    assert(cv =~= seq![
        ("lowerer_hash"@, s(m.toolchain.lowerer_hash)),
        ("runtime_hash"@, s(m.toolchain.runtime_hash)),
        ("stdlib_hash"@, s(m.toolchain.stdlib_hash)),
    ]);
    assert(ov =~= seq![
        ("trace_level"@, s(m.observability.trace_level)),
        ("emit_scheduler_trace"@, SJson::Bool(m.observability.emit_scheduler_trace)),
        ("emit_capability_metrics"@, SJson::Bool(m.observability.emit_capability_metrics)),
    ]);
    let mut ps: Vec<(String, JsonValue)> = Vec::new();
    push_member(&mut ps, "conclave_manifest_version", str_json(&m.conclave_manifest_version));
    push_member(&mut ps, "program", JsonValue::Object(program));
    push_member(&mut ps, "target", JsonValue::Object(target));
    push_member(&mut ps, "toolchain", JsonValue::Object(tc));
    push_member(&mut ps, "capability_bindings", bindings_to_json(&m.capability_bindings));
    if m.module_bindings.len() > 0 {
        push_member(&mut ps, "module_bindings", string_pairs_to_json(&m.module_bindings));
    }
    push_member(&mut ps, "scheduler_policy", scheduler_to_json(&m.scheduler_policy));
    push_member(&mut ps, "determinism", determinism_to_json(&m.determinism));
    push_member(&mut ps, "observability", JsonValue::Object(obs));
    push_member(&mut ps, "supply_chain", supply_chain_to_json(&m.supply_chain));
    assert(view_members(ps@) =~= mj);
    JsonValue::Object(ps)
}

/// Computes `canonical_manifest_hash`, leaving out
/// `supply_chain.manifest_signature.signature` (the wrapper object and
/// `public_key_id` are included).
pub fn compute_canonical_manifest_hash(manifest: &Manifest) -> (h: crate::hash::Hash)
    ensures
        h@ == manifest_hash(*manifest),
{
    let mut v = manifest_to_json(manifest);
    let path: [&str; 3] = ["supply_chain", "manifest_signature", "signature"];
    assert(path@.map_values(|p: &str| p@) =~= signature_path());
    remove_field_at_path(&mut v, &path);
    let text = to_canonical_json(&v);
    sha256_str(text.as_str())
}

/// The manifest with another signature value.
pub open spec fn with_signature(m: Manifest, g: ManifestSignature, value: String) -> Manifest {
    Manifest {
        supply_chain: SupplyChain {
            manifest_signature: Some(ManifestSignature { signature: value, ..g }),
            ..m.supply_chain
        },
        ..m
    }
}

/// The canonical manifest hash does not depend on the signature value: a
/// signature cannot sign itself.  (Its algorithm and key id do count.)
pub proof fn lemma_manifest_hash_ignores_signature(m: Manifest, value: String)
    requires
        m.supply_chain.manifest_signature is Some,
    ensures
        manifest_hash(with_signature(m, m.supply_chain.manifest_signature->0, value)) == manifest_hash(m),
{
    let g = m.supply_chain.manifest_signature->0;
    let m2 = with_signature(m, g, value);
    let path = signature_path();
    let j1 = manifest_json(m);
    let j2 = manifest_json(m2);
    let p1 = j1->Object_0;
    let p2 = j2->Object_0;
    assert(p1.len() == p2.len());
    let last = p1.len() - 1;
    let sc1 = supply_chain_json(m.supply_chain);
    let sc2 = supply_chain_json(m2.supply_chain);
    assert(p1[last] == ("supply_chain"@, sc1));
    assert(p2[last] == ("supply_chain"@, sc2));
    assert forall|i: int| 0 <= i < last implies p1[i] == p2[i] by {}
    // One level down: the supply chain object.
    let rest = path.drop_first();
    let q1 = sc1->Object_0;
    let q2 = sc2->Object_0;
    assert(q1.len() == 3 && q2.len() == 3);
    let sig1 = q1[2].1;
    let sig2 = q2[2].1;
    let leaf = rest.drop_first();
    assert(leaf =~= seq!["signature"@]);
    assert(sig1->Object_0.drop_last() =~= sig2->Object_0.drop_last());
    assert(remove_at_path(sig1, leaf) == remove_at_path(sig2, leaf));
    assert(remove_at_path(sc1, rest) =~= remove_at_path(sc2, rest)) by {
        let r1 = remove_at_path(sc1, rest)->Object_0;
        let r2 = remove_at_path(sc2, rest)->Object_0;
        assert(r1.len() == r2.len());
        assert forall|i: int| 0 <= i < r1.len() implies r1[i] == r2[i] by {
            if i < 2 {
                assert(q1[i] == q2[i]);
            }
        }
        assert(r1 =~= r2);
    }
    assert(remove_at_path(j1, path) =~= remove_at_path(j2, path)) by {
        let r1 = remove_at_path(j1, path)->Object_0;
        let r2 = remove_at_path(j2, path)->Object_0;
        assert(r1.len() == r2.len());
        assert forall|i: int| 0 <= i < r1.len() implies r1[i] == r2[i] by {
            if i < last {
                assert(p1[i] == p2[i]);
            }
        }
        assert(r1 =~= r2);
    }
}

// ---------------------------------------------------------------------------
// The hashed manifest JSON tells I/O policies apart
// ---------------------------------------------------------------------------

/// Distinct network policies have distinct names.
pub proof fn lemma_network_name_injective(p: NetworkPolicy, q: NetworkPolicy)
    requires
        network_name(p) == network_name(q),
    ensures
        p == q,
{
    reveal_strlit("deny");
    reveal_strlit("replay_only");
    reveal_strlit("live");
    assert("deny"@.len() == 4 && "replay_only"@.len() == 11 && "live"@.len() == 4);
    assert("deny"@[0] == 'd' && "live"@[0] == 'l');
    match (p, q) {
        (NetworkPolicy::Deny, NetworkPolicy::Live) => assert(network_name(p)[0] != network_name(q)[0]),
        (NetworkPolicy::Live, NetworkPolicy::Deny) => assert(network_name(p)[0] != network_name(q)[0]),
        _ => assert(network_name(p).len() == network_name(q).len()),
    }
}

/// Distinct filesystem policies have distinct names.
pub proof fn lemma_filesystem_name_injective(p: FilesystemPolicy, q: FilesystemPolicy)
    requires
        filesystem_name(p) == filesystem_name(q),
    ensures
        p == q,
{
    reveal_strlit("deny");
    reveal_strlit("sandboxed");
    reveal_strlit("host");
    assert("deny"@.len() == 4 && "sandboxed"@.len() == 9 && "host"@.len() == 4);
    assert("deny"@[0] == 'd' && "host"@[0] == 'h');
    match (p, q) {
        (FilesystemPolicy::Deny, FilesystemPolicy::Host) => assert(filesystem_name(p)[0] != filesystem_name(q)[0]),
        (FilesystemPolicy::Host, FilesystemPolicy::Deny) => assert(filesystem_name(p)[0] != filesystem_name(q)[0]),
        _ => assert(filesystem_name(p).len() == filesystem_name(q).len()),
    }
}

/// Distinct environment policies have distinct names.
pub proof fn lemma_env_name_injective(p: EnvPolicy, q: EnvPolicy)
    requires
        env_name(p) == env_name(q),
    ensures
        p == q,
{
    reveal_strlit("frozen");
    reveal_strlit("host");
    assert("frozen"@.len() == 6 && "host"@.len() == 4);
    match (p, q) {
        _ => assert(env_name(p).len() == env_name(q).len()),
    }
}

/// The JSON that the canonical manifest hash is taken over (the manifest
/// without its signature value) determines the I/O policy: a replay-only
/// manifest and a live-network one, otherwise alike, differ in that JSON.
pub proof fn lemma_hashed_manifest_determines_io_policy(m1: Manifest, m2: Manifest)
    requires
        remove_at_path(manifest_json(m1), signature_path()) == remove_at_path(manifest_json(m2), signature_path()),
    ensures
        m1.determinism.io_policy == m2.determinism.io_policy,
{
    reveal_strlit("determinism");
    reveal_strlit("supply_chain");
    let path = signature_path();
    let p1 = manifest_json(m1)->Object_0;
    let p2 = manifest_json(m2)->Object_0;
    let r1 = remove_at_path(manifest_json(m1), path)->Object_0;
    let r2 = remove_at_path(manifest_json(m2), path)->Object_0;
    assert(path[0] == "supply_chain"@);
    assert(r1.len() == p1.len());
    assert(r2.len() == p2.len());
    let k1 = p1.len() - 3;
    let k2 = p2.len() - 3;
    assert(k1 == k2);
    assert(p1[k1].0 == "determinism"@);
    assert(p2[k2].0 == "determinism"@);
    assert("determinism"@.len() != "supply_chain"@.len());
    assert(r1[k1] == p1[k1]);
    assert(r2[k2] == p2[k2]);
    assert(p1[k1] == p2[k2]);
    let d1 = determinism_json(m1.determinism)->Object_0;
    let d2 = determinism_json(m2.determinism)->Object_0;
    assert(d1[4] == d2[4]);
    let i1 = d1[4].1->Object_0;
    let i2 = d2[4].1->Object_0;
    assert(i1[0] == i2[0] && i1[1] == i2[1] && i1[2] == i2[2]);
    lemma_network_name_injective(m1.determinism.io_policy.network, m2.determinism.io_policy.network);
    lemma_filesystem_name_injective(m1.determinism.io_policy.filesystem, m2.determinism.io_policy.filesystem);
    lemma_env_name_injective(m1.determinism.io_policy.env, m2.determinism.io_policy.env);
}

} // verus!
