use conclave::json::JsonValue;
use conclave::manifest::{
    compute_canonical_manifest_hash, manifest_to_json, CapabilityBinding, Determinism, EnvPolicy,
    FilesystemPolicy, IoPolicy, Manifest, ManifestSignature, NetworkPolicy, Observability, Program,
    RandomnessPolicy, SchedulerPolicy, SupplyChain, Target, TieBreaker, Toolchain,
};
use conclave::json::to_canonical_json;
use conclave::hash::sha256_str;

fn fixture_manifest() -> Manifest {
    let mut bindings = Vec::new();
    bindings.push((
        "fetch(Url)->Html".to_string(),
        CapabilityBinding {
            capability_name: "fetch".into(),
            artifact_hash:
                "sha256:aaaaaaaaaaaaaaaaaaaaaaaaaaaaaaaaaaaaaaaaaaaaaaaaaaaaaaaaaaaaaaaa".into(),
            determinism_profile: "replayable".into(),
            trust: "sandboxed_network_only".into(),
            config: Some(vec![
                ("fetch_mode".to_string(), JsonValue::Str("replay".to_string())),
                (
                    "replay_store_hash".to_string(),
                    JsonValue::Str(
                        "sha256:bbbbbbbbbbbbbbbbbbbbbbbbbbbbbbbbbbbbbbbbbbbbbbbbbbbbbbbbbbbbbbbb".to_string(),
                    ),
                ),
            ]),
            signatures: None,
        },
    ));

    Manifest {
        conclave_manifest_version: "0.1".into(),
        program: Program {
            name: "test_program".into(),
            plan_ir_hash: "sha256:cccccccccccccccccccccccccccccccccccccccccccccccccccccccccccccccc"
                .into(),
        },
        target: Target {
            triple: "aarch64-apple-darwin".into(),
            os: "macos".into(),
            arch: "aarch64".into(),
        },
        toolchain: Toolchain {
            lowerer_hash: "sha256:dddddddddddddddddddddddddddddddddddddddddddddddddddddddddddddddd"
                .into(),
            runtime_hash: "sha256:eeeeeeeeeeeeeeeeeeeeeeeeeeeeeeeeeeeeeeeeeeeeeeeeeeeeeeeeeeeeeeee"
                .into(),
            stdlib_hash: "sha256:ffffffffffffffffffffffffffffffffffffffffffffffffffffffffffffffff"
                .into(),
        },
        capability_bindings: bindings,
        module_bindings: vec![],
        scheduler_policy: SchedulerPolicy {
            strategy: "bounded_parallel_map".into(),
            max_inflight: 2,
            ready_queue_order: vec!["url_index".into(), "node_kind".into(), "node_id".into()],
            node_kind_order: vec![
                "FETCH".into(),
                "EXTRACT".into(),
                "SUMMARIZE".into(),
                "ASSEMBLE".into(),
            ],
            tie_breaker: TieBreaker {
                kind: "stable".into(),
                seed: 0,
            },
        },
        determinism: Determinism {
            mode: "sealed_replay".into(),
            clock: "virtual".into(),
            randomness: RandomnessPolicy {
                allowed: true,
                seed: 1337,
                source: "ctr_drbg".into(),
            },
            float: "strict".into(),
            io_policy: IoPolicy {
                network: NetworkPolicy::ReplayOnly,
                filesystem: FilesystemPolicy::Sandboxed,
                env: EnvPolicy::Frozen,
            },
        },
        observability: Observability {
            trace_level: "deterministic".into(),
            emit_scheduler_trace: true,
            emit_capability_metrics: true,
        },
        supply_chain: SupplyChain {
            artifact_store: "content_addressed".into(),
            require_artifact_signatures: false,
            manifest_signature: None,
        },
    }
}

#[test]
fn canonical_manifest_hash_is_deterministic() {
    let m = fixture_manifest();
    let h1 = compute_canonical_manifest_hash(&m);
    let h2 = compute_canonical_manifest_hash(&m);
    assert_eq!(h1, h2);
}

#[test]
fn canonical_manifest_hash_has_sha256_prefix() {
    let m = fixture_manifest();
    let h = compute_canonical_manifest_hash(&m);
    assert!(h.to_string().starts_with("sha256:"));
}

#[test]
fn canonical_manifest_hash_differs_with_different_program_name() {
    let mut m1 = fixture_manifest();
    let mut m2 = fixture_manifest();
    m1.program.name = "prog_a".into();
    m2.program.name = "prog_b".into();
    assert_ne!(
        compute_canonical_manifest_hash(&m1),
        compute_canonical_manifest_hash(&m2)
    );
}

#[test]
fn canonical_manifest_hash_excludes_signature_field() {
    // Two manifests with the same manifest_signature metadata (algo, public_key_id)
    // but DIFFERENT signature values must hash identically — only the signature bytes
    // are excluded from the hash (a signature cannot sign itself).
    let sig_a = ManifestSignature {
        algo: "ed25519".into(),
        public_key_id: "kid:test".into(),
        signature: "base64:abc123".into(),
    };
    let sig_b = ManifestSignature {
        algo: "ed25519".into(),
        public_key_id: "kid:test".into(),
        signature: "base64:totally_different_value".into(),
    };

    let mut m_a = fixture_manifest();
    let mut m_b = fixture_manifest();
    m_a.supply_chain.manifest_signature = Some(sig_a);
    m_b.supply_chain.manifest_signature = Some(sig_b);

    assert_eq!(
        compute_canonical_manifest_hash(&m_a),
        compute_canonical_manifest_hash(&m_b),
        "manifest hash must not include the signature value"
    );

    // But a different public_key_id DOES affect the hash (only the signature value is excluded).
    let mut m_c = fixture_manifest();
    m_c.supply_chain.manifest_signature = Some(ManifestSignature {
        algo: "ed25519".into(),
        public_key_id: "kid:other".into(),
        signature: "base64:abc123".into(),
    });
    assert_ne!(
        compute_canonical_manifest_hash(&m_a),
        compute_canonical_manifest_hash(&m_c),
        "manifest hash must include public_key_id"
    );
}

#[test]
fn canonical_manifest_hash_is_sha256_of_canonical_json_without_signature() {
    let mut m = fixture_manifest();
    m.supply_chain.manifest_signature = Some(ManifestSignature {
        algo: "ed25519".into(),
        public_key_id: "kid:test".into(),
        signature: "base64:abc".into(),
    });
    let text = to_canonical_json(&manifest_to_json(&m));
    assert!(text.contains("base64:abc"));
    let without = text.replace(r#","signature":"base64:abc""#, "");
    assert!(!without.contains("base64:abc"));
    assert_eq!(compute_canonical_manifest_hash(&m), sha256_str(&without));
}

#[test]
fn empty_module_bindings_are_left_out_of_manifest_json() {
    let mut m = fixture_manifest();
    let text = to_canonical_json(&manifest_to_json(&m));
    assert!(!text.contains("module_bindings"));
    m.module_bindings.push(("Sub".into(), "sha256:x".into()));
    let text = to_canonical_json(&manifest_to_json(&m));
    assert!(text.contains(r#""module_bindings":{"Sub":"sha256:x"}"#));
}
