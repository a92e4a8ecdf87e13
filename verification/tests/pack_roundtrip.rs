use conclave::hash::sha256_bytes;
use conclave::ir::canonical::compute_plan_ir_hash;
use conclave::ir::{Exports, Module, PlanIr};
use conclave::manifest::{
    compute_canonical_manifest_hash, Determinism, EnvPolicy, FilesystemPolicy, IoPolicy, Manifest, NetworkPolicy,
    Observability, Program, RandomnessPolicy, SchedulerPolicy, SupplyChain, Target, TieBreaker, Toolchain,
};
use conclave::pack::{
    compute_bundle_hash, pack, serialize_bundle, unpack_frame, verify_bundle, Bundle, BundleHashes, PackError,
    PackInput,
};

fn parse(bytes: &[u8]) -> serde_json::Value {
    serde_json::from_slice(bytes).unwrap()
}

fn fixture_bundle() -> Bundle {
    let ir = PlanIr {
        conclave_ir_version: "0.1".into(),
        module: Module {
            name: "pack_test".into(),
            source_fingerprint:
                "sha256:0000000000000000000000000000000000000000000000000000000000000000".into(),
        },
        imports: vec![],
        types: vec![],
        goals: vec![],
        nodes: vec![],
        edges: vec![],
        constraints: vec![],
        subgraphs: vec![],
        exports: Exports {
            entry_goal: "gid:entry".into(),
        },
    };

    let manifest = Manifest {
        conclave_manifest_version: "0.1".into(),
        program: Program {
            name: "pack_test".into(),
            plan_ir_hash: compute_plan_ir_hash(&ir).to_string(),
        },
        target: Target {
            triple: "aarch64-apple-darwin".into(),
            os: "macos".into(),
            arch: "aarch64".into(),
        },
        toolchain: Toolchain {
            lowerer_hash: "sha256:dddddddddddddddddddddddddddddddddddddddddddddddddddddddddddddddd"
                .into(),
            runtime_hash: "sha256:eeeeeeeeeeeeeeeeeeeeeeeeeeeeeeeeeeeeeeeeeeeeeeeeeeeeeeeeeeeeeeee"
                .into(),
            stdlib_hash: "sha256:ffffffffffffffffffffffffffffffffffffffffffffffffffffffffffffffff"
                .into(),
        },
        capability_bindings: vec![],
        module_bindings: vec![],
        scheduler_policy: SchedulerPolicy {
            strategy: "bounded_parallel_map".into(),
            max_inflight: 1,
            ready_queue_order: vec![],
            node_kind_order: vec![],
            tie_breaker: TieBreaker {
                kind: "stable".into(),
                seed: 0,
            },
        },
        determinism: Determinism {
            mode: "sealed_replay".into(),
            clock: "virtual".into(),
            randomness: RandomnessPolicy {
                allowed: false,
                seed: 0,
                source: "none".into(),
            },
            float: "strict".into(),
            io_policy: IoPolicy {
                network: NetworkPolicy::Deny,
                filesystem: FilesystemPolicy::Deny,
                env: EnvPolicy::Frozen,
            },
        },
        observability: Observability {
            trace_level: "deterministic".into(),
            emit_scheduler_trace: false,
            emit_capability_metrics: false,
        },
        supply_chain: SupplyChain {
            artifact_store: "content_addressed".into(),
            require_artifact_signatures: false,
            manifest_signature: None,
        },
    };

    Bundle {
        bundle_version: "0.1".into(),
        manifest,
        plan_ir: ir,
        embedded_artifacts: None,
        bundle_hashes: BundleHashes {
            canonical_manifest_hash: String::new(),
            plan_ir_hash: String::new(),
            bundle_hash: String::new(),
        },
    }
}

#[test]
fn pack_unpack_roundtrip() {
    let runtime_bytes = b"fake_runtime_binary".to_vec();
    let bundle = fixture_bundle();

    let output = pack(PackInput {
        runtime_bytes,
        bundle,
    })
    .unwrap();
    let recovered = parse(&unpack_frame(&output.artifact_bytes).unwrap());

    assert_eq!(recovered["manifest"]["program"]["name"], "pack_test");
    assert_eq!(recovered["bundle_version"], "0.1");
    assert_eq!(
        recovered["bundle_hashes"]["bundle_hash"],
        output.bundle_hash.to_string().as_str()
    );
}

#[test]
fn pack_is_deterministic() {
    let runtime_bytes = b"fake_runtime_binary".to_vec();

    let out1 = pack(PackInput {
        runtime_bytes: runtime_bytes.clone(),
        bundle: fixture_bundle(),
    })
    .unwrap();

    let out2 = pack(PackInput {
        runtime_bytes,
        bundle: fixture_bundle(),
    })
    .unwrap();

    assert_eq!(
        out1.artifact_bytes, out2.artifact_bytes,
        "pack must produce identical bytes given identical inputs"
    );
    assert_eq!(out1.artifact_hash, out2.artifact_hash);
    assert_eq!(out1.bundle_hash, out2.bundle_hash);
}

#[test]
fn unpack_rejects_bad_magic() {
    let mut artifact = b"some_runtime".to_vec();
    artifact.extend_from_slice(b"bundle_data");
    // Wrong magic.
    let bundle_len = 11u64.to_le_bytes();
    artifact.extend_from_slice(&bundle_len);
    artifact.extend_from_slice(b"BADMAGIC");
    assert!(matches!(
        unpack_frame(&artifact),
        Err(PackError::ArtifactBadMagic)
    ));
}

#[test]
fn unpack_rejects_too_short() {
    let artifact = b"short".to_vec();
    assert!(matches!(
        unpack_frame(&artifact),
        Err(PackError::ArtifactTruncated)
    ));
}

#[test]
fn pack_layout_is_runtime_bundle_length_magic() {
    let runtime = b"RT".to_vec();
    let out = pack(PackInput { runtime_bytes: runtime.clone(), bundle: fixture_bundle() }).unwrap();
    let a = &out.artifact_bytes;
    assert_eq!(&a[..2], b"RT");
    assert_eq!(&a[a.len() - 8..], b"CNCLV01\0");
    let n = u64::from_le_bytes(a[a.len() - 16..a.len() - 8].try_into().unwrap()) as usize;
    assert_eq!(2 + n + 16, a.len());
    assert_eq!(out.artifact_hash, sha256_bytes(a));
}

#[test]
fn packed_bundle_carries_consistent_hashes() {
    let b = fixture_bundle();
    let expected_plan = compute_plan_ir_hash(&b.plan_ir).to_string();
    let expected_manifest = compute_canonical_manifest_hash(&b.manifest).to_string();
    let out = pack(PackInput { runtime_bytes: vec![], bundle: b }).unwrap();
    let v = parse(&unpack_frame(&out.artifact_bytes).unwrap());
    assert_eq!(v["bundle_hashes"]["plan_ir_hash"], expected_plan.as_str());
    assert_eq!(v["bundle_hashes"]["canonical_manifest_hash"], expected_manifest.as_str());
}

#[test]
fn sealed_bundle_passes_verification() {
    let mut b = fixture_bundle();
    b.bundle_hashes.plan_ir_hash = compute_plan_ir_hash(&b.plan_ir).to_string();
    b.bundle_hashes.canonical_manifest_hash = compute_canonical_manifest_hash(&b.manifest).to_string();
    b.bundle_hashes.bundle_hash = compute_bundle_hash(&b).to_string();
    assert_eq!(verify_bundle(&b), Ok(()));
    let out = pack(PackInput { runtime_bytes: vec![1, 2, 3], bundle: fixture_bundle() }).unwrap();
    assert_eq!(unpack_frame(&out.artifact_bytes).unwrap(), serialize_bundle(&b));
    assert_eq!(out.bundle_hash.to_string(), b.bundle_hashes.bundle_hash);
}

#[test]
fn verify_rejects_tampered_bundle_hash() {
    let mut b = fixture_bundle();
    b.bundle_hashes.plan_ir_hash = compute_plan_ir_hash(&b.plan_ir).to_string();
    b.bundle_hashes.canonical_manifest_hash = compute_canonical_manifest_hash(&b.manifest).to_string();
    b.bundle_hashes.bundle_hash = "sha256:0000".into();
    assert!(matches!(verify_bundle(&b), Err(PackError::BundleHashMismatch { .. })));
}

#[test]
fn verify_rejects_wrong_plan_hash() {
    let mut b = fixture_bundle();
    b.bundle_hashes.plan_ir_hash = "sha256:1234".into();
    match verify_bundle(&b) {
        Err(PackError::PlanHashMismatch { expected, got }) => {
            assert_eq!(expected, "sha256:1234");
            assert_eq!(got, compute_plan_ir_hash(&b.plan_ir).to_string());
        }
        other => panic!("expected PlanHashMismatch, got {:?}", other),
    }
}

#[test]
fn verify_rejects_manifest_naming_another_plan() {
    let mut b = fixture_bundle();
    b.bundle_hashes.plan_ir_hash = compute_plan_ir_hash(&b.plan_ir).to_string();
    b.manifest.program.plan_ir_hash = "sha256:other".into();
    assert!(matches!(verify_bundle(&b), Err(PackError::PlanHashMismatch { .. })));
}

#[test]
fn verify_rejects_wrong_manifest_hash() {
    let mut b = fixture_bundle();
    b.bundle_hashes.plan_ir_hash = compute_plan_ir_hash(&b.plan_ir).to_string();
    b.bundle_hashes.canonical_manifest_hash = "sha256:nope".into();
    assert!(matches!(verify_bundle(&b), Err(PackError::ManifestHashMismatch { .. })));
}

#[test]
fn unpack_rejects_overlong_length() {
    let mut artifact = b"abc".to_vec();
    artifact.extend_from_slice(&100u64.to_le_bytes());
    artifact.extend_from_slice(b"CNCLV01\0");
    assert_eq!(unpack_frame(&artifact), Err(PackError::ArtifactTruncated));
}

#[test]
fn unpack_frame_of_empty_bundle() {
    let mut artifact = b"runtime".to_vec();
    artifact.extend_from_slice(&0u64.to_le_bytes());
    artifact.extend_from_slice(b"CNCLV01\0");
    assert_eq!(unpack_frame(&artifact), Ok(vec![]));
}
