use conclave::ir::{
    DeterminismProfile, Exports, Module, Node, NodeAttrs, NodeKind, Op, PlanIr,
};
use conclave::json::JsonValue;
use conclave::manifest::seal::{validate_seal, SealError};
use conclave::manifest::{
    CapabilityBinding, CapabilitySignatures, Determinism, EnvPolicy, FilesystemPolicy, IoPolicy, Manifest,
    NetworkPolicy, Observability, Program, RandomnessPolicy, SchedulerPolicy, SupplyChain, Target, TieBreaker,
    Toolchain,
};

fn binding_mut<'a>(m: &'a mut Manifest, sig: &str) -> &'a mut CapabilityBinding {
    &mut m.capability_bindings.iter_mut().find(|(k, _)| k == sig).unwrap().1
}

fn fixture_manifest() -> Manifest {
    let mut bindings = Vec::new();
    bindings.push((
        "fetch(Url)->Html".to_string(),
        CapabilityBinding {
            capability_name: "fetch".into(),
            artifact_hash:
                "sha256:aaaaaaaaaaaaaaaaaaaaaaaaaaaaaaaaaaaaaaaaaaaaaaaaaaaaaaaaaaaaaaaa".into(),
            determinism_profile: "replayable".into(),
            trust: "sandboxed_network_only".into(),
            config: Some(vec![
                ("fetch_mode".to_string(), JsonValue::Str("replay".to_string())),
                (
                    "replay_store_hash".to_string(),
                    JsonValue::Str(
                        "sha256:bbbbbbbbbbbbbbbbbbbbbbbbbbbbbbbbbbbbbbbbbbbbbbbbbbbbbbbbbbbbbbbb".to_string(),
                    ),
                ),
            ]),
            signatures: None,
        },
    ));

    Manifest {
        conclave_manifest_version: "0.1".into(),
        program: Program {
            name: "test_program".into(),
            plan_ir_hash: "sha256:cccccccccccccccccccccccccccccccccccccccccccccccccccccccccccccccc"
                .into(),
        },
        target: Target {
            triple: "aarch64-apple-darwin".into(),
            os: "macos".into(),
            arch: "aarch64".into(),
        },
        toolchain: Toolchain {
            lowerer_hash: "sha256:dddddddddddddddddddddddddddddddddddddddddddddddddddddddddddddddd"
                .into(),
            runtime_hash: "sha256:eeeeeeeeeeeeeeeeeeeeeeeeeeeeeeeeeeeeeeeeeeeeeeeeeeeeeeeeeeeeeeee"
                .into(),
            stdlib_hash: "sha256:ffffffffffffffffffffffffffffffffffffffffffffffffffffffffffffffff"
                .into(),
        },
        capability_bindings: bindings,
        module_bindings: vec![],
        scheduler_policy: SchedulerPolicy {
            strategy: "bounded_parallel_map".into(),
            max_inflight: 2,
            ready_queue_order: vec!["url_index".into(), "node_kind".into(), "node_id".into()],
            node_kind_order: vec![
                "FETCH".into(),
                "EXTRACT".into(),
                "SUMMARIZE".into(),
                "ASSEMBLE".into(),
            ],
            tie_breaker: TieBreaker {
                kind: "stable".into(),
                seed: 0,
            },
        },
        determinism: Determinism {
            mode: "sealed_replay".into(),
            clock: "virtual".into(),
            randomness: RandomnessPolicy {
                allowed: true,
                seed: 1337,
                source: "ctr_drbg".into(),
            },
            float: "strict".into(),
            io_policy: IoPolicy {
                network: NetworkPolicy::ReplayOnly,
                filesystem: FilesystemPolicy::Sandboxed,
                env: EnvPolicy::Frozen,
            },
        },
        observability: Observability {
            trace_level: "deterministic".into(),
            emit_scheduler_trace: true,
            emit_capability_metrics: true,
        },
        supply_chain: SupplyChain {
            artifact_store: "content_addressed".into(),
            require_artifact_signatures: false,
            manifest_signature: None,
        },
    }
}

fn fixture_plan_ir() -> PlanIr {
    // A minimal Plan IR with one capability_call node matching the manifest's binding.
    PlanIr {
        conclave_ir_version: "0.1".into(),
        module: Module {
            name: "test".into(),
            source_fingerprint:
                "sha256:0000000000000000000000000000000000000000000000000000000000000000".into(),
        },
        imports: vec![],
        types: vec![],
        goals: vec![],
        nodes: vec![Node {
            node_id: "nid:f1".into(),
            kind: NodeKind::CapabilityCall,
            op: Op {
                name: "fetch".into(),
                signature: "fetch(Url)->Html".into(),
            },
            inputs: vec![],
            outputs: vec![],
            attrs: NodeAttrs {
                determinism_profile: DeterminismProfile::Replayable,
                cost_hints: None,
                url_index: Some(0),
            },
            constraints: vec![],
            meta: None,
            import_subgraph_id: None,
        }],
        edges: vec![],
        constraints: vec![],
        subgraphs: vec![],
        exports: Exports {
            entry_goal: "gid:entry".into(),
        },
    }
}

#[test]
fn seal_ok_with_valid_fixture() {
    assert!(validate_seal(&fixture_manifest(), &fixture_plan_ir()).is_ok());
}

#[test]
fn seal_rejects_empty_plan_ir_hash() {
    let mut m = fixture_manifest();
    m.program.plan_ir_hash = String::new();
    assert!(matches!(
        validate_seal(&m, &fixture_plan_ir()),
        Err(SealError::MissingPlanIrHash)
    ));
}

#[test]
fn seal_rejects_non_hash_plan_ir_hash() {
    let mut m = fixture_manifest();
    m.program.plan_ir_hash = "latest".into();
    assert!(matches!(
        validate_seal(&m, &fixture_plan_ir()),
        Err(SealError::MissingPlanIrHash)
    ));
}

#[test]
fn seal_rejects_missing_capability_binding() {
    let m = fixture_manifest();
    let mut ir = fixture_plan_ir();
    // Add a cap_call node whose signature has no binding.
    ir.nodes.push(Node {
        node_id: "nid:x".into(),
        kind: NodeKind::CapabilityCall,
        op: Op {
            name: "unknown".into(),
            signature: "unknown(A)->B".into(),
        },
        inputs: vec![],
        outputs: vec![],
        attrs: NodeAttrs {
            determinism_profile: DeterminismProfile::Fixed,
            cost_hints: None,
            url_index: None,
        },
        constraints: vec![],
        meta: None,
        import_subgraph_id: None,
    });
    assert!(matches!(
        validate_seal(&m, &ir),
        Err(SealError::MissingCapabilityBinding(_))
    ));
}

#[test]
fn seal_rejects_floating_artifact_hash() {
    let mut m = fixture_manifest();
    binding_mut(&mut m, "fetch(Url)->Html").artifact_hash = "latest".into();
    assert!(matches!(
        validate_seal(&m, &fixture_plan_ir()),
        Err(SealError::FloatingCapabilityReference(_))
    ));
}

#[test]
fn seal_rejects_unpinned_toolchain() {
    let mut m = fixture_manifest();
    m.toolchain.lowerer_hash = String::new();
    assert!(matches!(
        validate_seal(&m, &fixture_plan_ir()),
        Err(SealError::UnpinnedToolchain)
    ));
}

#[test]
fn seal_rejects_non_virtual_clock() {
    let mut m = fixture_manifest();
    m.determinism.clock = "wall".into();
    assert!(matches!(
        validate_seal(&m, &fixture_plan_ir()),
        Err(SealError::ClockNotVirtual)
    ));
}

#[test]
fn seal_rejects_network_cap_not_replay_in_sealed_replay_mode() {
    let mut m = fixture_manifest();
    // Remove fetch_mode from config so it's no longer replay.
    binding_mut(&mut m, "fetch(Url)->Html")
        .config
        .as_mut()
        .unwrap()
        .retain(|(k, _)| k != "fetch_mode");
    assert!(matches!(
        validate_seal(&m, &fixture_plan_ir()),
        Err(SealError::NetworkCapabilityNotReplay(_))
    ));
}

#[test]
fn seal_rejects_signatures_required_with_no_accepted_keys() {
    let mut m = fixture_manifest();
    let sig = "fetch(Url)->Html";
    *binding_mut(&mut m, sig) = CapabilityBinding {
            capability_name: "fetch".into(),
            artifact_hash:
                "sha256:aaaaaaaaaaaaaaaaaaaaaaaaaaaaaaaaaaaaaaaaaaaaaaaaaaaaaaaaaaaaaaaa".into(),
            determinism_profile: "replayable".into(),
            trust: "deterministic".into(),
            config: None,
            signatures: Some(CapabilitySignatures {
                required: true,
                accepted_keys: vec![], // empty — should be rejected
            }),
        };
    assert!(matches!(
        validate_seal(&m, &fixture_plan_ir()),
        Err(SealError::SignatureRequiredButNoKeys(_))
    ));
}

#[test]
fn seal_error_names_the_unbound_signature() {
    let m = fixture_manifest();
    let mut ir = fixture_plan_ir();
    ir.nodes[0].op.signature = "fetch(String)->Html".into();
    assert_eq!(
        validate_seal(&m, &ir),
        Err(SealError::MissingCapabilityBinding("fetch(String)->Html".into()))
    );
}

#[test]
fn seal_accepts_network_cap_outside_sealed_replay_mode() {
    let mut m = fixture_manifest();
    m.determinism.mode = "live".into();
    binding_mut(&mut m, "fetch(Url)->Html").config = None;
    assert!(validate_seal(&m, &fixture_plan_ir()).is_ok());
}

#[test]
fn seal_rejects_non_replay_fetch_mode_value() {
    let mut m = fixture_manifest();
    binding_mut(&mut m, "fetch(Url)->Html").config =
        Some(vec![("fetch_mode".to_string(), JsonValue::Str("live".to_string()))]);
    assert_eq!(
        validate_seal(&m, &fixture_plan_ir()),
        Err(SealError::NetworkCapabilityNotReplay("fetch(Url)->Html".into()))
    );
}

#[test]
fn seal_rejects_missing_module_binding() {
    let m = fixture_manifest();
    let mut ir = fixture_plan_ir();
    ir.imports.push((
        "Sub".to_string(),
        "sha256:1111111111111111111111111111111111111111111111111111111111111111".to_string(),
    ));
    assert_eq!(validate_seal(&m, &ir), Err(SealError::MissingModuleBinding("Sub".into())));
}

#[test]
fn seal_rejects_module_binding_hash_mismatch() {
    let mut m = fixture_manifest();
    let mut ir = fixture_plan_ir();
    let h1 = "sha256:1111111111111111111111111111111111111111111111111111111111111111".to_string();
    let h2 = "sha256:2222222222222222222222222222222222222222222222222222222222222222".to_string();
    ir.imports.push(("Sub".to_string(), h1.clone()));
    m.module_bindings.push(("Sub".to_string(), h2.clone()));
    assert_eq!(
        validate_seal(&m, &ir),
        Err(SealError::ModuleBindingHashMismatch { import_name: "Sub".into(), plan_ir_hash: h1.clone(), manifest_hash: h2 })
    );
    m.module_bindings[0].1 = h1;
    assert!(validate_seal(&m, &ir).is_ok());
}

#[test]
fn seal_checks_plan_hash_before_toolchain() {
    let mut m = fixture_manifest();
    m.program.plan_ir_hash = String::new();
    m.toolchain.runtime_hash = String::new();
    assert_eq!(validate_seal(&m, &fixture_plan_ir()), Err(SealError::MissingPlanIrHash));
}
