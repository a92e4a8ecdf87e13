use conclave::ir::IrError;
use conclave::lang::error::LangError;
use conclave::manifest::seal::SealError;
use conclave::pack::PackError;

#[test]
fn unexpected_token_message_names_line_and_tokens() {
    let e = LangError::UnexpectedToken { expected: "'{'".to_string(), got: "x".to_string(), line: 12 };
    assert_eq!(e.to_string(), "unexpected token at line 12: expected '{', got 'x'");
}

#[test]
fn arity_mismatch_message_gives_both_counts() {
    let e = LangError::ArityMismatch { fn_name: "fetch".to_string(), expected: 1, got: 3 };
    assert_eq!(e.to_string(), "arity mismatch calling 'fetch': expected 1 argument(s), got 3");
}

#[test]
fn unit_language_errors_have_fixed_messages() {
    assert_eq!(LangError::NoGoals.to_string(), "no goals declared in module");
    assert_eq!(
        LangError::MapRequiresUrlCount.to_string(),
        "lowering requires url_count > 0 for map constructs"
    );
}

#[test]
fn ir_error_messages() {
    assert_eq!(
        IrError::UnsupportedVersion("0.2".to_string()).to_string(),
        "unsupported conclave_ir_version: expected \"0.1\", got \"0.2\""
    );
    let e = IrError::EdgeReferencesUnknownNode { edge_id: "eid:1".to_string(), node_id: "nid:9".to_string() };
    assert_eq!(e.to_string(), "edge eid:1 references unknown node_id: nid:9");
}

#[test]
fn seal_error_messages() {
    assert_eq!(SealError::ClockNotVirtual.to_string(), "determinism.clock must be \"virtual\"");
    let e = SealError::ModuleBindingHashMismatch {
        import_name: "lib".to_string(),
        plan_ir_hash: "sha256:aa".to_string(),
        manifest_hash: "sha256:bb".to_string(),
    };
    assert_eq!(
        e.to_string(),
        "module binding for import 'lib' is sha256:bb, but the Plan IR imports sha256:aa"
    );
}

#[test]
fn pack_error_messages_start_with_their_codes() {
    assert_eq!(
        PackError::ArtifactBadMagic.to_string(),
        "ERR_ARTIFACT_BAD_MAGIC: trailer magic bytes do not match CNCLV01\\0"
    );
    let e = PackError::PlanHashMismatch { expected: "a".to_string(), got: "b".to_string() };
    assert_eq!(e.to_string(), "ERR_PLAN_HASH_MISMATCH: expected a, got b");
}
