use conclave::ir::canonical::validate_plan_ir;
use conclave::ir::{
    DeterminismProfile, Edge, EdgeEndpoint, Exports, IrError, Module, Node, NodeAttrs, NodeKind, Op, PlanIr,
};

fn minimal_ir() -> PlanIr {
    PlanIr {
        conclave_ir_version: "0.1".into(),
        module: Module {
            name: "test".into(),
            source_fingerprint:
                "sha256:0000000000000000000000000000000000000000000000000000000000000000".into(),
        },
        imports: vec![],
        types: vec![],
        goals: vec![],
        nodes: vec![],
        edges: vec![],
        constraints: vec![],
        subgraphs: vec![],
        exports: Exports {
            entry_goal: "gid:test".into(),
        },
    }
}

fn noop_node(id: &str) -> Node {
    Node {
        node_id: id.into(),
        kind: NodeKind::Intrinsic,
        op: Op {
            name: "noop".into(),
            signature: "noop()->()".into(),
        },
        inputs: vec![],
        outputs: vec![],
        attrs: NodeAttrs {
            determinism_profile: DeterminismProfile::Fixed,
            cost_hints: None,
            url_index: None,
        },
        constraints: vec![],
        import_subgraph_id: None,
        meta: None,
    }
}

#[test]
fn validate_ok_minimal() {
    assert!(validate_plan_ir(&minimal_ir()).is_ok());
}

#[test]
fn validate_rejects_wrong_version() {
    let mut ir = minimal_ir();
    ir.conclave_ir_version = "0.2".into();
    assert!(matches!(
        validate_plan_ir(&ir),
        Err(IrError::UnsupportedVersion(_))
    ));
}

#[test]
fn validate_rejects_duplicate_node_id() {
    let mut ir = minimal_ir();
    ir.nodes.push(noop_node("nid:dup"));
    ir.nodes.push(noop_node("nid:dup"));
    assert!(matches!(
        validate_plan_ir(&ir),
        Err(IrError::DuplicateNodeId(_))
    ));
}

#[test]
fn validate_rejects_edge_with_unknown_node() {
    let mut ir = minimal_ir();
    ir.edges.push(Edge {
        edge_id: "eid:test".into(),
        from: EdgeEndpoint {
            node_id: "nid:nonexistent".into(),
            port: "out".into(),
        },
        to: EdgeEndpoint {
            node_id: "nid:also_nonexistent".into(),
            port: "in".into(),
        },
    });
    assert!(matches!(
        validate_plan_ir(&ir),
        Err(IrError::EdgeReferencesUnknownNode { .. })
    ));
}

#[test]
fn validate_rejects_duplicate_edge_id() {
    let mut ir = minimal_ir();
    ir.nodes.push(noop_node("nid:a"));
    ir.nodes.push(noop_node("nid:b"));
    for _ in 0..2 {
        ir.edges.push(Edge {
            edge_id: "eid:same".into(),
            from: EdgeEndpoint { node_id: "nid:a".into(), port: "out".into() },
            to: EdgeEndpoint { node_id: "nid:b".into(), port: "in".into() },
        });
    }
    match validate_plan_ir(&ir) {
        Err(IrError::DuplicateEdgeId(id)) => assert_eq!(id, "eid:same"),
        other => panic!("expected DuplicateEdgeId, got {:?}", other),
    }
}

#[test]
fn validate_reports_unknown_target_node() {
    let mut ir = minimal_ir();
    ir.nodes.push(noop_node("nid:a"));
    ir.edges.push(Edge {
        edge_id: "eid:x".into(),
        from: EdgeEndpoint { node_id: "nid:a".into(), port: "out".into() },
        to: EdgeEndpoint { node_id: "nid:missing".into(), port: "in".into() },
    });
    match validate_plan_ir(&ir) {
        Err(IrError::EdgeReferencesUnknownNode { edge_id, node_id }) => {
            assert_eq!(edge_id, "eid:x");
            assert_eq!(node_id, "nid:missing");
        }
        other => panic!("expected EdgeReferencesUnknownNode, got {:?}", other),
    }
}
