use conclave::ir::canonical::{
    canonicalize_plan_ir, compute_edge_id, compute_node_id, compute_plan_ir_hash,
};
use conclave::ir::{
    DeterminismProfile, Edge, EdgeEndpoint, Exports, InputPort, Module, Node, NodeAttrs, NodeKind, Op,
    OutputPort, PlanIr,
};
use conclave::json::{to_canonical_json, JsonValue};

fn minimal_ir() -> PlanIr {
    PlanIr {
        conclave_ir_version: "0.1".into(),
        module: Module {
            name: "test_module".into(),
            source_fingerprint:
                "sha256:0000000000000000000000000000000000000000000000000000000000000000".into(),
        },
        imports: vec![],
        types: vec![],
        goals: vec![],
        nodes: vec![],
        edges: vec![],
        constraints: vec![],
        subgraphs: vec![],
        exports: Exports {
            entry_goal: "gid:entry".into(),
        },
    }
}

fn noop_node(id: &str, meta: Option<JsonValue>) -> Node {
    Node {
        node_id: id.into(),
        kind: NodeKind::Intrinsic,
        op: Op {
            name: "noop".into(),
            signature: "noop()->()".into(),
        },
        inputs: vec![],
        outputs: vec![],
        attrs: NodeAttrs {
            determinism_profile: DeterminismProfile::Fixed,
            cost_hints: None,
            url_index: None,
        },
        constraints: vec![],
        meta,
        import_subgraph_id: None,
    }
}

#[test]
fn plan_ir_hash_is_deterministic() {
    let ir = minimal_ir();
    let h1 = compute_plan_ir_hash(&ir);
    let h2 = compute_plan_ir_hash(&ir);
    assert_eq!(h1, h2);
}

#[test]
fn plan_ir_hash_has_sha256_prefix() {
    let ir = minimal_ir();
    let h = compute_plan_ir_hash(&ir);
    assert!(h.to_string().starts_with("sha256:"));
}

#[test]
fn plan_ir_hash_differs_with_different_module_name() {
    let mut ir1 = minimal_ir();
    let mut ir2 = minimal_ir();
    ir1.module.name = "a".into();
    ir2.module.name = "b".into();
    assert_ne!(compute_plan_ir_hash(&ir1), compute_plan_ir_hash(&ir2));
}

#[test]
fn plan_ir_hash_ignores_meta_field() {
    let mut ir_with_meta = minimal_ir();
    let meta = JsonValue::Object(vec![
        (
            "span".to_string(),
            JsonValue::Object(vec![
                ("start".to_string(), JsonValue::Int(0)),
                ("end".to_string(), JsonValue::Int(100)),
            ]),
        ),
        ("origin".to_string(), JsonValue::Str("test".to_string())),
    ]);
    ir_with_meta.nodes.push(noop_node("nid:n1", Some(meta)));

    let mut ir_without_meta = minimal_ir();
    ir_without_meta.nodes.push(noop_node("nid:n1", None));

    assert_eq!(
        compute_plan_ir_hash(&ir_with_meta),
        compute_plan_ir_hash(&ir_without_meta),
        "meta fields must not affect plan_ir_hash"
    );
}

#[test]
fn plan_ir_hash_ignores_node_order() {
    let mut a = minimal_ir();
    a.nodes.push(noop_node("nid:1", None));
    a.nodes.push(noop_node("nid:2", None));
    let mut b = minimal_ir();
    b.nodes.push(noop_node("nid:2", None));
    b.nodes.push(noop_node("nid:1", None));
    assert_eq!(compute_plan_ir_hash(&a), compute_plan_ir_hash(&b));
}

#[test]
fn canonical_plan_ir_text_of_minimal_ir() {
    let text = to_canonical_json(&canonicalize_plan_ir(&minimal_ir()));
    assert_eq!(
        text,
        r#"{"conclave_ir_version":"0.1","constraints":{},"edges":[],"exports":{"entry_goal":"gid:entry"},"goals":[],"module":{"name":"test_module","source_fingerprint":"sha256:0000000000000000000000000000000000000000000000000000000000000000"},"nodes":[],"subgraphs":[],"types":{}}"#
    );
}

#[test]
fn node_id_is_deterministic() {
    let node = Node {
        node_id: String::new(),
        kind: NodeKind::CapabilityCall,
        op: Op {
            name: "fetch".into(),
            signature: "fetch(Url)->Html".into(),
        },
        inputs: vec![InputPort {
            port: "in.url".into(),
            ty_name: "Url".into(),
            source: None,
        }],
        outputs: vec![OutputPort {
            port: "out.html".into(),
            ty_name: "Html".into(),
        }],
        attrs: NodeAttrs {
            determinism_profile: DeterminismProfile::Replayable,
            cost_hints: None,
            url_index: Some(0),
        },
        constraints: vec![],
        meta: None,
        import_subgraph_id: None,
    };
    let id1 = compute_node_id(&node);
    let id2 = compute_node_id(&node);
    assert_eq!(id1, id2);
    assert!(id1.to_string().starts_with("sha256:"));
}

#[test]
fn node_id_ignores_existing_id() {
    let a = noop_node("nid:a", None);
    let b = noop_node("nid:b", None);
    assert_eq!(compute_node_id(&a), compute_node_id(&b));
}

#[test]
fn edge_id_is_deterministic() {
    let edge = Edge {
        edge_id: String::new(),
        from: EdgeEndpoint {
            node_id: "nid:a".into(),
            port: "out".into(),
        },
        to: EdgeEndpoint {
            node_id: "nid:b".into(),
            port: "in".into(),
        },
    };
    let id1 = compute_edge_id(&edge);
    let id2 = compute_edge_id(&edge);
    assert_eq!(id1, id2);
}

#[test]
fn canonical_plan_ir_lists_nodes_by_id_without_meta() {
    let mut ir = minimal_ir();
    let meta = JsonValue::Object(vec![("origin".to_string(), JsonValue::Str("test".to_string()))]);
    ir.nodes.push(noop_node("nid:b", Some(meta)));
    ir.nodes.push(noop_node("nid:a", None));
    let canonical = canonicalize_plan_ir(&ir);
    let nodes = match &canonical {
        JsonValue::Object(members) => members
            .iter()
            .find(|(k, _)| k == "nodes")
            .map(|(_, v)| v.clone())
            .expect("nodes member"),
        _ => panic!("canonical Plan IR is an object"),
    };
    let ids: Vec<String> = match &nodes {
        JsonValue::Array(items) => items
            .iter()
            .map(|item| match item {
                JsonValue::Object(members) => {
                    assert!(members.iter().all(|(k, _)| k != "meta"));
                    match members.iter().find(|(k, _)| k == "node_id") {
                        Some((_, JsonValue::Str(s))) => s.clone(),
                        _ => panic!("node_id is a string"),
                    }
                }
                _ => panic!("a node is an object"),
            })
            .collect(),
        _ => panic!("nodes is an array"),
    };
    assert_eq!(ids, vec!["nid:a".to_string(), "nid:b".to_string()]);
}
