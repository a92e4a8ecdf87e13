use conclave::lang::error::LangError;
use conclave::lang::normalize::{ast_hash, normalize, normalize_signature};
use conclave::lang::parser::parse;

fn source() -> &'static str {
    "version 0.1;

type Url = String where re2(\"^https?://\");

capability fetch: fetch(Url) -> Html;
capability extract_text: extract_text(Html) -> String;
capability summarize: summarize(String) -> String;
intrinsic assemble_json: assemble_json(List<String>) -> Json;

goal SummarizeUrls(urls: List<Url>) -> Json {
  want {
    map urls as url {
      let html = fetch(url);
      let text = extract_text(html);
      emit summarize(text);
    }
    return assemble_json(collected);
  }

  constraints {
    determinism.mode == \"sealed_replay\";
    rate_limit(fetch) <= 2 req/s;
    scheduler.max_inflight <= 2;
  }
}
"
}

#[test]
fn normalize_version_ok() {
    let m = parse(source()).unwrap();
    let n = normalize(m).unwrap();
    assert_eq!(n.version, "0.1");
}

#[test]
fn normalize_version_wrong() {
    let m = conclave::lang::ast::Module {
        version: "0.2".into(),
        imports: vec![],
        types: vec![],
        capabilities: vec![],
        intrinsics: vec![],
        goals: vec![],
    };
    let result = normalize(m);
    assert!(result.is_err());
    match result.unwrap_err() {
        LangError::VersionMismatch { expected, got } => {
            assert_eq!(expected, "0.1");
            assert_eq!(got, "0.2");
        }
        e => panic!("unexpected error: {:?}", e),
    }
}

#[test]
fn normalize_sorts_capabilities() {
    let src = r#"version 0.1;
capability zzz: zzz(String) -> String;
capability aaa: aaa(String) -> String;
intrinsic assemble_json: assemble_json(List<String>) -> Json;
goal G(x: String) -> Json { want { return assemble_json(collected); } }
"#;
    let m = parse(src).unwrap();
    let n = normalize(m).unwrap();
    assert_eq!(n.capabilities[0].alias, "aaa");
    assert_eq!(n.capabilities[1].alias, "zzz");
}

#[test]
fn normalize_sorts_types() {
    let src = r#"version 0.1;
type Zzz = String;
type Aaa = String;
intrinsic assemble_json: assemble_json(List<String>) -> Json;
goal G(x: String) -> Json { want { return assemble_json(collected); } }
"#;
    let m = parse(src).unwrap();
    let n = normalize(m).unwrap();
    assert_eq!(n.types[0].name, "Aaa");
    assert_eq!(n.types[1].name, "Zzz");
}

#[test]
fn normalize_signature_strips_whitespace() {
    assert_eq!(normalize_signature("fetch( Url ) -> Html"), "fetch(Url)->Html");
    assert_eq!(normalize_signature("fetch(Url)->Html"), "fetch(Url)->Html");
    assert_eq!(normalize_signature("assemble_json(List<String>) -> Json"), "assemble_json(List<String>)->Json");
}

#[test]
fn ast_hash_is_stable() {
    let m1 = parse(source()).unwrap();
    let n1 = normalize(m1).unwrap();

    let m2 = parse(source()).unwrap();
    let n2 = normalize(m2).unwrap();

    assert_eq!(ast_hash(&n1), ast_hash(&n2));
}

#[test]
fn ast_hash_whitespace_variants_equal() {
    let src_a = source();
    // Add extra whitespace/blank lines.
    let src_b = source().replace("\n", "\n\n");
    let src_b = src_b.replace("  ", "    ");

    let ma = parse(src_a).unwrap();
    let na = normalize(ma).unwrap();

    let mb = parse(&src_b).unwrap();
    let nb = normalize(mb).unwrap();

    // The normalized ASTs should be identical (and hence have the same hash).
    assert_eq!(ast_hash(&na), ast_hash(&nb));
}

#[test]
fn duplicate_capability_error() {
    let src = r#"version 0.1;
capability fetch: fetch(String) -> String;
capability fetch: fetch(String) -> String;
intrinsic assemble_json: assemble_json(List<String>) -> Json;
goal G(x: String) -> Json { want { return assemble_json(collected); } }
"#;
    let m = parse(src).unwrap();
    let result = normalize(m);
    assert!(result.is_err());
    match result.unwrap_err() {
        LangError::DuplicateDeclaration(s) => {
            assert!(s.contains("fetch"), "got: {s}");
        }
        e => panic!("unexpected error: {:?}", e),
    }
}

#[test]
fn normalize_sorts_intrinsics_and_strips_signatures() {
    let src = r#"version 0.1;
intrinsic zeta: zeta( String ) -> String;
intrinsic alpha: alpha( String ) ->  String;
goal G(x: String) -> Json { want { return alpha(x); } }
"#;
    let n = normalize(parse(src).unwrap()).unwrap();
    assert_eq!(n.intrinsics[0].alias, "alpha");
    assert_eq!(n.intrinsics[0].signature, "alpha(String)->String");
    assert_eq!(n.intrinsics[1].alias, "zeta");
}

#[test]
fn normalize_rejects_duplicate_type() {
    let src = "version 0.1;\ntype A = String;\ntype A = String;\ngoal G(x: String) -> Json { want { return f(x); } }\n";
    match normalize(parse(src).unwrap()) {
        Err(LangError::DuplicateDeclaration(s)) => assert_eq!(s, "type::A"),
        other => panic!("expected DuplicateDeclaration, got {:?}", other),
    }
}

#[test]
fn normalize_rejects_bad_import_hash() {
    let src = "version 0.1;\nimport Sub: \"md5:abc\";\ngoal G(x: String) -> Json { want { return Sub(x); } }\n";
    match normalize(parse(src).unwrap()) {
        Err(LangError::InvalidImportHash { name, hash }) => {
            assert_eq!(name, "Sub");
            assert_eq!(hash, "md5:abc");
        }
        other => panic!("expected InvalidImportHash, got {:?}", other),
    }
}

#[test]
fn normalize_is_idempotent_on_example() {
    let once = normalize(parse(source()).unwrap()).unwrap();
    let h1 = ast_hash(&once);
    let twice = normalize(once).unwrap();
    assert_eq!(ast_hash(&twice), h1);
}

#[test]
fn upper_case_import_hash_is_rejected() {
    let hash = format!("sha256:{}", "A".repeat(64));
    let src = format!(
        "version 0.1;\nimport Foo: \"{hash}\";\nintrinsic assemble_json: assemble_json(List<String>) -> Json;\ngoal G(x: String) -> Json {{ want {{ return assemble_json(collected); }} }}\n"
    );
    match normalize(parse(&src).unwrap()) {
        Err(LangError::InvalidImportHash { name, hash: h }) => {
            assert_eq!(name, "Foo");
            assert_eq!(h, hash);
        }
        _ => panic!("expected InvalidImportHash"),
    }
    let lower_hash = format!("sha256:{}", "a".repeat(64));
    let ok_src = src.replace(&hash, &lower_hash);
    assert!(normalize(parse(&ok_src).unwrap()).is_ok());
}
