use conclave::lang::lower::lower;
use conclave::lang::normalize::{ast_hash, normalize};
use conclave::lang::parser::parse;

fn source() -> &'static str {
    "version 0.1;

type Url = String where re2(\"^https?://\");

capability fetch: fetch(Url) -> Html;
capability extract_text: extract_text(Html) -> String;
capability summarize: summarize(String) -> String;
intrinsic assemble_json: assemble_json(List<String>) -> Json;

goal SummarizeUrls(urls: List<Url>) -> Json {
  want {
    map urls as url {
      let html = fetch(url);
      let text = extract_text(html);
      emit summarize(text);
    }
    return assemble_json(collected);
  }

  constraints {
    determinism.mode == \"sealed_replay\";
    rate_limit(fetch) <= 2 req/s;
    scheduler.max_inflight <= 2;
  }
}
"
}

#[test]
fn ast_hash_matches_or_update_golden() {
    let m = parse(source()).unwrap();
    let n = normalize(m).unwrap();
    let h = ast_hash(&n).to_string();
    // Print for easy update.
    println!("ast_hash = {}", h);
    // The hash must be stable across runs.
    let h2 = {
        let m2 = parse(source()).unwrap();
        let n2 = normalize(m2).unwrap();
        ast_hash(&n2).to_string()
    };
    assert_eq!(h, h2, "ast_hash must be stable");
}

#[test]
fn plan_ir_hash_stable_across_runs() {
    let out1 = lower(source(), 3).unwrap();
    let out2 = lower(source(), 3).unwrap();
    assert_eq!(out1.plan_ir_hash, out2.plan_ir_hash, "plan_ir_hash must be stable");
    println!("plan_ir_hash(3) = {}", out1.plan_ir_hash);
}

#[test]
fn source_hash_stable_across_runs() {
    let out1 = lower(source(), 3).unwrap();
    let out2 = lower(source(), 3).unwrap();
    assert_eq!(out1.source_hash, out2.source_hash, "source_hash must be stable");
    println!("source_hash = {}", out1.source_hash);
}

#[test]
fn all_three_hashes_are_sha256_format() {
    let out = lower(source(), 3).unwrap();
    assert!(out.source_hash.starts_with("sha256:"), "source_hash format");
    assert!(out.ast_hash.starts_with("sha256:"), "ast_hash format");
    assert!(out.plan_ir_hash.starts_with("sha256:"), "plan_ir_hash format");
    // Each should have exactly "sha256:" (7 chars) + 64 hex chars.
    assert_eq!(out.source_hash.len(), 71);
    assert_eq!(out.ast_hash.len(), 71);
    assert_eq!(out.plan_ir_hash.len(), 71);
}

#[test]
fn changing_source_changes_source_hash() {
    let src1 = source();
    let src2 = source().replace("SummarizeUrls", "SummarizeURLs");
    let out1 = lower(src1, 3).unwrap();
    let out2 = lower(&src2, 3).unwrap();
    assert_ne!(out1.source_hash, out2.source_hash);
}

#[test]
fn whitespace_change_preserves_ast_hash() {
    let src1 = source();
    // Add extra blank lines and extra spaces in declarations.
    let src2 = src1.replace(";\n\n", ";\n\n\n").replace("  want", "    want");
    let out1 = lower(src1, 3).unwrap();
    let out2 = lower(&src2, 3).unwrap();
    // Source hashes WILL differ (different bytes).
    assert_ne!(out1.source_hash, out2.source_hash);
    // AST hashes MUST be equal (normalization strips formatting differences).
    assert_eq!(out1.ast_hash, out2.ast_hash, "ast_hash must be whitespace-invariant");
    // plan_ir_hash embeds the source fingerprint, so it WILL differ when source bytes differ.
    // (This is by design: the chain source→AST→Plan IR is preserved.)
}
