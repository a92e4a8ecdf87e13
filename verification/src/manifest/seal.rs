//! The seal rules a manifest must meet, together with its Plan IR, before an
//! artifact is produced.
use vstd::prelude::*;
use crate::hash::is_hash_text;
use crate::ir::{NodeKind, NodeV, PlanIr, PlanIrV};
use crate::ir::canonical::obj_lookup;
use crate::json::{JsonValue, SJson, lemma_view_members, view_members};
use crate::manifest::{CapabilityBinding, Manifest};
use crate::text::{chars_of, push_str, seq_lt, str_eq};

verus! {

/// The seal rule that a manifest breaks.
#[derive(Debug, Clone, PartialEq, Eq)]
pub enum SealError {
    MissingPlanIrHash,
    MissingCapabilityBinding(String),
    FloatingCapabilityReference(String),
    UnpinnedToolchain,
    ClockNotVirtual,
    NetworkCapabilityNotReplay(String),
    PlanIrHashMismatch { manifest: String, computed: String },
    SignatureRequiredButNoKeys(String),
    MissingModuleBinding(String),
    ModuleBindingHashMismatch { import_name: String, plan_ir_hash: String, manifest_hash: String },
}

/// The model of a seal error.
pub enum SealErrorV {
    MissingPlanIrHash,
    MissingCapabilityBinding(Seq<char>),
    FloatingCapabilityReference(Seq<char>),
    UnpinnedToolchain,
    ClockNotVirtual,
    NetworkCapabilityNotReplay(Seq<char>),
    PlanIrHashMismatch { manifest: Seq<char>, computed: Seq<char> },
    SignatureRequiredButNoKeys(Seq<char>),
    MissingModuleBinding(Seq<char>),
    ModuleBindingHashMismatch { import_name: Seq<char>, plan_ir_hash: Seq<char>, manifest_hash: Seq<char> },
}

impl View for SealError {
    type V = SealErrorV;

    open spec fn view(&self) -> SealErrorV {
        match self {
            SealError::MissingPlanIrHash => SealErrorV::MissingPlanIrHash,
            SealError::MissingCapabilityBinding(s) => SealErrorV::MissingCapabilityBinding(s@),
            SealError::FloatingCapabilityReference(s) => SealErrorV::FloatingCapabilityReference(s@),
            SealError::UnpinnedToolchain => SealErrorV::UnpinnedToolchain,
            SealError::ClockNotVirtual => SealErrorV::ClockNotVirtual,
            SealError::NetworkCapabilityNotReplay(s) => SealErrorV::NetworkCapabilityNotReplay(s@),
            SealError::PlanIrHashMismatch { manifest, computed } =>
                SealErrorV::PlanIrHashMismatch { manifest: manifest@, computed: computed@ },
            SealError::SignatureRequiredButNoKeys(s) => SealErrorV::SignatureRequiredButNoKeys(s@),
            SealError::MissingModuleBinding(s) => SealErrorV::MissingModuleBinding(s@),
            SealError::ModuleBindingHashMismatch { import_name, plan_ir_hash, manifest_hash } =>
                SealErrorV::ModuleBindingHashMismatch {
                    import_name: import_name@,
                    plan_ir_hash: plan_ir_hash@,
                    manifest_hash: manifest_hash@,
                },
        }
    }
}

// ---------------------------------------------------------------------------
// The rules
// ---------------------------------------------------------------------------

/// Whether some pair has the key.
pub open spec fn has_key<V>(m: Seq<(String, V)>, k: Seq<char>) -> bool {
    exists|i: int| 0 <= i < m.len() && #[trigger] m[i].0@ == k
}

/// Whether `t` occurs in `s`.
pub open spec fn contains_text(s: Seq<char>, t: Seq<char>) -> bool {
    exists|i: int| 0 <= i && i + t.len() <= s.len() && #[trigger] s.subrange(i, i + t.len()) == t
}

/// The first capability call at or after `i` whose signature has no binding.
pub open spec fn first_unbound(nodes: Seq<NodeV>, bs: Seq<(String, CapabilityBinding)>, i: int) -> Option<int>
    decreases nodes.len() - i,
{
    if i < 0 || i >= nodes.len() {
        None
    } else if nodes[i].kind == NodeKind::CapabilityCall && !has_key(bs, nodes[i].op_signature) {
        Some(i)
    } else {
        first_unbound(nodes, bs, i + 1)
    }
}

/// The first binding at or after `i` whose artifact hash is not pinned.
pub open spec fn first_floating(bs: Seq<(String, CapabilityBinding)>, i: int) -> Option<int>
    decreases bs.len() - i,
{
    if i < 0 || i >= bs.len() {
        None
    } else if !is_hash_text(bs[i].1.artifact_hash@) {
        Some(i)
    } else {
        first_floating(bs, i + 1)
    }
}

/// The `fetch_mode` string of a binding's configuration, or the empty string.
pub open spec fn fetch_mode(b: CapabilityBinding) -> Seq<char> {
    match b.config {
        Some(c) => match obj_lookup(view_members(c@), "fetch_mode"@) {
            Some(SJson::Str(x)) => x,
            _ => Seq::empty(),
        },
        None => Seq::empty(),
    }
}

/// Whether a binding has network trust without replay-only fetching.
pub open spec fn live_network(b: CapabilityBinding) -> bool {
    contains_text(b.trust@, "network"@) && fetch_mode(b) != "replay"@
}

/// The first binding at or after `i` with network trust that is not replay-only.
pub open spec fn first_not_replay(bs: Seq<(String, CapabilityBinding)>, i: int) -> Option<int>
    decreases bs.len() - i,
{
    if i < 0 || i >= bs.len() {
        None
    } else if live_network(bs[i].1) {
        Some(i)
    } else {
        first_not_replay(bs, i + 1)
    }
}

/// Whether a binding requires signatures but accepts no key.
pub open spec fn keyless(b: CapabilityBinding) -> bool {
    b.signatures matches Some(g) && g.required && g.accepted_keys@.len() == 0
}

/// The first binding at or after `i` that requires signatures but accepts no key.
pub open spec fn first_keyless(bs: Seq<(String, CapabilityBinding)>, i: int) -> Option<int>
    decreases bs.len() - i,
{
    if i < 0 || i >= bs.len() {
        None
    } else if keyless(bs[i].1) {
        Some(i)
    } else {
        first_keyless(bs, i + 1)
    }
}

/// The hash bound to an import name, from the first pair with that name.
pub open spec fn module_binding(mb: Seq<(String, String)>, name: Seq<char>, i: int) -> Option<Seq<char>>
    decreases mb.len() - i,
{
    if i < 0 || i >= mb.len() {
        None
    } else if mb[i].0@ == name {
        Some(mb[i].1@)
    } else {
        module_binding(mb, name, i + 1)
    }
}

/// The first import at or after `i` whose module binding is missing or differs.
pub open spec fn first_bad_module(imports: Seq<(Seq<char>, Seq<char>)>, mb: Seq<(String, String)>, i: int) -> Option<int>
    decreases imports.len() - i,
{
    if i < 0 || i >= imports.len() {
        None
    } else if module_binding(mb, imports[i].0, 0) != Some(imports[i].1) {
        Some(i)
    } else {
        first_bad_module(imports, mb, i + 1)
    }
}

/// The seal rules, checked in order; the first broken rule is the error:
/// 1. `program.plan_ir_hash` is a `sha256:` hash;
/// 2. every capability call of the Plan IR has a binding for its signature;
/// 3. every binding pins its artifact by a `sha256:` hash;
/// 4. the lowerer and runtime hashes are pinned;
/// 5. the clock is `virtual`;
/// 6. in `sealed_replay` mode every binding with network trust fetches by replay;
/// 7. a binding that requires signatures accepts at least one key;
/// 8. every import of the Plan IR has a module binding to the same hash.
pub open spec fn seal_check(m: Manifest, ir: PlanIrV) -> Result<(), SealErrorV> {
    if !is_hash_text(m.program.plan_ir_hash@) {
        Err(SealErrorV::MissingPlanIrHash)
    } else {
        match first_unbound(ir.nodes, m.capability_bindings@, 0) {
            Some(i) => Err(SealErrorV::MissingCapabilityBinding(ir.nodes[i].op_signature)),
            None => match first_floating(m.capability_bindings@, 0) {
                Some(i) => Err(SealErrorV::FloatingCapabilityReference(m.capability_bindings@[i].0@)),
                None => seal_check_rest(m, ir),
            },
        }
    }
}

/// Rules 4 to 8 of `seal_check`.
pub open spec fn seal_check_rest(m: Manifest, ir: PlanIrV) -> Result<(), SealErrorV> {
    let bs = m.capability_bindings@;
    if !is_hash_text(m.toolchain.lowerer_hash@) || !is_hash_text(m.toolchain.runtime_hash@) {
        Err(SealErrorV::UnpinnedToolchain)
    } else if m.determinism.clock@ != "virtual"@ {
        Err(SealErrorV::ClockNotVirtual)
    } else if m.determinism.mode@ == "sealed_replay"@ && first_not_replay(bs, 0) is Some {
        Err(SealErrorV::NetworkCapabilityNotReplay(bs[first_not_replay(bs, 0)->0].0@))
    } else {
        match first_keyless(bs, 0) {
            Some(i) => Err(SealErrorV::SignatureRequiredButNoKeys(bs[i].0@)),
            None => match first_bad_module(ir.imports, m.module_bindings@, 0) {
                Some(i) => match module_binding(m.module_bindings@, ir.imports[i].0, 0) {
                    None => Err(SealErrorV::MissingModuleBinding(ir.imports[i].0)),
                    Some(h) => Err(SealErrorV::ModuleBindingHashMismatch {
                        import_name: ir.imports[i].0,
                        plan_ir_hash: ir.imports[i].1,
                        manifest_hash: h,
                    }),
                },
                None => Ok(()),
            },
        }
    }
}

/// All eight seal rules hold.
pub open spec fn seal_rules_hold(m: Manifest, ir: PlanIrV) -> bool {
    let bs = m.capability_bindings@;
    &&& is_hash_text(m.program.plan_ir_hash@)
    &&& forall|i: int| 0 <= i < ir.nodes.len() && #[trigger] ir.nodes[i].kind == NodeKind::CapabilityCall
        ==> has_key(bs, ir.nodes[i].op_signature)
    &&& forall|i: int| 0 <= i < bs.len() ==> is_hash_text(#[trigger] bs[i].1.artifact_hash@)
    &&& is_hash_text(m.toolchain.lowerer_hash@)
    &&& is_hash_text(m.toolchain.runtime_hash@)
    &&& m.determinism.clock@ == "virtual"@
    &&& m.determinism.mode@ == "sealed_replay"@ ==> forall|i: int| 0 <= i < bs.len() ==> !live_network(#[trigger] bs[i].1)
    &&& forall|i: int| 0 <= i < bs.len() ==> !keyless(#[trigger] bs[i].1)
    &&& forall|i: int| 0 <= i < ir.imports.len()
        ==> module_binding(m.module_bindings@, #[trigger] ir.imports[i].0, 0) == Some(ir.imports[i].1)
}

proof fn lemma_first_unbound_none(nodes: Seq<NodeV>, bs: Seq<(String, CapabilityBinding)>, i: int)
    requires
        0 <= i <= nodes.len(),
    ensures
        first_unbound(nodes, bs, i) is None <==> forall|j: int| i <= j < nodes.len() && #[trigger] nodes[j].kind == NodeKind::CapabilityCall
            ==> has_key(bs, nodes[j].op_signature),
    decreases nodes.len() - i,
{
    if i < nodes.len() {
        lemma_first_unbound_none(nodes, bs, i + 1);
    }
}

proof fn lemma_first_floating_none(bs: Seq<(String, CapabilityBinding)>, i: int)
    requires
        0 <= i <= bs.len(),
    ensures
        first_floating(bs, i) is None <==> forall|j: int| i <= j < bs.len() ==> is_hash_text(#[trigger] bs[j].1.artifact_hash@),
    decreases bs.len() - i,
{
    if i < bs.len() {
        lemma_first_floating_none(bs, i + 1);
    }
}

proof fn lemma_first_not_replay_none(bs: Seq<(String, CapabilityBinding)>, i: int)
    requires
        0 <= i <= bs.len(),
    ensures
        first_not_replay(bs, i) is None <==> forall|j: int| i <= j < bs.len() ==> !live_network(#[trigger] bs[j].1),
    decreases bs.len() - i,
{
    if i < bs.len() {
        lemma_first_not_replay_none(bs, i + 1);
    }
}

proof fn lemma_first_keyless_none(bs: Seq<(String, CapabilityBinding)>, i: int)
    requires
        0 <= i <= bs.len(),
    ensures
        first_keyless(bs, i) is None <==> forall|j: int| i <= j < bs.len() ==> !keyless(#[trigger] bs[j].1),
    decreases bs.len() - i,
{
    if i < bs.len() {
        lemma_first_keyless_none(bs, i + 1);
    }
}

proof fn lemma_first_bad_module_none(imports: Seq<(Seq<char>, Seq<char>)>, mb: Seq<(String, String)>, i: int)
    requires
        0 <= i <= imports.len(),
    ensures
        first_bad_module(imports, mb, i) is None <==> forall|j: int| i <= j < imports.len()
            ==> module_binding(mb, #[trigger] imports[j].0, 0) == Some(imports[j].1),
    decreases imports.len() - i,
{
    if i < imports.len() {
        lemma_first_bad_module_none(imports, mb, i + 1);
    }
}

/// The seal passes exactly when all eight rules hold; otherwise the error is
/// that of the first broken rule (`seal_check`).
pub proof fn lemma_seal_passes_iff_rules_hold(m: Manifest, ir: PlanIrV)
    ensures
        seal_check(m, ir) is Ok <==> seal_rules_hold(m, ir),
{
    let bs = m.capability_bindings@;
    lemma_first_unbound_none(ir.nodes, bs, 0);
    lemma_first_floating_none(bs, 0);
    lemma_first_not_replay_none(bs, 0);
    lemma_first_keyless_none(bs, 0);
    lemma_first_bad_module_none(ir.imports, m.module_bindings@, 0);
}

// ---------------------------------------------------------------------------
// Checking them
// ---------------------------------------------------------------------------

fn is_pinned(s: &str) -> (r: bool)
    ensures
        r == is_hash_text(s@),
{
    crate::hash::Hash::parse(s).is_ok()
}

fn has_binding(bs: &Vec<(String, CapabilityBinding)>, k: &str) -> (r: bool)
    ensures
        r == has_key(bs@, k@),
{
    let mut i: usize = 0;
    while i < bs.len()
        invariant
            i <= bs@.len(),
            forall|j: int| 0 <= j < i ==> #[trigger] bs@[j].0@ != k@,
        decreases bs@.len() - i,
    {
        if str_eq(bs[i].0.as_str(), k) {
            return true;
        }
        i += 1;
    }
    false
}

fn matches_at(sc: &Vec<char>, tc: &Vec<char>, i: usize) -> (r: bool)
    requires
        i + tc@.len() <= sc@.len(),
    ensures
        r == (sc@.subrange(i as int, i + tc@.len()) == tc@),
{
    let mut k: usize = 0;
    while k < tc.len()
        invariant
            k <= tc@.len(),
            i + tc@.len() <= sc@.len(),
            sc@.len() == sc.len(),
            forall|m: int| 0 <= m < k ==> sc@[i + m] == tc@[m],
        decreases tc@.len() - k,
    {
        if sc[i + k] != tc[k] {
            assert(sc@.subrange(i as int, i + tc@.len())[k as int] != tc@[k as int]);
            return false;
        }
        k += 1;
    }
    assert(sc@.subrange(i as int, i + tc@.len()) =~= tc@);
    true
}

/// Whether `t` occurs in `s`.
fn contains_str(s: &str, t: &str) -> (r: bool)
    ensures
        r == contains_text(s@, t@),
{
    let sc = chars_of(s);
    let tc = chars_of(t);
    if tc.len() > sc.len() {
        return false;
    }
    let lim = sc.len() - tc.len();
    let mut i: usize = 0;
    loop
        invariant
            tc@.len() <= sc@.len(),
            lim == sc@.len() - tc@.len(),
            i <= lim,
            sc@ == s@,
            tc@ == t@,
            forall|j: int| 0 <= j < i ==> #[trigger] s@.subrange(j, j + t@.len()) != t@,
        decreases lim - i,
    {
        if matches_at(&sc, &tc, i) {
            return true;
        }
        if i == lim {
            assert forall|j: int| 0 <= j && j + t@.len() <= s@.len() implies #[trigger] s@.subrange(j, j + t@.len()) != t@ by {
                assert(j <= i);
            }
            return false;
        }
        i += 1;
    }
}

fn is_replay_only(b: &CapabilityBinding) -> (r: bool)
    ensures
        r == (fetch_mode(*b) == "replay"@),
{
    proof {
        reveal_strlit("replay");
    }
    match &b.config {
        None => {
            assert(Seq::<char>::empty() != "replay"@) by {
                assert("replay"@.len() == 6);
            }
            false
        },
        Some(c) => {
            let ghost vm = view_members(c@);
            proof {
                lemma_view_members(c@);
            }
            let mut i: usize = c.len();
            assert(vm.take(i as int) =~= vm);
            while i > 0
                invariant
                    i <= c@.len(),
                    vm == view_members(c@),
                    vm.len() == c@.len(),
                    forall|j: int| 0 <= j < c@.len() ==> #[trigger] vm[j] == (c@[j].0@, c@[j].1@),
                    obj_lookup(vm, "fetch_mode"@) == obj_lookup(vm.take(i as int), "fetch_mode"@),
                fetch_mode(*b) == match obj_lookup(vm, "fetch_mode"@) {
                    Some(SJson::Str(x)) => x,
                    _ => Seq::<char>::empty(),
                },
                decreases i,
            {
                assert(vm.take(i as int).drop_last() =~= vm.take(i - 1));
                assert(vm.take(i as int).last() == vm[i - 1]);
                if str_eq(c[i - 1].0.as_str(), "fetch_mode") {
                    return match &c[i - 1].1 {
                        JsonValue::Str(x) => str_eq(x.as_str(), "replay"),
                        _ => {
                            assert(Seq::<char>::empty() != "replay"@) by {
                                reveal_strlit("replay");
                                assert("replay"@.len() == 6);
                            }
                            false
                        },
                    };
                }
                i -= 1;
            }
            assert(Seq::<char>::empty() != "replay"@) by {
                assert("replay"@.len() == 6);
            }
            false
        },
    }
}

fn lookup_module_binding<'a>(mb: &'a Vec<(String, String)>, name: &str) -> (r: Option<&'a String>)
    ensures
        match module_binding(mb@, name@, 0) {
            Some(h) => r matches Some(x) && x@ == h,
            None => r is None,
        },
{
    let mut i: usize = 0;
    while i < mb.len()
        invariant
            i <= mb@.len(),
            module_binding(mb@, name@, 0) == module_binding(mb@, name@, i as int),
        decreases mb@.len() - i,
    {
        if str_eq(mb[i].0.as_str(), name) {
            return Some(&mb[i].1);
        }
        i += 1;
    }
    None
}

fn first_unbound_exec(nodes: &Vec<crate::ir::Node>, bs: &Vec<(String, CapabilityBinding)>) -> (r: Option<usize>)
    ensures
        match first_unbound(nodes@.map_values(|n: crate::ir::Node| n@), bs@, 0) {
            Some(i) => r matches Some(k) && k == i,
            None => r is None,
        },
        r matches Some(k) ==> k < nodes@.len(),
{
    let ghost nv = nodes@.map_values(|n: crate::ir::Node| n@);
    let mut i: usize = 0;
    while i < nodes.len()
        invariant
            i <= nodes@.len(),
            nv == nodes@.map_values(|n: crate::ir::Node| n@),
            nv.len() == nodes@.len(),
            first_unbound(nv, bs@, 0) == first_unbound(nv, bs@, i as int),
        decreases nodes@.len() - i,
    {
        let n = &nodes[i];
        assert(nv[i as int] == n@);
        if n.kind == NodeKind::CapabilityCall && !has_binding(bs, n.op.signature.as_str()) {
            return Some(i);
        }
        i += 1;
    }
    None
}

fn first_floating_exec(bs: &Vec<(String, CapabilityBinding)>) -> (r: Option<usize>)
    ensures
        match first_floating(bs@, 0) {
            Some(i) => r matches Some(k) && k == i,
            None => r is None,
        },
        r matches Some(k) ==> k < bs@.len(),
{
    let mut i: usize = 0;
    while i < bs.len()
        invariant
            i <= bs@.len(),
            first_floating(bs@, 0) == first_floating(bs@, i as int),
        decreases bs@.len() - i,
    {
        if !is_pinned(bs[i].1.artifact_hash.as_str()) {
            return Some(i);
        }
        i += 1;
    }
    None
}

fn first_not_replay_exec(bs: &Vec<(String, CapabilityBinding)>) -> (r: Option<usize>)
    ensures
        match first_not_replay(bs@, 0) {
            Some(i) => r matches Some(k) && k == i,
            None => r is None,
        },
        r matches Some(k) ==> k < bs@.len(),
{
    let mut i: usize = 0;
    while i < bs.len()
        invariant
            i <= bs@.len(),
            first_not_replay(bs@, 0) == first_not_replay(bs@, i as int),
        decreases bs@.len() - i,
    {
        if contains_str(bs[i].1.trust.as_str(), "network") && !is_replay_only(&bs[i].1) {
            return Some(i);
        }
        i += 1;
    }
    None
}

fn first_keyless_exec(bs: &Vec<(String, CapabilityBinding)>) -> (r: Option<usize>)
    ensures
        match first_keyless(bs@, 0) {
            Some(i) => r matches Some(k) && k == i,
            None => r is None,
        },
        r matches Some(k) ==> k < bs@.len(),
{
    let mut i: usize = 0;
    while i < bs.len()
        invariant
            i <= bs@.len(),
            first_keyless(bs@, 0) == first_keyless(bs@, i as int),
        decreases bs@.len() - i,
    {
        match &bs[i].1.signatures {
            Some(g) => {
                if g.required && g.accepted_keys.len() == 0 {
                    return Some(i);
                }
            },
            None => {},
        }
        i += 1;
    }
    None
}

fn first_bad_module_exec(imports: &Vec<(String, String)>, mb: &Vec<(String, String)>) -> (r: Option<usize>)
    ensures
        match first_bad_module(crate::ir::pairs_view(imports@), mb@, 0) {
            Some(i) => r matches Some(k) && k == i,
            None => r is None,
        },
        r matches Some(k) ==> k < imports@.len(),
{
    let ghost iv = crate::ir::pairs_view(imports@);
    let mut i: usize = 0;
    while i < imports.len()
        invariant
            i <= imports@.len(),
            iv == crate::ir::pairs_view(imports@),
            iv.len() == imports@.len(),
            first_bad_module(iv, mb@, 0) == first_bad_module(iv, mb@, i as int),
        decreases imports@.len() - i,
    {
        assert(iv[i as int] == (imports@[i as int].0@, imports@[i as int].1@));
        match lookup_module_binding(mb, imports[i].0.as_str()) {
            None => {
                return Some(i);
            },
            Some(h) => {
                if !str_eq(h.as_str(), imports[i].1.as_str()) {
                    return Some(i);
                }
            },
        }
        i += 1;
    }
    None
}

/// The bindings are a map from signature to binding: their keys strictly
/// increase, so no signature is bound twice and the list runs in key order.
pub open spec fn bindings_in_key_order(bs: Seq<(String, CapabilityBinding)>) -> bool {
    forall|i: int, j: int| 0 <= i < j < bs.len() ==> seq_lt(#[trigger] bs[i].0@, #[trigger] bs[j].0@)
}

/// Checks the seal rules of a manifest against its Plan IR; the first broken
/// rule, in the order that `seal_check` gives, is the error.  Within a rule the
/// bindings are checked in key order, which is the list's order.
pub fn validate_seal(manifest: &Manifest, plan_ir: &PlanIr) -> (r: Result<(), SealError>)
    requires
        bindings_in_key_order(manifest.capability_bindings@),
    ensures
        match seal_check(*manifest, plan_ir@) {
            Ok(()) => r is Ok,
            Err(e) => r matches Err(x) && x@ == e,
        },
{
    let bs = &manifest.capability_bindings;
    if !is_pinned(manifest.program.plan_ir_hash.as_str()) {
        return Err(SealError::MissingPlanIrHash);
    }
    assert(is_hash_text(manifest.program.plan_ir_hash@));
    match first_unbound_exec(&plan_ir.nodes, bs) {
        Some(i) => {
            assert(plan_ir@.nodes[i as int] == plan_ir.nodes@[i as int]@);
            return Err(SealError::MissingCapabilityBinding(plan_ir.nodes[i].op.signature.clone()));
        },
        None => {},
    }
    assert(first_unbound(plan_ir@.nodes, bs@, 0) is None);
    match first_floating_exec(bs) {
        Some(i) => {
            return Err(SealError::FloatingCapabilityReference(bs[i].0.clone()));
        },
        None => {},
    }
    assert(first_floating(bs@, 0) is None);
    if !is_pinned(manifest.toolchain.lowerer_hash.as_str()) || !is_pinned(manifest.toolchain.runtime_hash.as_str()) {
        return Err(SealError::UnpinnedToolchain);
    }
    if !str_eq(manifest.determinism.clock.as_str(), "virtual") {
        return Err(SealError::ClockNotVirtual);
    }
    if str_eq(manifest.determinism.mode.as_str(), "sealed_replay") {
        match first_not_replay_exec(bs) {
            Some(i) => {
                return Err(SealError::NetworkCapabilityNotReplay(bs[i].0.clone()));
            },
            None => {},
        }
    }
    match first_keyless_exec(bs) {
        Some(i) => {
            return Err(SealError::SignatureRequiredButNoKeys(bs[i].0.clone()));
        },
        None => {},
    }
    match first_bad_module_exec(&plan_ir.imports, &manifest.module_bindings) {
        Some(i) => {
            let name = &plan_ir.imports[i].0;
            return match lookup_module_binding(&manifest.module_bindings, name.as_str()) {
                None => Err(SealError::MissingModuleBinding(name.clone())),
                Some(h) => Err(SealError::ModuleBindingHashMismatch {
                    import_name: name.clone(),
                    plan_ir_hash: plan_ir.imports[i].1.clone(),
                    manifest_hash: h.clone(),
                }),
            };
        },
        None => {},
    }
    Ok(())
}

/// The message of a SealError value.
pub open spec fn seal_message(e: SealErrorV) -> Seq<char> {
    match e {
        SealErrorV::MissingPlanIrHash => "program.plan_ir_hash is missing or not a valid sha256 hash"@,
        SealErrorV::MissingCapabilityBinding(x) => "capability '"@ + x + "' referenced in Plan IR has no binding in manifest"@,
        SealErrorV::FloatingCapabilityReference(x) => "capability '"@ + x + "' has no pinned artifact_hash (floating reference)"@,
        SealErrorV::UnpinnedToolchain => "toolchain.lowerer_hash and/or runtime_hash are not pinned"@,
        SealErrorV::ClockNotVirtual => "determinism.clock must be \"virtual\""@,
        SealErrorV::NetworkCapabilityNotReplay(x) => "network capability '"@ + x + "' must be configured as replay-only in sealed_replay mode"@,
        SealErrorV::PlanIrHashMismatch { manifest, computed } => "plan_ir_hash mismatch: manifest has "@ + manifest + ", computed "@ + computed,
        SealErrorV::SignatureRequiredButNoKeys(x) => "capability '"@ + x + "' requires signatures but accepts no keys"@,
        SealErrorV::MissingModuleBinding(x) => "import '"@ + x + "' has no module binding in manifest"@,
        SealErrorV::ModuleBindingHashMismatch { import_name, plan_ir_hash, manifest_hash } => "module binding for import '"@ + import_name + "' is "@ + manifest_hash + ", but the Plan IR imports "@ + plan_ir_hash,
    }
}

impl SealError {
    /// The message of the error.
    pub fn to_string(&self) -> (s: String)
        ensures
            s@ == seal_message(self@),
    {
        match self {
            SealError::MissingPlanIrHash => {
                let mut s = String::from_str("program.plan_ir_hash is missing or not a valid sha256 hash");
                s
            },
            SealError::MissingCapabilityBinding(x) => {
                let mut s = String::from_str("capability '");
                push_str(&mut s, x.as_str());
                push_str(&mut s, "' referenced in Plan IR has no binding in manifest");
                s
            },
            SealError::FloatingCapabilityReference(x) => {
                let mut s = String::from_str("capability '");
                push_str(&mut s, x.as_str());
                push_str(&mut s, "' has no pinned artifact_hash (floating reference)");
                s
            },
            SealError::UnpinnedToolchain => {
                let mut s = String::from_str("toolchain.lowerer_hash and/or runtime_hash are not pinned");
                s
            },
            SealError::ClockNotVirtual => {
                let mut s = String::from_str("determinism.clock must be \"virtual\"");
                s
            },
            SealError::NetworkCapabilityNotReplay(x) => {
                let mut s = String::from_str("network capability '");
                push_str(&mut s, x.as_str());
                push_str(&mut s, "' must be configured as replay-only in sealed_replay mode");
                s
            },
            SealError::PlanIrHashMismatch { manifest, computed } => {
                let mut s = String::from_str("plan_ir_hash mismatch: manifest has ");
                push_str(&mut s, manifest.as_str());
                push_str(&mut s, ", computed ");
                push_str(&mut s, computed.as_str());
                s
            },
            SealError::SignatureRequiredButNoKeys(x) => {
                let mut s = String::from_str("capability '");
                push_str(&mut s, x.as_str());
                push_str(&mut s, "' requires signatures but accepts no keys");
                s
            },
            SealError::MissingModuleBinding(x) => {
                let mut s = String::from_str("import '");
                push_str(&mut s, x.as_str());
                push_str(&mut s, "' has no module binding in manifest");
                s
            },
            SealError::ModuleBindingHashMismatch { import_name, plan_ir_hash, manifest_hash } => {
                let mut s = String::from_str("module binding for import '");
                push_str(&mut s, import_name.as_str());
                push_str(&mut s, "' is ");
                push_str(&mut s, manifest_hash.as_str());
                push_str(&mut s, ", but the Plan IR imports ");
                push_str(&mut s, plan_ir_hash.as_str());
                s
            },
        }
    }
}

} // verus!
