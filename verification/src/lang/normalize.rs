//! Normalization of a parsed module: version check, import hash check,
//! whitespace-free signatures, declarations sorted by name, and no
//! duplicate names within a declaration kind.
use vstd::prelude::*;
use crate::hash::{is_lower_hash_text, sha256_prefix, is_lower_hex_char, hash_text, sha256_str};
use crate::json::{canonical_text, to_canonical_json};
use crate::lang::ast_json::{module_json, module_to_json};
use vstd::utf8::encode_utf8;
use crate::lang::ast::{
    CapDecl, CapDeclV, ImportDecl, ImportDeclV, IntrinsicDecl, IntrinsicDeclV, Module, ModuleV,
    TypeDecl, TypeDeclV, GoalDecl, GoalDeclV,
};
use crate::lang::error::{LangError, LangErrorV};
use crate::text::{
    chars_of, str_views, first_repeat, first_repeated, lemma_ins_key_at, push_char, seq_lt,
    sort_key, str_eq, str_lt, lemma_sort_key_sorted, lemma_sort_key_members,
    lemma_sorted_distinct_increasing, names_increasing, lemma_sort_key_sorted_id,
    lemma_increasing_no_repeat, texts_distinct, sorted_by, lemma_sort_key_distinct, lemma_sort_key_multiset,
    lemma_first_repeat_none_distinct,
};

verus! {

pub open spec fn by_import_name() -> spec_fn(ImportDeclV) -> Seq<char> {
    |d: ImportDeclV| d.name
}

pub open spec fn by_type_name() -> spec_fn(TypeDeclV) -> Seq<char> {
    |d: TypeDeclV| d.name
}

pub open spec fn by_cap_alias() -> spec_fn(CapDeclV) -> Seq<char> {
    |d: CapDeclV| d.alias
}

pub open spec fn by_intrinsic_alias() -> spec_fn(IntrinsicDeclV) -> Seq<char> {
    |d: IntrinsicDeclV| d.alias
}

/// ASCII whitespace: space, tab, line feed, form feed, carriage return.
pub open spec fn is_ascii_ws(c: char) -> bool {
    c == ' ' || c == '\t' || c == '\n' || c == '\x0c' || c == '\r'
}

/// The text without any ASCII whitespace.
pub open spec fn strip_ws(s: Seq<char>) -> Seq<char>
    decreases s.len(),
{
    if s.len() == 0 {
        Seq::empty()
    } else if is_ascii_ws(s.last()) {
        strip_ws(s.drop_last())
    } else {
        strip_ws(s.drop_last()).push(s.last())
    }
}

/// Strip all ASCII whitespace from a signature string:
/// `fetch( Url ) -> Html` becomes `fetch(Url)->Html`.
pub fn normalize_signature(sig: &str) -> (r: String)
    ensures
        r@ == strip_ws(sig@),
{
    let cs = chars_of(sig);
    let mut out = String::new();
    let mut i: usize = 0;
    while i < cs.len()
        invariant
            i <= cs@.len(),
            cs@ == sig@,
            out@ == strip_ws(cs@.take(i as int)),
        decreases cs@.len() - i,
    {
        assert(cs@.take(i + 1).drop_last() =~= cs@.take(i as int));
        let c = cs[i];
        if !(c == ' ' || c == '\t' || c == '\n' || c == '\x0c' || c == '\r') {
            push_char(&mut out, c);
        }
        i += 1;
    }
    assert(cs@.take(cs@.len() as int) =~= cs@);
    out
}

/// `name` followed by `::` and a declaration name, as duplicate errors show it.
pub open spec fn qualified(kind: Seq<char>, name: Seq<char>) -> Seq<char> {
    kind + seq![':', ':'] + name
}

/// The first repeated key of a list, as a duplicate-declaration error.
pub open spec fn dup_check(kind: Seq<char>, keys: Seq<Seq<char>>) -> Result<(), LangErrorV> {
    match first_repeat(keys, 0) {
        Some(i) => Err(LangErrorV::DuplicateDeclaration(qualified(kind, keys[i]))),
        None => Ok(()),
    }
}

/// The first import whose hash is not `sha256:` and 64 lower-case hex digits.
pub open spec fn first_bad_import(imports: Seq<ImportDeclV>, i: int) -> Option<int>
    decreases imports.len() - i,
{
    if i < 0 || i >= imports.len() {
        None
    } else if !is_lower_hash_text(imports[i].hash) {
        Some(i)
    } else {
        first_bad_import(imports, i + 1)
    }
}

pub open spec fn normalize_sig_cap(d: CapDeclV) -> CapDeclV {
    CapDeclV { alias: d.alias, signature: strip_ws(d.signature) }
}

pub open spec fn normalize_sig_intrinsic(d: IntrinsicDeclV) -> IntrinsicDeclV {
    IntrinsicDeclV { alias: d.alias, signature: strip_ws(d.signature) }
}

/// The normalized module, or the first rule it breaks: the version must be
/// `0.1`; every import hash must be `sha256:` and 64 hex digits; imports,
/// types, capabilities and intrinsics are sorted by name (stable), signatures
/// lose their whitespace; no name may repeat within imports, types,
/// capabilities, intrinsics or goals (checked in that order).
pub open spec fn normalize_spec(m: ModuleV) -> Result<ModuleV, LangErrorV> {
    if m.version != "0.1"@ {
        Err(LangErrorV::VersionMismatch { expected: "0.1"@, got: m.version })
    } else {
        match first_bad_import(m.imports, 0) {
            Some(i) => Err(LangErrorV::InvalidImportHash { name: m.imports[i].name, hash: m.imports[i].hash }),
            None => {
                let imports = sort_key(m.imports, by_import_name());
                let types = sort_key(m.types, by_type_name());
                let caps = sort_key(m.capabilities.map_values(|d: CapDeclV| normalize_sig_cap(d)), by_cap_alias());
                let intrs = sort_key(
                    m.intrinsics.map_values(|d: IntrinsicDeclV| normalize_sig_intrinsic(d)),
                    by_intrinsic_alias(),
                );
                match dup_check("import"@, imports.map_values(|d: ImportDeclV| d.name)) {
                    Err(e) => Err(e),
                    Ok(()) => match dup_check("type"@, types.map_values(|d: TypeDeclV| d.name)) {
                        Err(e) => Err(e),
                        Ok(()) => match dup_check("capability"@, caps.map_values(|d: CapDeclV| d.alias)) {
                            Err(e) => Err(e),
                            Ok(()) => match dup_check("intrinsic"@, intrs.map_values(|d: IntrinsicDeclV| d.alias)) {
                                Err(e) => Err(e),
                                Ok(()) => match dup_check("goal"@, m.goals.map_values(|g: GoalDeclV| g.name)) {
                                    Err(e) => Err(e),
                                    Ok(()) => Ok(
                                        ModuleV {
                                            version: m.version,
                                            imports,
                                            types,
                                            capabilities: caps,
                                            intrinsics: intrs,
                                            goals: m.goals,
                                        },
                                    ),
                                },
                            },
                        },
                    },
                }
            },
        }
    }
}

/// Whether a text is `sha256:` followed by exactly 64 lower-case hex digits.
fn is_lower_hash(hash: &str) -> (r: bool)
    ensures
        r == is_lower_hash_text(hash@),
{
    let cs = chars_of(hash);
    if cs.len() != 71 {
        return false;
    }
    let prefix = chars_of("sha256:");
    proof { reveal_strlit("sha256:"); }
    let mut i: usize = 0;
    while i < 7
        invariant
            i <= 7,
            cs@ == hash@,
            cs@.len() == 71,
            prefix@ == sha256_prefix(),
            forall|j: int| 0 <= j < i ==> #[trigger] cs@[j] == sha256_prefix()[j],
        decreases 7 - i,
    {
        if cs[i] != prefix[i] {
            assert(cs@.subrange(0, 7)[i as int] != sha256_prefix()[i as int]);
            return false;
        }
        i += 1;
    }
    assert(cs@.subrange(0, 7) =~= sha256_prefix());
    while i < 71
        invariant
            7 <= i <= 71,
            cs@ == hash@,
            cs@.len() == 71,
            forall|j: int| 7 <= j < i ==> is_lower_hex_char(#[trigger] cs@[j]),
        decreases 71 - i,
    {
        let c = cs[i];
        if !(('0' <= c && c <= '9') || ('a' <= c && c <= 'f')) {
            return false;
        }
        i += 1;
    }
    true
}

/// Validate that an import hash is `sha256:` followed by exactly 64
/// lower-case hex digits.
fn validate_import_hash(name: &str, hash: &str) -> (r: Result<(), LangError>)
    ensures
        r is Ok <==> is_lower_hash_text(hash@),
        r matches Err(e) ==> e@ == (LangErrorV::InvalidImportHash { name: name@, hash: hash@ }),
{
    if is_lower_hash(hash) {
        Ok(())
    } else {
        Err(LangError::InvalidImportHash { name: String::from_str(name), hash: String::from_str(hash) })
    }
}

/// Fails with `DuplicateDeclaration("KIND::NAME")` at the first name that
/// occurs earlier in the list.
fn check_no_duplicates(names: &Vec<String>, kind: &str) -> (r: Result<(), LangError>)
    ensures
        match dup_check(kind@, str_views(names@)) {
            Ok(()) => r is Ok,
            Err(e) => r matches Err(x) && x@ == e,
        },
{
    match first_repeated(names) {
        Some(i) => {
            let mut msg = String::from_str(kind);
            push_char(&mut msg, ':');
            push_char(&mut msg, ':');
            crate::text::push_str(&mut msg, names[i].as_str());
            assert(msg@ =~= qualified(kind@, names@[i as int]@));
            assert(str_views(names@)[i as int] == names@[i as int]@);
            Err(LangError::DuplicateDeclaration(msg))
        },
        None => Ok(()),
    }
}

/// The stable sort of the declarations by their name.
fn sort_imports(v: Vec<ImportDecl>) -> (r: Vec<ImportDecl>)
    ensures
        r@.map_values(|d: ImportDecl| d@) == sort_key(v@.map_values(|d: ImportDecl| d@), by_import_name()),
{
    let ghost orig = v@.map_values(|d: ImportDecl| d@);
    let mut rest = v;
    let mut out: Vec<ImportDecl> = Vec::new();
    let ghost mut i: int = 0;
    assert(orig.skip(0) =~= orig);
    assert(out@.map_values(|d: ImportDecl| d@) =~= sort_key(orig.take(0), by_import_name()));
    while rest.len() > 0
        invariant
            0 <= i <= orig.len(),
            rest@.map_values(|d: ImportDecl| d@) == orig.skip(i),
            out@.map_values(|d: ImportDecl| d@) == sort_key(orig.take(i), by_import_name()),
        decreases rest@.len(),
    {
        let ghost ov = out@.map_values(|d: ImportDecl| d@);
        assert(rest@.map_values(|d: ImportDecl| d@).len() == rest@.len());
        assert(orig.skip(i)[0] == rest@[0]@);
        let ghost x0 = rest@[0]@;
        let ghost old_rest = rest@;
        assert(old_rest.len() == orig.skip(i).len());
        let x = rest.remove(0);
        assert(rest@ =~= old_rest.subrange(1, old_rest.len() as int));
        assert(x@ == x0);
        assert(i < orig.len());
        assert(orig[i] == x0);
        let mut j: usize = out.len();
        while j > 0 && str_lt(x.name.as_str(), out[j - 1].name.as_str())
            invariant
                j <= out@.len(),
                ov == out@.map_values(|d: ImportDecl| d@),
                forall|k: int| j <= k < ov.len() ==> seq_lt(x@.name, #[trigger] by_import_name()(ov[k])),
            decreases j,
        {
            assert(ov[j - 1] == out@[j - 1]@);
            j -= 1;
        }
        proof {
            if j > 0 {
                assert(ov[j - 1] == out@[j - 1]@);
            }
            lemma_ins_key_at(ov, x@, by_import_name(), j as int);
            assert(orig.take(i + 1).drop_last() =~= orig.take(i));
            assert(orig.take(i + 1).last() == x@);
        }
        let ghost gx = x@;
        out.insert(j as usize, x);
        proof {
            assert(out@.map_values(|d: ImportDecl| d@) =~= ov.take(j as int).push(gx) + ov.skip(j as int));
            assert forall|k: int| 0 <= k < rest@.len() implies rest@.map_values(|d: ImportDecl| d@)[k] == #[trigger] orig.skip(i + 1)[k] by {
                assert(old_rest.map_values(|d: ImportDecl| d@)[k + 1] == orig.skip(i)[k + 1]);
            }
            assert(rest@.map_values(|d: ImportDecl| d@) =~= orig.skip(i + 1));
            i = i + 1;
        }
    }
    assert(orig.take(i) =~= orig);
    out
}

/// The stable sort of the declarations by their name.
fn sort_types(v: Vec<TypeDecl>) -> (r: Vec<TypeDecl>)
    ensures
        r@.map_values(|d: TypeDecl| d@) == sort_key(v@.map_values(|d: TypeDecl| d@), by_type_name()),
{
    let ghost orig = v@.map_values(|d: TypeDecl| d@);
    let mut rest = v;
    let mut out: Vec<TypeDecl> = Vec::new();
    let ghost mut i: int = 0;
    assert(orig.skip(0) =~= orig);
    assert(out@.map_values(|d: TypeDecl| d@) =~= sort_key(orig.take(0), by_type_name()));
    while rest.len() > 0
        invariant
            0 <= i <= orig.len(),
            rest@.map_values(|d: TypeDecl| d@) == orig.skip(i),
            out@.map_values(|d: TypeDecl| d@) == sort_key(orig.take(i), by_type_name()),
        decreases rest@.len(),
    {
        let ghost ov = out@.map_values(|d: TypeDecl| d@);
        assert(rest@.map_values(|d: TypeDecl| d@).len() == rest@.len());
        assert(orig.skip(i)[0] == rest@[0]@);
        let ghost x0 = rest@[0]@;
        let ghost old_rest = rest@;
        assert(old_rest.len() == orig.skip(i).len());
        let x = rest.remove(0);
        assert(rest@ =~= old_rest.subrange(1, old_rest.len() as int));
        assert(x@ == x0);
        assert(i < orig.len());
        assert(orig[i] == x0);
        let mut j: usize = out.len();
        while j > 0 && str_lt(x.name.as_str(), out[j - 1].name.as_str())
            invariant
                j <= out@.len(),
                ov == out@.map_values(|d: TypeDecl| d@),
                forall|k: int| j <= k < ov.len() ==> seq_lt(x@.name, #[trigger] by_type_name()(ov[k])),
            decreases j,
        {
            assert(ov[j - 1] == out@[j - 1]@);
            j -= 1;
        }
        proof {
            if j > 0 {
                assert(ov[j - 1] == out@[j - 1]@);
            }
            lemma_ins_key_at(ov, x@, by_type_name(), j as int);
            assert(orig.take(i + 1).drop_last() =~= orig.take(i));
            assert(orig.take(i + 1).last() == x@);
        }
        let ghost gx = x@;
        out.insert(j as usize, x);
        proof {
            assert(out@.map_values(|d: TypeDecl| d@) =~= ov.take(j as int).push(gx) + ov.skip(j as int));
            assert forall|k: int| 0 <= k < rest@.len() implies rest@.map_values(|d: TypeDecl| d@)[k] == #[trigger] orig.skip(i + 1)[k] by {
                assert(old_rest.map_values(|d: TypeDecl| d@)[k + 1] == orig.skip(i)[k + 1]);
            }
            assert(rest@.map_values(|d: TypeDecl| d@) =~= orig.skip(i + 1));
            i = i + 1;
        }
    }
    assert(orig.take(i) =~= orig);
    out
}

/// The stable sort of the declarations by their alias.
fn sort_caps(v: Vec<CapDecl>) -> (r: Vec<CapDecl>)
    ensures
        r@.map_values(|d: CapDecl| d@) == sort_key(v@.map_values(|d: CapDecl| d@), by_cap_alias()),
{
    let ghost orig = v@.map_values(|d: CapDecl| d@);
    let mut rest = v;
    let mut out: Vec<CapDecl> = Vec::new();
    let ghost mut i: int = 0;
    assert(orig.skip(0) =~= orig);
    assert(out@.map_values(|d: CapDecl| d@) =~= sort_key(orig.take(0), by_cap_alias()));
    while rest.len() > 0
        invariant
            0 <= i <= orig.len(),
            rest@.map_values(|d: CapDecl| d@) == orig.skip(i),
            out@.map_values(|d: CapDecl| d@) == sort_key(orig.take(i), by_cap_alias()),
        decreases rest@.len(),
    {
        let ghost ov = out@.map_values(|d: CapDecl| d@);
        assert(rest@.map_values(|d: CapDecl| d@).len() == rest@.len());
        assert(orig.skip(i)[0] == rest@[0]@);
        let ghost x0 = rest@[0]@;
        let ghost old_rest = rest@;
        assert(old_rest.len() == orig.skip(i).len());
        let x = rest.remove(0);
        assert(rest@ =~= old_rest.subrange(1, old_rest.len() as int));
        assert(x@ == x0);
        assert(i < orig.len());
        assert(orig[i] == x0);
        let mut j: usize = out.len();
        while j > 0 && str_lt(x.alias.as_str(), out[j - 1].alias.as_str())
            invariant
                j <= out@.len(),
                ov == out@.map_values(|d: CapDecl| d@),
                forall|k: int| j <= k < ov.len() ==> seq_lt(x@.alias, #[trigger] by_cap_alias()(ov[k])),
            decreases j,
        {
            assert(ov[j - 1] == out@[j - 1]@);
            j -= 1;
        }
        proof {
            if j > 0 {
                assert(ov[j - 1] == out@[j - 1]@);
            }
            lemma_ins_key_at(ov, x@, by_cap_alias(), j as int);
            assert(orig.take(i + 1).drop_last() =~= orig.take(i));
            assert(orig.take(i + 1).last() == x@);
        }
        let ghost gx = x@;
        out.insert(j as usize, x);
        proof {
            assert(out@.map_values(|d: CapDecl| d@) =~= ov.take(j as int).push(gx) + ov.skip(j as int));
            assert forall|k: int| 0 <= k < rest@.len() implies rest@.map_values(|d: CapDecl| d@)[k] == #[trigger] orig.skip(i + 1)[k] by {
                assert(old_rest.map_values(|d: CapDecl| d@)[k + 1] == orig.skip(i)[k + 1]);
            }
            assert(rest@.map_values(|d: CapDecl| d@) =~= orig.skip(i + 1));
            i = i + 1;
        }
    }
    assert(orig.take(i) =~= orig);
    out
}

/// The stable sort of the declarations by their alias.
fn sort_intrinsics(v: Vec<IntrinsicDecl>) -> (r: Vec<IntrinsicDecl>)
    ensures
        r@.map_values(|d: IntrinsicDecl| d@) == sort_key(v@.map_values(|d: IntrinsicDecl| d@), by_intrinsic_alias()),
{
    let ghost orig = v@.map_values(|d: IntrinsicDecl| d@);
    let mut rest = v;
    let mut out: Vec<IntrinsicDecl> = Vec::new();
    let ghost mut i: int = 0;
    assert(orig.skip(0) =~= orig);
    assert(out@.map_values(|d: IntrinsicDecl| d@) =~= sort_key(orig.take(0), by_intrinsic_alias()));
    while rest.len() > 0
        invariant
            0 <= i <= orig.len(),
            rest@.map_values(|d: IntrinsicDecl| d@) == orig.skip(i),
            out@.map_values(|d: IntrinsicDecl| d@) == sort_key(orig.take(i), by_intrinsic_alias()),
        decreases rest@.len(),
    {
        let ghost ov = out@.map_values(|d: IntrinsicDecl| d@);
        assert(rest@.map_values(|d: IntrinsicDecl| d@).len() == rest@.len());
        assert(orig.skip(i)[0] == rest@[0]@);
        let ghost x0 = rest@[0]@;
        let ghost old_rest = rest@;
        assert(old_rest.len() == orig.skip(i).len());
        let x = rest.remove(0);
        assert(rest@ =~= old_rest.subrange(1, old_rest.len() as int));
        assert(x@ == x0);
        assert(i < orig.len());
        assert(orig[i] == x0);
        let mut j: usize = out.len();
        while j > 0 && str_lt(x.alias.as_str(), out[j - 1].alias.as_str())
            invariant
                j <= out@.len(),
                ov == out@.map_values(|d: IntrinsicDecl| d@),
                forall|k: int| j <= k < ov.len() ==> seq_lt(x@.alias, #[trigger] by_intrinsic_alias()(ov[k])),
            decreases j,
        {
            assert(ov[j - 1] == out@[j - 1]@);
            j -= 1;
        }
        proof {
            if j > 0 {
                assert(ov[j - 1] == out@[j - 1]@);
            }
            lemma_ins_key_at(ov, x@, by_intrinsic_alias(), j as int);
            assert(orig.take(i + 1).drop_last() =~= orig.take(i));
            assert(orig.take(i + 1).last() == x@);
        }
        let ghost gx = x@;
        out.insert(j as usize, x);
        proof {
            assert(out@.map_values(|d: IntrinsicDecl| d@) =~= ov.take(j as int).push(gx) + ov.skip(j as int));
            assert forall|k: int| 0 <= k < rest@.len() implies rest@.map_values(|d: IntrinsicDecl| d@)[k] == #[trigger] orig.skip(i + 1)[k] by {
                assert(old_rest.map_values(|d: IntrinsicDecl| d@)[k + 1] == orig.skip(i)[k + 1]);
            }
            assert(rest@.map_values(|d: IntrinsicDecl| d@) =~= orig.skip(i + 1));
            i = i + 1;
        }
    }
    assert(orig.take(i) =~= orig);
    out
}


fn import_names(v: &Vec<ImportDecl>) -> (r: Vec<String>)
    ensures
        str_views(r@) == v@.map_values(|d: ImportDecl| d@).map_values(|d: ImportDeclV| d.name),
{
    let mut out: Vec<String> = Vec::new();
    let mut i: usize = 0;
    while i < v.len()
        invariant
            i <= v@.len(),
            str_views(out@) == v@.take(i as int).map_values(|d: ImportDecl| d@).map_values(|d: ImportDeclV| d.name),
        decreases v@.len() - i,
    {
        let ghost before = out@;
        let k = v[i].name.clone();
        out.push(k);
        proof {
            assert(str_views(out@) =~= str_views(before).push(v@[i as int].name@));
            assert(v@.take(i + 1).map_values(|d: ImportDecl| d@).map_values(|d: ImportDeclV| d.name)
                =~= v@.take(i as int).map_values(|d: ImportDecl| d@).map_values(|d: ImportDeclV| d.name).push(v@[i as int].name@));
        }
        i += 1;
    }
    assert(v@.take(v@.len() as int) =~= v@);
    out
}

fn type_names(v: &Vec<TypeDecl>) -> (r: Vec<String>)
    ensures
        str_views(r@) == v@.map_values(|d: TypeDecl| d@).map_values(|d: TypeDeclV| d.name),
{
    let mut out: Vec<String> = Vec::new();
    let mut i: usize = 0;
    while i < v.len()
        invariant
            i <= v@.len(),
            str_views(out@) == v@.take(i as int).map_values(|d: TypeDecl| d@).map_values(|d: TypeDeclV| d.name),
        decreases v@.len() - i,
    {
        let ghost before = out@;
        let k = v[i].name.clone();
        out.push(k);
        proof {
            assert(str_views(out@) =~= str_views(before).push(v@[i as int].name@));
            assert(v@.take(i + 1).map_values(|d: TypeDecl| d@).map_values(|d: TypeDeclV| d.name)
                =~= v@.take(i as int).map_values(|d: TypeDecl| d@).map_values(|d: TypeDeclV| d.name).push(v@[i as int].name@));
        }
        i += 1;
    }
    assert(v@.take(v@.len() as int) =~= v@);
    out
}

fn cap_aliases(v: &Vec<CapDecl>) -> (r: Vec<String>)
    ensures
        str_views(r@) == v@.map_values(|d: CapDecl| d@).map_values(|d: CapDeclV| d.alias),
{
    let mut out: Vec<String> = Vec::new();
    let mut i: usize = 0;
    while i < v.len()
        invariant
            i <= v@.len(),
            str_views(out@) == v@.take(i as int).map_values(|d: CapDecl| d@).map_values(|d: CapDeclV| d.alias),
        decreases v@.len() - i,
    {
        let ghost before = out@;
        let k = v[i].alias.clone();
        out.push(k);
        proof {
            assert(str_views(out@) =~= str_views(before).push(v@[i as int].alias@));
            assert(v@.take(i + 1).map_values(|d: CapDecl| d@).map_values(|d: CapDeclV| d.alias)
                =~= v@.take(i as int).map_values(|d: CapDecl| d@).map_values(|d: CapDeclV| d.alias).push(v@[i as int].alias@));
        }
        i += 1;
    }
    assert(v@.take(v@.len() as int) =~= v@);
    out
}

fn intrinsic_aliases(v: &Vec<IntrinsicDecl>) -> (r: Vec<String>)
    ensures
        str_views(r@) == v@.map_values(|d: IntrinsicDecl| d@).map_values(|d: IntrinsicDeclV| d.alias),
{
    let mut out: Vec<String> = Vec::new();
    let mut i: usize = 0;
    while i < v.len()
        invariant
            i <= v@.len(),
            str_views(out@) == v@.take(i as int).map_values(|d: IntrinsicDecl| d@).map_values(|d: IntrinsicDeclV| d.alias),
        decreases v@.len() - i,
    {
        let ghost before = out@;
        let k = v[i].alias.clone();
        out.push(k);
        proof {
            assert(str_views(out@) =~= str_views(before).push(v@[i as int].alias@));
            assert(v@.take(i + 1).map_values(|d: IntrinsicDecl| d@).map_values(|d: IntrinsicDeclV| d.alias)
                =~= v@.take(i as int).map_values(|d: IntrinsicDecl| d@).map_values(|d: IntrinsicDeclV| d.alias).push(v@[i as int].alias@));
        }
        i += 1;
    }
    assert(v@.take(v@.len() as int) =~= v@);
    out
}

fn goal_names(v: &Vec<GoalDecl>) -> (r: Vec<String>)
    ensures
        str_views(r@) == v@.map_values(|d: GoalDecl| d@).map_values(|d: GoalDeclV| d.name),
{
    let mut out: Vec<String> = Vec::new();
    let mut i: usize = 0;
    while i < v.len()
        invariant
            i <= v@.len(),
            str_views(out@) == v@.take(i as int).map_values(|d: GoalDecl| d@).map_values(|d: GoalDeclV| d.name),
        decreases v@.len() - i,
    {
        let ghost before = out@;
        let k = v[i].name.clone();
        out.push(k);
        proof {
            assert(str_views(out@) =~= str_views(before).push(v@[i as int].name@));
            assert(v@.take(i + 1).map_values(|d: GoalDecl| d@).map_values(|d: GoalDeclV| d.name)
                =~= v@.take(i as int).map_values(|d: GoalDecl| d@).map_values(|d: GoalDeclV| d.name).push(v@[i as int].name@));
        }
        i += 1;
    }
    assert(v@.take(v@.len() as int) =~= v@);
    out
}

/// Capability declarations with whitespace-free signatures.
fn normalize_cap_signatures(v: Vec<CapDecl>) -> (r: Vec<CapDecl>)
    ensures
        r@.map_values(|d: CapDecl| d@) == v@.map_values(|d: CapDecl| d@).map_values(|d: CapDeclV| normalize_sig_cap(d)),
{
    let mut out: Vec<CapDecl> = Vec::new();
    let mut i: usize = 0;
    while i < v.len()
        invariant
            i <= v@.len(),
            out@.map_values(|d: CapDecl| d@) == v@.take(i as int).map_values(|d: CapDecl| d@).map_values(|d: CapDeclV| normalize_sig_cap(d)),
        decreases v@.len() - i,
    {
        let ghost before = out@;
        let d = CapDecl { alias: v[i].alias.clone(), signature: normalize_signature(v[i].signature.as_str()) };
        let ghost gd = d@;
        out.push(d);
        proof {
            assert(out@.map_values(|d: CapDecl| d@) =~= before.map_values(|d: CapDecl| d@).push(gd));
            assert(v@.take(i + 1).map_values(|d: CapDecl| d@).map_values(|d: CapDeclV| normalize_sig_cap(d))
                =~= v@.take(i as int).map_values(|d: CapDecl| d@).map_values(|d: CapDeclV| normalize_sig_cap(d)).push(normalize_sig_cap(v@[i as int]@)));
        }
        i += 1;
    }
    assert(v@.take(v@.len() as int) =~= v@);
    out
}

/// Intrinsic declarations with whitespace-free signatures.
fn normalize_intrinsic_signatures(v: Vec<IntrinsicDecl>) -> (r: Vec<IntrinsicDecl>)
    ensures
        r@.map_values(|d: IntrinsicDecl| d@) == v@.map_values(|d: IntrinsicDecl| d@).map_values(|d: IntrinsicDeclV| normalize_sig_intrinsic(d)),
{
    let mut out: Vec<IntrinsicDecl> = Vec::new();
    let mut i: usize = 0;
    while i < v.len()
        invariant
            i <= v@.len(),
            out@.map_values(|d: IntrinsicDecl| d@) == v@.take(i as int).map_values(|d: IntrinsicDecl| d@).map_values(|d: IntrinsicDeclV| normalize_sig_intrinsic(d)),
        decreases v@.len() - i,
    {
        let ghost before = out@;
        let d = IntrinsicDecl { alias: v[i].alias.clone(), signature: normalize_signature(v[i].signature.as_str()) };
        let ghost gd = d@;
        out.push(d);
        proof {
            assert(out@.map_values(|d: IntrinsicDecl| d@) =~= before.map_values(|d: IntrinsicDecl| d@).push(gd));
            assert(v@.take(i + 1).map_values(|d: IntrinsicDecl| d@).map_values(|d: IntrinsicDeclV| normalize_sig_intrinsic(d))
                =~= v@.take(i as int).map_values(|d: IntrinsicDecl| d@).map_values(|d: IntrinsicDeclV| normalize_sig_intrinsic(d)).push(normalize_sig_intrinsic(v@[i as int]@)));
        }
        i += 1;
    }
    assert(v@.take(v@.len() as int) =~= v@);
    out
}

/// Checks every import hash in order; the first malformed one is the error.
fn check_import_hashes(imports: &Vec<ImportDecl>) -> (r: Result<(), LangError>)
    ensures
        match first_bad_import(imports@.map_values(|d: ImportDecl| d@), 0) {
            Some(i) => r matches Err(x) && x@ == (LangErrorV::InvalidImportHash {
                name: imports@.map_values(|d: ImportDecl| d@)[i].name,
                hash: imports@.map_values(|d: ImportDecl| d@)[i].hash,
            }),
            None => r is Ok,
        },
{
    let ghost iv = imports@.map_values(|d: ImportDecl| d@);
    let mut i: usize = 0;
    while i < imports.len()
        invariant
            i <= imports@.len(),
            iv == imports@.map_values(|d: ImportDecl| d@),
            iv.len() == imports@.len(),
            first_bad_import(iv, 0) == first_bad_import(iv, i as int),
        decreases imports@.len() - i,
    {
        assert(iv[i as int] == imports@[i as int]@);
        match validate_import_hash(imports[i].name.as_str(), imports[i].hash.as_str()) {
            Err(e) => return Err(e),
            Ok(()) => {},
        }
        i += 1;
    }
    Ok(())
}

/// Apply the normalization rules to a parsed module: the version must be
/// `0.1`; import hashes must be `sha256:` and 64 hex digits; imports, types,
/// capabilities and intrinsics are sorted by name; signatures lose all
/// whitespace; no name repeats within a declaration kind.
pub fn normalize(module: Module) -> (r: Result<Module, LangError>)
    ensures
        match normalize_spec(module@) {
            Ok(v) => r matches Ok(x) && x@ == v,
            Err(e) => r matches Err(x) && x@ == e,
        },
{
    if !str_eq(module.version.as_str(), "0.1") {
        return Err(LangError::VersionMismatch { expected: String::from_str("0.1"), got: module.version.clone() });
    }
    match check_import_hashes(&module.imports) {
        Err(e) => return Err(e),
        Ok(()) => {},
    }
    let ghost mv = module@;
    let Module { version, imports, types, capabilities, intrinsics, goals } = module;
    let imports = sort_imports(imports);
    let caps = normalize_cap_signatures(capabilities);
    let intrs = normalize_intrinsic_signatures(intrinsics);
    let types = sort_types(types);
    let caps = sort_caps(caps);
    let intrs = sort_intrinsics(intrs);
    match check_no_duplicates(&import_names(&imports), "import") {
        Err(e) => return Err(e),
        Ok(()) => {},
    }
    match check_no_duplicates(&type_names(&types), "type") {
        Err(e) => return Err(e),
        Ok(()) => {},
    }
    match check_no_duplicates(&cap_aliases(&caps), "capability") {
        Err(e) => return Err(e),
        Ok(()) => {},
    }
    match check_no_duplicates(&intrinsic_aliases(&intrs), "intrinsic") {
        Err(e) => return Err(e),
        Ok(()) => {},
    }
    match check_no_duplicates(&goal_names(&goals), "goal") {
        Err(e) => return Err(e),
        Ok(()) => {},
    }
    Ok(Module { version, imports, types, capabilities: caps, intrinsics: intrs, goals })
}


/// `sha256` of the canonical JSON of a module's AST.
pub open spec fn ast_hash_text(m: ModuleV) -> Seq<char> {
    hash_text(encode_utf8(canonical_text(module_json(m))))
}

/// The canonical JSON hash of a normalized AST module: the same source, up
/// to whitespace and formatting, always gives the same hash.
pub fn ast_hash(module: &Module) -> (h: crate::hash::Hash)
    ensures
        h@ == ast_hash_text(module@),
{
    let v = module_to_json(module);
    let canonical = to_canonical_json(&v);
    sha256_str(canonical.as_str())
}
// ---------------------------------------------------------------------------
// The normalized form
// ---------------------------------------------------------------------------

/// A text without ASCII whitespace.
pub open spec fn ws_free(s: Seq<char>) -> bool {
    forall|i: int| 0 <= i < s.len() ==> !is_ascii_ws(#[trigger] s[i])
}

proof fn lemma_strip_ws_free(s: Seq<char>)
    ensures
        ws_free(strip_ws(s)),
    decreases s.len(),
{
    if s.len() > 0 {
        lemma_strip_ws_free(s.drop_last());
        if !is_ascii_ws(s.last()) {
            let t = strip_ws(s.drop_last());
            assert forall|i: int| 0 <= i < t.push(s.last()).len() implies !is_ascii_ws(#[trigger] t.push(s.last())[i]) by {
                if i < t.len() {
                    assert(t.push(s.last())[i] == t[i]);
                }
            }
        }
    }
}

/// A normalized module has its imports, types, capabilities and intrinsics
/// in strictly increasing name order (so no name repeats within a kind), and
/// every capability and intrinsic signature free of whitespace.
pub proof fn lemma_normalized_form(m: ModuleV)
    requires
        normalize_spec(m) is Ok,
    ensures
        names_increasing(normalize_spec(m)->Ok_0.imports.map_values(|d: ImportDeclV| d.name)),
        names_increasing(normalize_spec(m)->Ok_0.types.map_values(|d: TypeDeclV| d.name)),
        names_increasing(normalize_spec(m)->Ok_0.capabilities.map_values(|d: CapDeclV| d.alias)),
        names_increasing(normalize_spec(m)->Ok_0.intrinsics.map_values(|d: IntrinsicDeclV| d.alias)),
        forall|i: int| 0 <= i < normalize_spec(m)->Ok_0.capabilities.len() ==>
            ws_free(#[trigger] normalize_spec(m)->Ok_0.capabilities[i].signature),
        forall|i: int| 0 <= i < normalize_spec(m)->Ok_0.intrinsics.len() ==>
            ws_free(#[trigger] normalize_spec(m)->Ok_0.intrinsics[i].signature),
{
    let n = normalize_spec(m)->Ok_0;
    let caps_in = m.capabilities.map_values(|d: CapDeclV| normalize_sig_cap(d));
    let intrs_in = m.intrinsics.map_values(|d: IntrinsicDeclV| normalize_sig_intrinsic(d));
    assert(n.imports == sort_key(m.imports, by_import_name()));
    assert(n.types == sort_key(m.types, by_type_name()));
    assert(n.capabilities == sort_key(caps_in, by_cap_alias()));
    assert(n.intrinsics == sort_key(intrs_in, by_intrinsic_alias()));
    lemma_sort_key_sorted(m.imports, by_import_name());
    lemma_sort_key_sorted(m.types, by_type_name());
    lemma_sort_key_sorted(caps_in, by_cap_alias());
    lemma_sort_key_sorted(intrs_in, by_intrinsic_alias());
    assert(n.imports.map_values(|d: ImportDeclV| d.name) =~= n.imports.map_values(|x: ImportDeclV| by_import_name()(x)));
    assert(n.types.map_values(|d: TypeDeclV| d.name) =~= n.types.map_values(|x: TypeDeclV| by_type_name()(x)));
    assert(n.capabilities.map_values(|d: CapDeclV| d.alias) =~= n.capabilities.map_values(|x: CapDeclV| by_cap_alias()(x)));
    assert(n.intrinsics.map_values(|d: IntrinsicDeclV| d.alias)
        =~= n.intrinsics.map_values(|x: IntrinsicDeclV| by_intrinsic_alias()(x)));
    lemma_sorted_distinct_increasing(n.imports, by_import_name());
    lemma_sorted_distinct_increasing(n.types, by_type_name());
    lemma_sorted_distinct_increasing(n.capabilities, by_cap_alias());
    lemma_sorted_distinct_increasing(n.intrinsics, by_intrinsic_alias());
    lemma_sort_key_members(caps_in, by_cap_alias());
    lemma_sort_key_members(intrs_in, by_intrinsic_alias());
    assert forall|i: int| 0 <= i < n.capabilities.len() implies ws_free(#[trigger] n.capabilities[i].signature) by {
        let j = choose|j: int| 0 <= j < caps_in.len() && caps_in[j] == n.capabilities[i];
        lemma_strip_ws_free(m.capabilities[j].signature);
    }
    assert forall|i: int| 0 <= i < n.intrinsics.len() implies ws_free(#[trigger] n.intrinsics[i].signature) by {
        let j = choose|j: int| 0 <= j < intrs_in.len() && intrs_in[j] == n.intrinsics[i];
        lemma_strip_ws_free(m.intrinsics[j].signature);
    }
}

proof fn lemma_strip_ws_id(s: Seq<char>)
    requires
        ws_free(s),
    ensures
        strip_ws(s) == s,
    decreases s.len(),
{
    if s.len() > 0 {
        assert(ws_free(s.drop_last())) by {
            assert forall|i: int| 0 <= i < s.drop_last().len() implies !is_ascii_ws(#[trigger] s.drop_last()[i]) by {
                assert(s.drop_last()[i] == s[i]);
            }
        }
        lemma_strip_ws_id(s.drop_last());
        assert(!is_ascii_ws(s[s.len() - 1]));
        assert(s.drop_last().push(s.last()) =~= s);
    }
}

proof fn lemma_bad_import_none(imports: Seq<ImportDeclV>, i: int)
    requires
        0 <= i,
    ensures
        first_bad_import(imports, i) is None <==> forall|j: int| i <= j < imports.len() ==> is_lower_hash_text(#[trigger] imports[j].hash),
    decreases imports.len() - i,
{
    if i < imports.len() {
        lemma_bad_import_none(imports, i + 1);
    }
}

/// Normalizing a normalized module gives it back unchanged.
pub proof fn lemma_normalize_idempotent(m: ModuleV)
    requires
        normalize_spec(m) is Ok,
    ensures
        normalize_spec(normalize_spec(m)->Ok_0) == normalize_spec(m),
{
    let n = normalize_spec(m)->Ok_0;
    lemma_normalized_form(m);
    let caps_in = m.capabilities.map_values(|d: CapDeclV| normalize_sig_cap(d));
    let intrs_in = m.intrinsics.map_values(|d: IntrinsicDeclV| normalize_sig_intrinsic(d));
    assert(n.imports == sort_key(m.imports, by_import_name()));
    assert(n.types == sort_key(m.types, by_type_name()));
    assert(n.capabilities == sort_key(caps_in, by_cap_alias()));
    assert(n.intrinsics == sort_key(intrs_in, by_intrinsic_alias()));
    // The import hashes are still valid.
    lemma_bad_import_none(m.imports, 0);
    lemma_sort_key_members(m.imports, by_import_name());
    assert forall|j: int| 0 <= j < n.imports.len() implies is_lower_hash_text(#[trigger] n.imports[j].hash) by {
        let k = choose|k: int| 0 <= k < m.imports.len() && m.imports[k] == n.imports[j];
    }
    lemma_bad_import_none(n.imports, 0);
    // Sorting again changes nothing.
    lemma_sort_key_sorted(m.imports, by_import_name());
    lemma_sort_key_sorted(m.types, by_type_name());
    lemma_sort_key_sorted(caps_in, by_cap_alias());
    lemma_sort_key_sorted(intrs_in, by_intrinsic_alias());
    lemma_sort_key_sorted_id(n.imports, by_import_name());
    lemma_sort_key_sorted_id(n.types, by_type_name());
    // Signatures are already free of whitespace.
    assert(n.capabilities.map_values(|d: CapDeclV| normalize_sig_cap(d)) =~= n.capabilities) by {
        assert forall|i: int| 0 <= i < n.capabilities.len() implies #[trigger] normalize_sig_cap(n.capabilities[i]) == n.capabilities[i] by {
            lemma_strip_ws_id(n.capabilities[i].signature);
        }
    }
    assert(n.intrinsics.map_values(|d: IntrinsicDeclV| normalize_sig_intrinsic(d)) =~= n.intrinsics) by {
        assert forall|i: int| 0 <= i < n.intrinsics.len() implies #[trigger] normalize_sig_intrinsic(n.intrinsics[i]) == n.intrinsics[i] by {
            lemma_strip_ws_id(n.intrinsics[i].signature);
        }
    }
    lemma_sort_key_sorted_id(n.capabilities, by_cap_alias());
    lemma_sort_key_sorted_id(n.intrinsics, by_intrinsic_alias());
    // No name repeats.
    lemma_increasing_no_repeat(n.imports.map_values(|d: ImportDeclV| d.name), 0);
    lemma_increasing_no_repeat(n.types.map_values(|d: TypeDeclV| d.name), 0);
    lemma_increasing_no_repeat(n.capabilities.map_values(|d: CapDeclV| d.alias), 0);
    lemma_increasing_no_repeat(n.intrinsics.map_values(|d: IntrinsicDeclV| d.alias), 0);
}

proof fn lemma_dup_check_ok(kind: Seq<char>, keys: Seq<Seq<char>>)
    ensures
        dup_check(kind, keys) is Ok <==> texts_distinct(keys),
{
    lemma_first_repeat_none_distinct(keys, 0);
}

/// Normalizing succeeds exactly when the version is `0.1`, every import hash
/// is `sha256:` and 64 lower-case hex digits, and no name repeats among the
/// imports, the types, the capabilities, the intrinsics or the goals.  It
/// then keeps the version and the goals, and the declarations of each kind
/// are a permutation of the given ones (signatures without whitespace),
/// sorted by name.
pub proof fn lemma_normalize_meaning(m: ModuleV)
    ensures
        normalize_spec(m) is Ok <==> {
            &&& m.version == "0.1"@
            &&& forall|i: int| 0 <= i < m.imports.len() ==> is_lower_hash_text(#[trigger] m.imports[i].hash)
            &&& texts_distinct(m.imports.map_values(|d: ImportDeclV| d.name))
            &&& texts_distinct(m.types.map_values(|d: TypeDeclV| d.name))
            &&& texts_distinct(m.capabilities.map_values(|d: CapDeclV| d.alias))
            &&& texts_distinct(m.intrinsics.map_values(|d: IntrinsicDeclV| d.alias))
            &&& texts_distinct(m.goals.map_values(|g: GoalDeclV| g.name))
        },
        normalize_spec(m) matches Ok(n) ==> {
            &&& n.version == m.version
            &&& n.goals == m.goals
            &&& n.imports.to_multiset() == m.imports.to_multiset()
            &&& n.types.to_multiset() == m.types.to_multiset()
            &&& n.capabilities.to_multiset() == m.capabilities.map_values(|d: CapDeclV| normalize_sig_cap(d)).to_multiset()
            &&& n.intrinsics.to_multiset()
                == m.intrinsics.map_values(|d: IntrinsicDeclV| normalize_sig_intrinsic(d)).to_multiset()
            &&& sorted_by(n.imports, by_import_name())
            &&& sorted_by(n.types, by_type_name())
            &&& sorted_by(n.capabilities, by_cap_alias())
            &&& sorted_by(n.intrinsics, by_intrinsic_alias())
        },
{
    lemma_bad_import_none(m.imports, 0);
    let ci = m.capabilities.map_values(|d: CapDeclV| normalize_sig_cap(d));
    let ii = m.intrinsics.map_values(|d: IntrinsicDeclV| normalize_sig_intrinsic(d));
    let imports = sort_key(m.imports, by_import_name());
    let types = sort_key(m.types, by_type_name());
    let caps = sort_key(ci, by_cap_alias());
    let intrs = sort_key(ii, by_intrinsic_alias());
    lemma_sort_key_distinct(m.imports, by_import_name());
    lemma_sort_key_distinct(m.types, by_type_name());
    lemma_sort_key_distinct(ci, by_cap_alias());
    lemma_sort_key_distinct(ii, by_intrinsic_alias());
    lemma_sort_key_multiset(m.imports, by_import_name());
    lemma_sort_key_multiset(m.types, by_type_name());
    lemma_sort_key_multiset(ci, by_cap_alias());
    lemma_sort_key_multiset(ii, by_intrinsic_alias());
    lemma_sort_key_sorted(m.imports, by_import_name());
    lemma_sort_key_sorted(m.types, by_type_name());
    lemma_sort_key_sorted(ci, by_cap_alias());
    lemma_sort_key_sorted(ii, by_intrinsic_alias());
    assert(imports.map_values(|d: ImportDeclV| d.name) =~= imports.map_values(by_import_name()));
    assert(m.imports.map_values(|d: ImportDeclV| d.name) =~= m.imports.map_values(by_import_name()));
    assert(types.map_values(|d: TypeDeclV| d.name) =~= types.map_values(by_type_name()));
    assert(m.types.map_values(|d: TypeDeclV| d.name) =~= m.types.map_values(by_type_name()));
    assert(caps.map_values(|d: CapDeclV| d.alias) =~= caps.map_values(by_cap_alias()));
    assert(m.capabilities.map_values(|d: CapDeclV| d.alias) =~= ci.map_values(by_cap_alias()));
    assert(intrs.map_values(|d: IntrinsicDeclV| d.alias) =~= intrs.map_values(by_intrinsic_alias()));
    assert(m.intrinsics.map_values(|d: IntrinsicDeclV| d.alias) =~= ii.map_values(by_intrinsic_alias()));
    lemma_dup_check_ok("import"@, imports.map_values(|d: ImportDeclV| d.name));
    lemma_dup_check_ok("type"@, types.map_values(|d: TypeDeclV| d.name));
    lemma_dup_check_ok("capability"@, caps.map_values(|d: CapDeclV| d.alias));
    lemma_dup_check_ok("intrinsic"@, intrs.map_values(|d: IntrinsicDeclV| d.alias));
    lemma_dup_check_ok("goal"@, m.goals.map_values(|g: GoalDeclV| g.name));
}

} // verus!
