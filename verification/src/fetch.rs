//! The fetch capability's replies, by the capability subprocess ABI (one
//! JSON line on stdout):
//!
//! - success: `{"output":{"type":"Html","data_b64":"<base64>"},"duration_ms":N}`
//! - error:   `{"error":"<CODE>","details":{...}}` with the details key-sorted.
//!
//! Reading the request, fetching and printing are the caller's part.
use vstd::prelude::*;
use base64::Engine;
use crate::json::{
    JsonValue, SJson, canon, canonicalize, ser, to_json_text, push_member, view_members,
};
use crate::ir::canonical::obj_lookup;
use crate::text::str_eq;

verus! {

/// The character of a 6-bit value in the standard base64 alphabet
/// (`A-Z`, `a-z`, `0-9`, `+`, `/`).
pub open spec fn b64_char(v: nat) -> char {
    if v < 26 {
        ('A' as nat + v) as char
    } else if v < 52 {
        ('a' as nat + (v - 26)) as char
    } else if v < 62 {
        ('0' as nat + (v - 52)) as char
    } else if v == 62 {
        '+'
    } else {
        '/'
    }
}

/// Standard base64 (RFC 4648, section 4) with `=` padding: each group of
/// three bytes becomes four characters, a final group of one or two bytes
/// becomes two or three characters and padding.
pub open spec fn base64_encode(bs: Seq<u8>) -> Seq<char>
    decreases bs.len(),
{
    if bs.len() == 0 {
        Seq::empty()
    } else if bs.len() == 1 {
        seq![b64_char(bs[0] as nat / 4), b64_char((bs[0] as nat % 4) * 16), '=', '=']
    } else if bs.len() == 2 {
        seq![
            b64_char(bs[0] as nat / 4),
            b64_char((bs[0] as nat % 4) * 16 + bs[1] as nat / 16),
            b64_char((bs[1] as nat % 16) * 4),
            '=',
        ]
    } else {
        seq![
            b64_char(bs[0] as nat / 4),
            b64_char((bs[0] as nat % 4) * 16 + bs[1] as nat / 16),
            b64_char((bs[1] as nat % 16) * 4 + bs[2] as nat / 64),
            b64_char(bs[2] as nat % 64),
        ] + base64_encode(bs.skip(3))
    }
}

/// `base64::engine::general_purpose::STANDARD.encode`: the standard
/// alphabet with padding.  It panics when the encoded length overflows
/// `usize`, which `requires` leaves out.
#[verifier::external_body]
fn base64_standard(data: &[u8]) -> (s: String)
    requires
        (data@.len() / 3) * 4 + 4 <= usize::MAX,
    ensures
        s@ == base64_encode(data@),
{
    base64::engine::general_purpose::STANDARD.encode(data)
}

/// The JSON of a successful fetch.
pub open spec fn success_json(data_b64: Seq<char>, duration_ms: u64) -> SJson {
    SJson::Object(
        seq![
            ("output"@, SJson::Object(seq![("type"@, SJson::Str("Html"@)), ("data_b64"@, SJson::Str(data_b64))])),
            ("duration_ms"@, SJson::Int(duration_ms as int)),
        ],
    )
}

/// The JSON of a failed request: the code and its key-sorted details.
pub open spec fn error_json(code: Seq<char>, details: Seq<(Seq<char>, SJson)>) -> SJson {
    SJson::Object(seq![("error"@, SJson::Str(code)), ("details"@, canon(SJson::Object(details)))])
}

/// The reply line of a successful fetch of `body` that took `duration_ms`.
pub fn success_response(body: &[u8], duration_ms: u64) -> (s: String)
    requires
        (body@.len() / 3) * 4 + 4 <= usize::MAX,
    ensures
        s@ == ser(success_json(base64_encode(body@), duration_ms)),
{
    let data = base64_standard(body);
    let mut out: Vec<(String, JsonValue)> = Vec::new();
    push_member(&mut out, "type", JsonValue::Str(String::from_str("Html")));
    push_member(&mut out, "data_b64", JsonValue::Str(data));
    let mut ps: Vec<(String, JsonValue)> = Vec::new();
    let ghost ov = view_members(out@);
    push_member(&mut ps, "output", JsonValue::Object(out));
    push_member(&mut ps, "duration_ms", JsonValue::Int(duration_ms as i128));
    assert(ov =~= success_json(base64_encode(body@), duration_ms)->Object_0[0].1->Object_0);
    assert(view_members(ps@) =~= success_json(base64_encode(body@), duration_ms)->Object_0);
    to_json_text(&JsonValue::Object(ps))
}

/// The reply line of a failed request.
pub fn error_response(code: &str, details: Vec<(String, JsonValue)>) -> (s: String)
    ensures
        s@ == ser(error_json(code@, view_members(details@))),
{
    let d = canonicalize(&JsonValue::Object(details));
    let mut ps: Vec<(String, JsonValue)> = Vec::new();
    push_member(&mut ps, "error", JsonValue::Str(String::from_str(code)));
    push_member(&mut ps, "details", d);
    assert(view_members(ps@) =~= error_json(code@, view_members(details@))->Object_0);
    to_json_text(&JsonValue::Object(ps))
}

/// The `url` input of a request, when it is a string.
pub open spec fn url_input(inputs: Seq<(Seq<char>, SJson)>) -> Option<Seq<char>> {
    match obj_lookup(inputs, "url"@) {
        Some(SJson::Str(u)) => Some(u),
        _ => None,
    }
}

/// The `url` input of a request's inputs, when it is a string; a missing or
/// non-string url is the `ERR_MISSING_URL` case.
pub fn request_url(inputs: &Vec<(String, JsonValue)>) -> (r: Option<String>)
    ensures
        match url_input(view_members(inputs@)) {
            Some(u) => r matches Some(x) && x@ == u,
            None => r is None,
        },
{
    let ghost vm = view_members(inputs@);
    proof {
        crate::json::lemma_view_members(inputs@);
    }
    let mut i: usize = inputs.len();
    assert(vm.take(i as int) =~= vm);
    while i > 0
        invariant
            i <= inputs@.len(),
            vm == view_members(inputs@),
            vm.len() == inputs@.len(),
            forall|j: int| 0 <= j < inputs@.len() ==> #[trigger] vm[j] == (inputs@[j].0@, inputs@[j].1@),
            obj_lookup(vm, "url"@) == obj_lookup(vm.take(i as int), "url"@),
        decreases i,
    {
        assert(vm.take(i as int).drop_last() =~= vm.take(i - 1));
        assert(vm.take(i as int).last() == vm[i - 1]);
        if str_eq(inputs[i - 1].0.as_str(), "url") {
            return match &inputs[i - 1].1 {
                JsonValue::Str(u) => Some(u.clone()),
                _ => None,
            };
        }
        i -= 1;
    }
    None
}

/// The request's url, or, when its inputs hold no string `url`, the
/// `ERR_MISSING_URL` reply naming the capability.
pub fn fetch_target(capability: &str, inputs: &Vec<(String, JsonValue)>) -> (r: Result<String, String>)
    ensures
        match url_input(view_members(inputs@)) {
            Some(u) => r matches Ok(x) && x@ == u,
            None => r matches Err(s) && s@ == ser(
                error_json("ERR_MISSING_URL"@, seq![("capability"@, SJson::Str(capability@))]),
            ),
        },
{
    match request_url(inputs) {
        Some(u) => Ok(u),
        None => {
            let mut d: Vec<(String, JsonValue)> = Vec::new();
            push_member(&mut d, "capability", JsonValue::Str(String::from_str(capability)));
            assert(view_members(d@) =~= seq![("capability"@, SJson::Str(capability@))]);
            Err(error_response("ERR_MISSING_URL", d))
        },
    }
}

/// The reply to a fetch that failed: `ERR_FETCH_FAILED` with the url and
/// the cause.
pub fn fetch_failed_reply(url: &str, cause: &str) -> (s: String)
    ensures
        s@ == ser(error_json("ERR_FETCH_FAILED"@, seq![("url"@, SJson::Str(url@)), ("cause"@, SJson::Str(cause@))])),
{
    let mut d: Vec<(String, JsonValue)> = Vec::new();
    push_member(&mut d, "url", JsonValue::Str(String::from_str(url)));
    push_member(&mut d, "cause", JsonValue::Str(String::from_str(cause)));
    assert(view_members(d@) =~= seq![("url"@, SJson::Str(url@)), ("cause"@, SJson::Str(cause@))]);
    error_response("ERR_FETCH_FAILED", d)
}

/// The reply to a request line that is empty or is no request:
/// `ERR_INVALID_REQUEST`, with the parser's message when there is one.
pub fn invalid_request_reply(parse_error: Option<&str>) -> (s: String)
    ensures
        s@ == ser(
            error_json(
                "ERR_INVALID_REQUEST"@,
                match parse_error {
                    Some(e) => seq![("parse_error"@, SJson::Str(e@))],
                    None => Seq::empty(),
                },
            ),
        ),
{
    let mut d: Vec<(String, JsonValue)> = Vec::new();
    match parse_error {
        Some(e) => {
            push_member(&mut d, "parse_error", JsonValue::Str(String::from_str(e)));
            assert(view_members(d@) =~= seq![("parse_error"@, SJson::Str(e@))]);
        },
        None => {
            assert(view_members(d@) =~= Seq::<(Seq<char>, SJson)>::empty());
        },
    }
    error_response("ERR_INVALID_REQUEST", d)
}

} // verus!
