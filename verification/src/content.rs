//! Which media types announce a body that can be read as JSON, as a form
//! or as multipart data.

use vstd::prelude::*;
use vstd::string::*;
use vstd::utf8::encode_utf8_decode_utf8;

verus! {

/// A JSON body: `application/json`, or an `application` type with the
/// suffix `+json`.
pub open spec fn json_type(top: Seq<char>, sub: Seq<char>, suffix: Option<Seq<char>>) -> bool {
    top == "application"@ && (sub == "json"@ || suffix == Some("json"@))
}

/// A form body: `application/x-www-form-urlencoded`.
pub open spec fn form_type(top: Seq<char>, sub: Seq<char>) -> bool {
    top == "application"@ && sub == "x-www-form-urlencoded"@
}

/// A multipart body: the subtype `multipart` of `application`.
pub open spec fn multipart_type(top: Seq<char>, sub: Seq<char>) -> bool {
    top == "application"@ && sub == "multipart"@
}

/// The text of `s`, if there is one.
pub open spec fn text_of(s: Option<&str>) -> Option<Seq<char>> {
    match s {
        Some(s) => Some(s@),
        None => None,
    }
}

/// Whether `a` and `b` are the same text.
fn same_text(a: &str, b: &str) -> (same: bool)
    ensures
        same == (a@ == b@),
{
    let x = a.as_bytes();
    let y = b.as_bytes();
    proof {
        encode_utf8_decode_utf8(a@);
        encode_utf8_decode_utf8(b@);
    }
    if x.len() != y.len() {
        return false;
    }
    let mut i: usize = 0;
    while i < x.len()
        invariant
            i <= x.len(),
            x.len() == y.len(),
            x@ == a.spec_bytes(),
            y@ == b.spec_bytes(),
            forall|j: int| 0 <= j < i ==> x[j] == y[j],
        decreases x.len() - i,
    {
        if x[i] != y[i] {
            return false;
        }
        i = i + 1;
    }
    proof {
        assert(x@ =~= y@);
    }
    true
}

/// Whether the media type with the top-level type `top`, the subtype `sub`
/// and the suffix `suffix` announces a JSON body. The three are compared as
/// they are given, in the lower case in which a parsed media type holds them.
pub fn is_json(top: &str, sub: &str, suffix: Option<&str>) -> (b: bool)
    ensures
        b == json_type(top@, sub@, text_of(suffix)),
{
    if !same_text(top, "application") {
        return false;
    }
    if same_text(sub, "json") {
        return true;
    }
    match suffix {
        Some(suffix) => same_text(suffix, "json"),
        None => false,
    }
}

/// Whether the media type `top`/`sub` announces a form body.
pub fn is_form(top: &str, sub: &str) -> (b: bool)
    ensures
        b == form_type(top@, sub@),
{
    same_text(top, "application") && same_text(sub, "x-www-form-urlencoded")
}

/// Whether the media type `top`/`sub` announces a multipart body.
pub fn is_multipart(top: &str, sub: &str) -> (b: bool)
    ensures
        b == multipart_type(top@, sub@),
{
    same_text(top, "application") && same_text(sub, "multipart")
}

} // verus!
