//! Decisions for the serving collaborator.
//!
//! The surrounding file server hands every response body either through the
//! injector or through untouched, depending on the content-type label, and
//! must drop a fixed content-length header exactly when the body was
//! transformed (the output length is no longer predictable in advance).
//! These decisions are pure functions of the label and stand here; the I/O
//! around them does not.

use vstd::prelude::*;
use vstd::string::StringSliceAdditionalSpecFns;
use vstd::utf8::{encode_utf8, encode_utf8_decode_utf8, is_ascii_chars, is_ascii_chars_encode_utf8};

verus! {

/// The exact content-type label that marks a response body as HTML.
pub open spec fn html_marker() -> Seq<char> {
    "text/html"@
}

/// Directive to the serving collaborator about the response headers.
#[derive(Debug, Clone, Copy, PartialEq, Eq, Structural)]
pub enum HeaderDirective {
    /// The body is transformed: a fixed content-length header no longer
    /// matches the body and must be dropped.
    DropContentLength,
    /// The body passes through untouched: retain all headers unchanged.
    RetainAll,
}

/// Whether a response body with the given content-type label is routed
/// through the injector: exactly the label `text/html` is.
pub fn is_html_content_type(content_type: &str) -> (r: bool)
    ensures
        r == (content_type@ == html_marker()),
{
    proof {
        reveal_strlit("text/html");
    }
    let bytes = content_type.as_bytes();
    let r = bytes.len() == 9 && bytes[0] == 116 && bytes[1] == 101 && bytes[2] == 120 && bytes[3]
        == 116 && bytes[4] == 47 && bytes[5] == 104 && bytes[6] == 116 && bytes[7] == 109
        && bytes[8] == 108;
    proof {
        let m = html_marker();
        assert(is_ascii_chars(m));
        is_ascii_chars_encode_utf8(m);
        assert(encode_utf8(m).len() == 9);
        assert(encode_utf8(m)[0] == 116 && encode_utf8(m)[1] == 101 && encode_utf8(m)[2] == 120
            && encode_utf8(m)[3] == 116 && encode_utf8(m)[4] == 47 && encode_utf8(m)[5] == 104
            && encode_utf8(m)[6] == 116 && encode_utf8(m)[7] == 109 && encode_utf8(m)[8] == 108);
        if r {
            assert(bytes@ =~= encode_utf8(m));
            encode_utf8_decode_utf8(content_type@);
            encode_utf8_decode_utf8(m);
            assert(content_type@ == m);
        } else {
            if content_type@ == m {
                assert(bytes@ == encode_utf8(m));
            }
        }
    }
    r
}

/// The header directive for a response with the given content-type label:
/// drop the content-length header exactly when the body goes through the
/// injector, retain all headers unchanged otherwise.
pub fn header_directive(content_type: &str) -> (d: HeaderDirective)
    ensures
        d == (if content_type@ == html_marker() {
            HeaderDirective::DropContentLength
        } else {
            HeaderDirective::RetainAll
        }),
{
    if is_html_content_type(content_type) {
        HeaderDirective::DropContentLength
    } else {
        HeaderDirective::RetainAll
    }
}

} // verus!
