//! Injection of a frontend-configuration script block into HTML documents
//! delivered as byte streams.
//!
//! The crate has two components, composed linearly:
//! - a script block builder: a pure function from an environment map to the
//!   serialized `<script>` element text;
//! - a streaming HTML injector: an incremental scanner that consumes a byte
//!   stream in arbitrary chunks and emits the same bytes with the script
//!   block spliced in immediately after the closing `>` of the first
//!   `<head ...>` opening tag, if one occurs.
//!
//! Every byte of the original input appears in the output, in original
//! order; only the script block is added, exactly once, at the head
//! injection point. An input with no `<head>` opening tag passes through
//! byte-identical.

use vstd::prelude::*;
use vstd::utf8::encode_utf8;

pub mod inject;
pub mod scan;
pub mod script;
pub mod serve;

verus! {

/// Map of values that will be provided as environment-variable-like global
/// variables to the frontend. Held as a sequence of key/value entries; the
/// script block lists them in this order. Logically immutable for the
/// lifetime of a request.
#[derive(Debug, Clone)]
pub struct FrontedEnvironment(pub Vec<(String, String)>);

impl FrontedEnvironment {
    /// The entries as mathematical character sequences.
    pub open spec fn entries(self) -> Seq<(Seq<char>, Seq<char>)> {
        self.0@.map_values(|e: (String, String)| (e.0@, e.1@))
    }
}

/// `std::io::Error`, declared opaquely so that the result type of
/// [`inject_environment_script_tag`] can name it; no function of this crate
/// ever produces a value of it.
#[verifier::external_type_specification]
#[verifier::external_body]
pub struct ExIoError(std::io::Error);

/// Rewrites HTML to inject a `<script>` tag (which contains global JS
/// variables that act like environment variables) into the `<head>` tag:
/// appends to `output` the bytes of `input` with the script block for
/// `frontend_env` spliced in immediately after the closing `>` of the first
/// `<head ...>` opening tag, or `input` unchanged when no such tag occurs.
/// Always succeeds: any byte sequence is accepted, and an inconclusive head
/// detection means passthrough, never an error.
pub fn inject_environment_script_tag(
    input: &[u8],
    output: &mut Vec<u8>,
    frontend_env: &FrontedEnvironment,
) -> (r: std::io::Result<()>)
    ensures
        r is Ok,
        final(output)@ == old(output)@ + scan::injected_output(
            input@,
            encode_utf8(script::script_block_text(frontend_env.entries())),
        ),
{
    let script = script::build_script_block(frontend_env);
    inject::transform(input, script.as_str().as_bytes(), output);
    Ok(())
}

} // verus!
