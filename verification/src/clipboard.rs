//! Copying text: to the system's clipboard, and through the terminal, which also
//! reaches the user's own machine from a remote one.

use base64::Engine;
use vstd::prelude::*;
use vstd::string::*;
use vstd::utf8::encode_utf8;

use crate::config::ClipboardSink;

verus! {

/// The text that `base64::engine::general_purpose::STANDARD` encodes bytes to.
pub uninterp spec fn base64_text(bytes: Seq<u8>) -> Seq<char>;

/// Calls `encode` of `base64::engine::general_purpose::STANDARD` on the bytes of
/// a text. The encoding itself is left to that function: what is claimed is that
/// the bytes alone decide it.
#[verifier::external_body]
fn base64_of(text: &str) -> (encoded: String)
    ensures
        encoded@ == base64_text(encode_utf8(text@)),
{
    base64::engine::general_purpose::STANDARD.encode(text.as_bytes())
}

/// What has to be done to copy a text.
pub struct CopyPlan {
    /// To be written to the terminal first. Whether it arrives is not known.
    pub terminal: Option<String>,
    /// To be given to the system's clipboard, whose answer is the answer to the
    /// whole.
    pub system: Option<String>,
}

/// The terminal sequence that copies a text.
pub open spec fn osc52(text: Seq<char>) -> Seq<char> {
    "\x1b]52;c;"@ + base64_text(encode_utf8(text)) + "\x07"@
}

/// The terminal sequence around an encoded text.
pub fn osc52_sequence(encoded: &str) -> (sequence: String)
    ensures
        sequence@ == "\x1b]52;c;"@ + encoded@ + "\x07"@,
{
    let mut sequence = "\x1b]52;c;".to_string();
    sequence.append(encoded);
    sequence.append("\x07");
    sequence
}

/// How a text is copied to a sink.
pub fn copy(text: &str, sink: ClipboardSink) -> (plan: CopyPlan)
    ensures
        plan.terminal is Some <==> sink != ClipboardSink::System,
        plan.terminal matches Some(sequence) ==> sequence@ == osc52(text@),
        plan.system is Some <==> sink != ClipboardSink::Osc52,
        plan.system matches Some(copied) ==> copied@ == text@,
{
    match sink {
        ClipboardSink::System => CopyPlan { terminal: None, system: Some(text.to_string()) },
        ClipboardSink::Osc52 => CopyPlan {
            terminal: Some(osc52_sequence(base64_of(text).as_str())),
            system: None,
        },
        ClipboardSink::Both => CopyPlan {
            terminal: Some(osc52_sequence(base64_of(text).as_str())),
            system: Some(text.to_string()),
        },
    }
}

} // verus!
