//! Running outside tools: what is run, and what comes back.
use crate::text::{trim, trimmed};
use vstd::prelude::*;
use vstd::utf8::{encode_utf8, valid_utf8};

verus! {

/// Versions of the toolchain.
#[derive(Debug)]
pub struct Versions {
    pub nargo: String,
    pub bb: String,
}

/// A command to run.
#[derive(Debug)]
pub struct Tool {
    pub program: String,
    pub args: Vec<String>,
    /// The directory to run it in, where that is not the current one.
    pub dir: Option<String>,
}

/// What came of running a command.
#[derive(Debug)]
pub enum ToolRun {
    /// It could not be started.
    NotStarted { cause: String },
    /// It ran to its end.
    Exited { success: bool, stdout: Vec<u8>, stderr: Vec<u8> },
}

/// The texts of a list of strings.
pub open spec fn texts(v: Seq<String>) -> Seq<Seq<char>> {
    v.map_values(|s: String| s@)
}

/// What `String::from_utf8_lossy` makes of bytes.
pub uninterp spec fn lossy_text(bytes: Seq<u8>) -> Seq<char>;

/// `String::from_utf8_lossy`: the text that bytes encode. What it puts in the place of bytes that
/// are not UTF-8 depends on the bytes alone; bytes that are UTF-8 it keeps.
#[verifier::external_body]
fn decode_lossy(bytes: &[u8]) -> (r: String)
    ensures
        r@ == lossy_text(bytes@),
        valid_utf8(bytes@) ==> encode_utf8(r@) == bytes@,
{
    String::from_utf8_lossy(bytes).into_owned()
}

/// The text of a tool's output, without the white space around it.
pub fn output_text(bytes: &[u8]) -> (r: String)
    ensures
        r@ == trim(lossy_text(bytes@)),
        valid_utf8(bytes@) ==> encode_utf8(lossy_text(bytes@)) == bytes@,
{
    let text = decode_lossy(bytes);
    trimmed(&text)
}

/// What a spinner shows while `message` is under way and when it has ended.
pub open spec fn ended_text(message: Seq<char>, success: bool) -> Seq<char> {
    (if success {
        "✓ "@
    } else {
        "✗ "@
    }) + message
}

/// What a spinner shows once the work it announced has ended.
pub fn spinner_end(message: &str, success: bool) -> (r: String)
    ensures
        r@ == ended_text(message@, success),
{
    let mark = if success {
        "✓ "
    } else {
        "✗ "
    };
    String::from_str(mark).concat(message)
}

} // verus!
