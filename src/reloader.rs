//! The reload command run after a zone was written, and what its exit
//! status and output make of a reload.

use vstd::prelude::*;

verus! {

/// The text that `String::from_utf8_lossy` makes of bytes.
pub uninterp spec fn utf8_lossy(b: Seq<u8>) -> Seq<char>;

/// A text without leading and trailing whitespace, as `str::trim` gives it.
pub uninterp spec fn trimmed(s: Seq<char>) -> Seq<char>;

/// Relies on String::from_utf8_lossy: the bytes decoded as UTF-8, with each
/// invalid sequence replaced; the result depends on the bytes alone.
#[verifier::external_body]
fn lossy_text(b: &[u8]) -> (r: String)
    ensures
        r@ == utf8_lossy(b@),
{
    String::from_utf8_lossy(b).into_owned()
}

/// Relies on str::trim: the text without leading and trailing whitespace,
/// which depends on the text alone.
#[verifier::external_body]
fn trim_text(s: &String) -> (r: String)
    ensures
        r@ == trimmed(s@),
{
    s.trim().to_string()
}

/// The command that reloads a zone: its program and arguments.
#[derive(Clone, Debug, PartialEq, Eq)]
pub struct Reloader {
    pub zone_name: String,
    pub bin: String,
    pub args: Vec<String>,
}

/// A failed reload, with the output of the command kept for diagnosis.
#[derive(Clone, Debug, PartialEq, Eq)]
pub enum ReloadError {
    NonZeroExit { stdout: String, stderr: String },
}

impl Reloader {
    /// What a run of the reload command comes to: success when it exited
    /// with status zero, else a failure that carries its standard output and
    /// standard error, decoded and trimmed.
    pub fn outcome(&self, success: bool, stdout: &[u8], stderr: &[u8]) -> (r: Result<
        (),
        ReloadError,
    >)
        ensures
            match r {
                Ok(()) => success,
                Err(ReloadError::NonZeroExit { stdout: out, stderr: err }) => !success && out@
                    == trimmed(utf8_lossy(stdout@)) && err@ == trimmed(utf8_lossy(stderr@)),
            },
    {
        if success {
            return Ok(());
        }
        let out = lossy_text(stdout);
        let err = lossy_text(stderr);
        Err(ReloadError::NonZeroExit { stdout: trim_text(&out), stderr: trim_text(&err) })
    }
}

} // verus!
