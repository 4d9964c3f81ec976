//! What commands print, and what is made of it.
use vstd::prelude::*;
use vstd::string::*;
use vstd::utf8::*;

use crate::sample::Sample;
use crate::text::{trim, Class};

verus! {

use crate::text::trimmed;

/// What a command left behind.
pub struct Output {
    /// Whether it succeeded.
    pub success: bool,
    /// What it printed.
    pub stdout: Vec<u8>,
    /// What it complained about.
    pub stderr: Vec<u8>,
}

/// The text of `bytes`, with replacement characters for what is not UTF-8.
pub uninterp spec fn lossy_text(bytes: Seq<u8>) -> Seq<char>;

/// Reads bytes as text: `String::from_utf8_lossy`. Its result depends on the bytes alone, and it
/// is their decoding where they are UTF-8. Which replacement characters stand for what else is
/// left unsaid.
#[verifier::external_body]
pub(crate) fn read_lossy(bytes: &Vec<u8>) -> (text: String)
    ensures
        text@ == lossy_text(bytes@),
        valid_utf8(bytes@) ==> text@ == decode_utf8(bytes@),
{
    String::from_utf8_lossy(bytes).into_owned()
}

/// Where a listing of the windows comes from.
pub enum Listing {
    /// It was given as a text.
    Given(String),
    /// A command printed it.
    Printed(Output),
    /// The command could not be started; why, in words.
    NotStarted(String),
}

/// Whether `result` is the sample that `stdout` lists where the command succeeded, and else an
/// error with what it complained about.
pub open spec fn samples(
    result: Result<Sample, String>,
    success: bool,
    stdout: Seq<char>,
    stderr: Seq<char>,
) -> bool {
    match result {
        Ok(sample) => success && sample.lists(stdout),
        Err(why) => !success && why@ == "sample command failed: "@ + trimmed(stderr, Class::Space),
    }
}

/// The sample that a command printed, or why there is none.
pub fn sample_printed(success: bool, stdout: &str, stderr: &str) -> (result: Result<Sample, String>)
    ensures
        samples(result, success, stdout@, stderr@),
{
    if !success {
        let mut why = "sample command failed: ".to_string();
        why.append(trim(stderr, Class::Space));
        return Err(why);
    }
    Ok(Sample::parse(stdout))
}

/// The sample that a listing gives, or why there is none.
pub fn sample(listing: Listing) -> (result: Result<Sample, String>)
    ensures
        match listing {
            Listing::Given(raw) => result matches Ok(sample) && sample.lists(raw@),
            Listing::Printed(output) => samples(
                result,
                output.success,
                lossy_text(output.stdout@),
                lossy_text(output.stderr@),
            ),
            Listing::NotStarted(cause) => result matches Err(why) && why@
                == "sample command failed to start: "@ + cause@,
        },
{
    match listing {
        Listing::Given(raw) => Ok(Sample::parse(raw.as_str())),
        Listing::Printed(output) => sample_printed(
            output.success,
            read_lossy(&output.stdout).as_str(),
            read_lossy(&output.stderr).as_str(),
        ),
        Listing::NotStarted(cause) => {
            let mut why = "sample command failed to start: ".to_string();
            why.append(cause.as_str());
            Err(why)
        },
    }
}

} // verus!
