//! The checkpoint file: where it lies, what it says, and when it is rewritten.
//!
//! A checkpoint is one line of three fields separated by white space: the
//! version of the producer, the dataset it worked on, and the time at which it
//! finished, in nanoseconds since the Unix epoch.

use vstd::prelude::*;
use vstd::string::*;
use crate::decimal::{
    decimal_string, decimal_text, lemma_decimal_text_value, lemma_parse_decimal_text,
    parse_i64, parse_number,
};
use crate::fields::{
    fields, is_whitespace, lemma_run_length_is, split_whitespace,
};
use crate::text::{str_same, texts};

verus! {

/// The version that the producer writes into its checkpoints.
pub const PRODUCER_VERSION: &'static str = "0.1.0";

/// Why a checkpoint could not be read.
#[derive(Clone, Copy, Debug, PartialEq, Eq, Structural)]
pub enum CheckpointError {
    /// The checkpoint has no field at all.
    MissingVersion,
    /// The checkpoint ends after the producer's version.
    MissingDataset,
    /// The checkpoint has fewer than three fields.
    MissingTimestamp,
    /// The third field is not a number that fits a timestamp.
    InvalidTimestamp,
}

impl CheckpointError {
    /// A sentence for the log.
    pub fn message(&self) -> (text: &'static str)
        ensures
            text@ == match *self {
                CheckpointError::MissingVersion =>
                    "No previous ML processor version in checkpoint file"@,
                CheckpointError::MissingDataset => "No previous dataset url in checkpoint file"@,
                CheckpointError::MissingTimestamp => "No timestamp found"@,
                CheckpointError::InvalidTimestamp => "Failed to parse timestamp number"@,
            },
    {
        match self {
            CheckpointError::MissingVersion => "No previous ML processor version in checkpoint file",
            CheckpointError::MissingDataset => "No previous dataset url in checkpoint file",
            CheckpointError::MissingTimestamp => "No timestamp found",
            CheckpointError::InvalidTimestamp => "Failed to parse timestamp number",
        }
    }
}

/// The time recorded in a checkpoint: its third field, read as a number.
pub open spec fn timestamp_of(content: Seq<char>) -> Result<i64, CheckpointError> {
    let f = fields(content);
    if f.len() < 3 {
        Err(CheckpointError::MissingTimestamp)
    } else {
        match parse_i64(f[2]) {
            Some(t) => Ok(t),
            None => Err(CheckpointError::InvalidTimestamp),
        }
    }
}

/// Reads the time recorded in the checkpoint `content`.
pub fn checkpoint_timestamp(content: &str) -> (timestamp: Result<i64, CheckpointError>)
    ensures
        timestamp == timestamp_of(content@),
{
    let f = split_whitespace(content);
    if f.len() < 3 {
        return Err(CheckpointError::MissingTimestamp);
    }
    assert(texts(f@)[2] == f@[2]@);
    match parse_number(f[2].as_str()) {
        Some(t) => Ok(t),
        None => Err(CheckpointError::InvalidTimestamp),
    }
}

/// Whether a checkpoint was written by this version of the producer for the
/// dataset `dataset_url`. A checkpoint of another version does not match,
/// whatever else it holds.
pub open spec fn matches_configuration(
    dataset_url: Seq<char>,
    content: Seq<char>,
) -> Result<bool, CheckpointError> {
    let f = fields(content);
    if f.len() == 0 {
        Err(CheckpointError::MissingVersion)
    } else if f[0] != PRODUCER_VERSION@ {
        Ok(false)
    } else if f.len() == 1 {
        Err(CheckpointError::MissingDataset)
    } else {
        Ok(f[1] == dataset_url)
    }
}

/// Checks whether the checkpoint `content` has the configuration in use.
pub fn check_checkpoint(dataset_url: &str, content: &str) -> (same: Result<bool, CheckpointError>)
    ensures
        same == matches_configuration(dataset_url@, content@),
{
    let f = split_whitespace(content);
    if f.len() == 0 {
        return Err(CheckpointError::MissingVersion);
    }
    assert(texts(f@)[0] == f@[0]@);
    if !str_same(f[0].as_str(), PRODUCER_VERSION) {
        return Ok(false);
    }
    if f.len() == 1 {
        return Err(CheckpointError::MissingDataset);
    }
    assert(texts(f@)[1] == f@[1]@);
    Ok(str_same(f[1].as_str(), dataset_url))
}

/// The line that records a run on `dataset_url` that ended at `nanos`.
pub open spec fn checkpoint_line(dataset_url: Seq<char>, nanos: nat) -> Seq<char> {
    PRODUCER_VERSION@ + seq![' '] + dataset_url + seq![' '] + decimal_text(nanos) + seq!['\n']
}

/// The content of the checkpoint for a run on `dataset_url` that ended
/// `nanos` nanoseconds after the Unix epoch.
pub fn write_checkpoint(dataset_url: &str, nanos: u128) -> (content: String)
    ensures
        content@ == checkpoint_line(dataset_url@, nanos as nat),
{
    proof {
        reveal_strlit(" ");
        reveal_strlit("\n");
        assert(" "@ =~= seq![' ']);
        assert("\n"@ =~= seq!['\n']);
    }
    let mut content = String::from_str(PRODUCER_VERSION);
    content.append(" ");
    content.append(dataset_url);
    content.append(" ");
    let digits = decimal_string(nanos);
    content.append(digits.as_str());
    content.append("\n");
    content
}

/// What the producer writes after looking at the checkpoint it found, if it
/// found one: nothing where that checkpoint has the configuration in use, a
/// new checkpoint where it has not or cannot be read.
pub open spec fn next_checkpoint(
    dataset_url: Seq<char>,
    previous: Option<Seq<char>>,
    nanos: nat,
) -> Option<Seq<char>> {
    if previous is Some && matches_configuration(dataset_url, previous->0) == Ok::<
        bool,
        CheckpointError,
    >(true) {
        None
    } else {
        Some(checkpoint_line(dataset_url, nanos))
    }
}

/// One run of the producer at time `nanos`, with the content of the checkpoint
/// file as it was found, `None` if it could not be read. Returns the content
/// to write, or `None` where the checkpoint is up to date.
pub fn run(dataset_url: &str, previous: Option<&str>, nanos: u128) -> (written: Option<String>)
    ensures
        match written {
            Some(content) => next_checkpoint(
                dataset_url@,
                match previous {
                    Some(p) => Some(p@),
                    None => None,
                },
                nanos as nat,
            ) == Some(content@),
            None => next_checkpoint(
                dataset_url@,
                match previous {
                    Some(p) => Some(p@),
                    None => None,
                },
                nanos as nat,
            ) is None,
        },
{
    let up_to_date = match previous {
        Some(content) => match check_checkpoint(dataset_url, content) {
            Ok(same) => same,
            Err(_) => false,
        },
        None => false,
    };
    if up_to_date {
        None
    } else {
        Some(write_checkpoint(dataset_url, nanos))
    }
}

/// Whether `w` can stand as one field: it is not empty and holds no white space.
pub open spec fn is_word(w: Seq<char>) -> bool {
    w.len() > 0 && forall|i: int| 0 <= i < w.len() ==> !is_whitespace(#[trigger] w[i])
}

/// A word followed by white space and more text is the first field of the whole.
pub proof fn lemma_fields_after_word(w: Seq<char>, space: char, rest: Seq<char>)
    requires
        is_word(w),
        is_whitespace(space),
    ensures
        fields(w + seq![space] + rest) == seq![w] + fields(rest),
{
    let s = w + seq![space] + rest;
    let n = w.len() as int;
    assert forall|k: int| 0 <= k < n implies !is_whitespace(#[trigger] s[k]) by {
        assert(s[k] == w[k]);
    }
    assert(s[n] == space);
    lemma_run_length_is(s, n);
    assert(s.take(n) =~= w);
    let tail = s.skip(n);
    assert(tail[0] == space);
    assert(tail.drop_first() =~= rest);
    assert(fields(tail) == fields(rest));
    assert(!is_whitespace(s[0]));
}

/// The fields of a checkpoint line are the version, the dataset and the time.
pub proof fn lemma_checkpoint_line_fields(dataset_url: Seq<char>, nanos: nat)
    requires
        is_word(dataset_url),
    ensures
        fields(checkpoint_line(dataset_url, nanos)) == seq![
            PRODUCER_VERSION@,
            dataset_url,
            decimal_text(nanos),
        ],
{
    reveal_strlit("0.1.0");
    let version = PRODUCER_VERSION@;
    let digits = decimal_text(nanos);
    lemma_decimal_text_value(nanos);
    assert(is_word(version));
    assert(is_word(digits)) by {
        assert forall|i: int| 0 <= i < digits.len() implies !is_whitespace(#[trigger] digits[i]) by {
            assert(crate::decimal::is_digit(digits[i]));
        }
    }
    let end = Seq::<char>::empty();
    let r3 = digits + seq!['\n'] + end;
    let r2 = dataset_url + seq![' '] + r3;
    let r1 = version + seq![' '] + r2;
    assert(r1 =~= checkpoint_line(dataset_url, nanos));
    lemma_fields_after_word(version, ' ', r2);
    lemma_fields_after_word(dataset_url, ' ', r3);
    lemma_fields_after_word(digits, '\n', end);
    assert(fields(end) =~= Seq::<Seq<char>>::empty());
    assert(fields(r1) =~= seq![version, dataset_url, digits]);
}

/// A checkpoint that was written for a dataset is found to have that
/// configuration, and the time read from it is the time written.
pub proof fn lemma_checkpoint_round_trip(dataset_url: Seq<char>, nanos: nat)
    requires
        is_word(dataset_url),
        nanos <= i64::MAX,
    ensures
        matches_configuration(dataset_url, checkpoint_line(dataset_url, nanos)) == Ok::<
            bool,
            CheckpointError,
        >(true),
        timestamp_of(checkpoint_line(dataset_url, nanos)) == Ok::<i64, CheckpointError>(
            nanos as i64,
        ),
{
    lemma_checkpoint_line_fields(dataset_url, nanos);
    lemma_parse_decimal_text(nanos);
}

} // verus!
