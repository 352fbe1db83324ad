//! A snapshot of the rules: an index, the time of the checkpoint it was built
//! for, and a label that shows that time to users.

use vstd::prelude::*;
use crate::index::RuleIndex;

verus! {

/// The date and time, in UTC, of the instant `nanos` nanoseconds after the
/// Unix epoch, as `chrono` writes it: the date, a space, and the time of day
/// with as many decimals of the second as the instant needs.
pub uninterp spec fn datetime_text(nanos: i64) -> Seq<char>;

/// `chrono::DateTime::from_timestamp_nanos`, which accepts every `i64`, then
/// `naive_utc` and `to_string` on what it gives: the text depends on `nanos`
/// alone.
#[verifier::external_body]
fn datetime_label(nanos: i64) -> (label: String)
    ensures
        label@ == datetime_text(nanos),
{
    chrono::DateTime::from_timestamp_nanos(nanos).naive_utc().to_string()
}

/// One fully built set of rules. It is never changed after it is made; the
/// server replaces it as a whole.
#[derive(Debug)]
pub struct RuleSnapshot {
    timestamp: i64,
    index: RuleIndex,
    label: String,
}

/// What a snapshot holds.
pub struct SnapshotView {
    pub timestamp: i64,
    pub index: Map<Seq<Seq<char>>, Set<Seq<char>>>,
    pub label: Seq<char>,
}

/// The snapshot with the given time and index; the label follows from the time.
pub open spec fn snapshot_of(
    timestamp: i64,
    index: Map<Seq<Seq<char>>, Set<Seq<char>>>,
) -> SnapshotView {
    SnapshotView { timestamp, index, label: datetime_text(timestamp) }
}

impl View for RuleSnapshot {
    type V = SnapshotView;

    closed spec fn view(&self) -> SnapshotView {
        SnapshotView { timestamp: self.timestamp, index: self.index@, label: self.label@ }
    }
}

impl RuleSnapshot {
    #[verifier::type_invariant]
    spec fn labelled(&self) -> bool {
        self.label@ == datetime_text(self.timestamp)
    }

    /// The snapshot of `index` for the checkpoint written at `timestamp`.
    pub fn new(timestamp: i64, index: RuleIndex) -> (snapshot: RuleSnapshot)
        ensures
            snapshot@ == snapshot_of(timestamp, index@),
    {
        let label = datetime_label(timestamp);
        RuleSnapshot { timestamp, index, label }
    }

    /// The time of the checkpoint that the snapshot was built for.
    pub fn timestamp(&self) -> (timestamp: i64)
        ensures
            timestamp == self@.timestamp,
    {
        self.timestamp
    }

    /// The rules.
    pub fn index(&self) -> (index: &RuleIndex)
        ensures
            index@ == self@.index,
    {
        &self.index
    }

    /// The label shown with every answer computed from this snapshot.
    pub fn label(&self) -> (label: &str)
        ensures
            label@ == self@.label,
            label@ == datetime_text(self@.timestamp),
    {
        proof {
            use_type_invariant(self);
        }
        self.label.as_str()
    }
}

} // verus!
