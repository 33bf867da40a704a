//! Logical timestamps that order packets on a channel.

use vstd::prelude::*;

verus! {

/// Ordering key of a packet: a timestamp in nanoseconds plus an optional
/// sequence id that breaks ties between packets produced in the same instant.
#[derive(Clone, Copy, Debug, PartialEq, Eq, Structural)]
pub struct DataVersion {
    pub timestamp_ns: u128,
    pub sequence: Option<u64>,
}

impl DataVersion {
    /// Sequence id used for tie-breaking; an absent id orders first.
    pub open spec fn spec_seq_id(self) -> u64 {
        match self.sequence {
            Some(s) => s,
            None => 0,
        }
    }

    /// Strict order: by timestamp, ties broken by sequence id.
    pub open spec fn spec_lt(self, other: DataVersion) -> bool {
        ||| self.timestamp_ns < other.timestamp_ns
        ||| (self.timestamp_ns == other.timestamp_ns && self.spec_seq_id() < other.spec_seq_id())
    }

    /// Non-strict order on the (timestamp, sequence) key.
    pub open spec fn spec_le(self, other: DataVersion) -> bool {
        !other.spec_lt(self)
    }

    /// Absolute distance between two timestamps, in nanoseconds.
    pub open spec fn spec_distance(self, other: DataVersion) -> int {
        if self.timestamp_ns >= other.timestamp_ns {
            self.timestamp_ns - other.timestamp_ns
        } else {
            other.timestamp_ns - self.timestamp_ns
        }
    }

    pub fn new(timestamp_ns: u128) -> (v: DataVersion)
        ensures
            v.timestamp_ns == timestamp_ns,
            v.sequence is None,
    {
        DataVersion { timestamp_ns, sequence: None }
    }

    pub fn with_sequence(timestamp_ns: u128, sequence: u64) -> (v: DataVersion)
        ensures
            v.timestamp_ns == timestamp_ns,
            v.sequence == Some(sequence),
    {
        DataVersion { timestamp_ns, sequence: Some(sequence) }
    }

    pub fn seq_id(&self) -> (s: u64)
        ensures
            s == self.spec_seq_id(),
    {
        match self.sequence {
            Some(s) => s,
            None => 0,
        }
    }

    pub fn lt(&self, other: &DataVersion) -> (r: bool)
        ensures
            r == self.spec_lt(*other),
    {
        if self.timestamp_ns < other.timestamp_ns {
            true
        } else if self.timestamp_ns == other.timestamp_ns {
            self.seq_id() < other.seq_id()
        } else {
            false
        }
    }

    pub fn le(&self, other: &DataVersion) -> (r: bool)
        ensures
            r == self.spec_le(*other),
    {
        !other.lt(self)
    }

    /// Distance between the timestamps, saturating nowhere: the result is
    /// exact because the larger timestamp is subtracted from.
    pub fn distance_ns(&self, other: &DataVersion) -> (d: u128)
        ensures
            d == self.spec_distance(*other),
    {
        if self.timestamp_ns >= other.timestamp_ns {
            self.timestamp_ns - other.timestamp_ns
        } else {
            other.timestamp_ns - self.timestamp_ns
        }
    }
}

/// Law: the order on versions is total — any two versions are comparable,
/// and two versions below each other share their ordering key.
pub proof fn lemma_version_order_total(a: DataVersion, b: DataVersion)
    ensures
        a.spec_le(b) || b.spec_le(a),
        a.spec_le(b) && b.spec_le(a) ==> a.timestamp_ns == b.timestamp_ns
            && a.spec_seq_id() == b.spec_seq_id(),
{
}

/// Law: the order on versions is transitive.
pub proof fn lemma_version_order_trans(a: DataVersion, b: DataVersion, c: DataVersion)
    requires
        a.spec_le(b),
        b.spec_le(c),
    ensures
        a.spec_le(c),
{
}

} // verus!
