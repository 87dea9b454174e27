//! Strongly-typed identifiers.
//!
//! Every identifier is a newtype around `String`, so a `SourceId` cannot be
//! handed where a `TrackId` is expected. Identifiers are plain strings, not
//! random values, so scenarios and replay logs can pin them; the sequential
//! form `<prefix>-<n padded to six digits>` is the same on every run.

use vstd::prelude::*;
use vstd::string::*;

use crate::text::{decimal, push_padded_decimal, zero_pad, lemma_padded_decimal_injective};

verus! {

/// The text of the sequential identifier number `n` under `prefix`,
/// e.g. `obs-000007`.
pub open spec fn seq_text(prefix: Seq<char>, n: nat) -> Seq<char> {
    prefix + seq!['-'] + zero_pad(decimal(n), 6)
}

/// Distinct sequence numbers give distinct identifiers under one prefix.
pub proof fn lemma_seq_text_injective(prefix: Seq<char>, a: nat, b: nat)
    requires
        seq_text(prefix, a) == seq_text(prefix, b),
    ensures
        a == b,
{
    let pa = prefix + seq!['-'];
    let ta = zero_pad(decimal(a), 6);
    let tb = zero_pad(decimal(b), 6);
    assert(seq_text(prefix, a).subrange(pa.len() as int, seq_text(prefix, a).len() as int) =~= ta);
    assert(seq_text(prefix, b).subrange(pa.len() as int, seq_text(prefix, b).len() as int) =~= tb);
    lemma_padded_decimal_injective(a, b, 6);
}

/// Identifies a registered data source (one sensor, feed or operator console).
#[derive(Debug, PartialEq, Eq, PartialOrd, Ord, Hash)]
pub struct SourceId(pub String);

impl SourceId {
    pub fn new(s: &str) -> (id: SourceId)
        ensures
            id@ == s@,
    {
        SourceId(String::from_str(s))
    }

    /// The sequential identifier `src-<n>`, `n` padded to six digits.
    pub fn seq(n: u64) -> (id: SourceId)
        ensures
            id@ == seq_text("src"@, n as nat),
    {
        proof {
            reveal_strlit("src");
            reveal_strlit("-");
        }
        let mut s = String::from_str("src");
        s.append("-");
        push_padded_decimal(&mut s, n, 6);
        assert(s@ =~= seq_text("src"@, n as nat));
        SourceId(s)
    }

    pub fn as_str(&self) -> (s: &str)
        ensures
            s@ == self@,
    {
        self.0.as_str()
    }
}

impl View for SourceId {
    type V = Seq<char>;

    open spec fn view(&self) -> Seq<char> {
        self.0@
    }
}

impl Clone for SourceId {
    fn clone(&self) -> (id: Self)
        ensures
            id == *self,
    {
        SourceId(self.0.clone())
    }
}

/// Identifies a single observation emitted by a source.
#[derive(Debug, PartialEq, Eq, PartialOrd, Ord, Hash)]
pub struct ObservationId(pub String);

impl ObservationId {
    pub fn new(s: &str) -> (id: ObservationId)
        ensures
            id@ == s@,
    {
        ObservationId(String::from_str(s))
    }

    /// The sequential identifier `obs-<n>`, `n` padded to six digits.
    pub fn seq(n: u64) -> (id: ObservationId)
        ensures
            id@ == seq_text("obs"@, n as nat),
    {
        proof {
            reveal_strlit("obs");
            reveal_strlit("-");
        }
        let mut s = String::from_str("obs");
        s.append("-");
        push_padded_decimal(&mut s, n, 6);
        assert(s@ =~= seq_text("obs"@, n as nat));
        ObservationId(s)
    }

    pub fn as_str(&self) -> (s: &str)
        ensures
            s@ == self@,
    {
        self.0.as_str()
    }
}

impl View for ObservationId {
    type V = Seq<char>;

    open spec fn view(&self) -> Seq<char> {
        self.0@
    }
}

impl Clone for ObservationId {
    fn clone(&self) -> (id: Self)
        ensures
            id == *self,
    {
        ObservationId(self.0.clone())
    }
}

/// Stable identity of a fused track across its versions.
#[derive(Debug, PartialEq, Eq, PartialOrd, Ord, Hash)]
pub struct TrackId(pub String);

impl TrackId {
    pub fn new(s: &str) -> (id: TrackId)
        ensures
            id@ == s@,
    {
        TrackId(String::from_str(s))
    }

    /// The sequential identifier `trk-<n>`, `n` padded to six digits.
    pub fn seq(n: u64) -> (id: TrackId)
        ensures
            id@ == seq_text("trk"@, n as nat),
    {
        proof {
            reveal_strlit("trk");
            reveal_strlit("-");
        }
        let mut s = String::from_str("trk");
        s.append("-");
        push_padded_decimal(&mut s, n, 6);
        assert(s@ =~= seq_text("trk"@, n as nat));
        TrackId(s)
    }

    pub fn as_str(&self) -> (s: &str)
        ensures
            s@ == self@,
    {
        self.0.as_str()
    }
}

impl View for TrackId {
    type V = Seq<char>;

    open spec fn view(&self) -> Seq<char> {
        self.0@
    }
}

impl Clone for TrackId {
    fn clone(&self) -> (id: Self)
        ensures
            id == *self,
    {
        TrackId(self.0.clone())
    }
}

/// Identifies a single track hypothesis under consideration.
#[derive(Debug, PartialEq, Eq, PartialOrd, Ord, Hash)]
pub struct HypothesisId(pub String);

impl HypothesisId {
    pub fn new(s: &str) -> (id: HypothesisId)
        ensures
            id@ == s@,
    {
        HypothesisId(String::from_str(s))
    }

    /// The sequential identifier `hyp-<n>`, `n` padded to six digits.
    pub fn seq(n: u64) -> (id: HypothesisId)
        ensures
            id@ == seq_text("hyp"@, n as nat),
    {
        proof {
            reveal_strlit("hyp");
            reveal_strlit("-");
        }
        let mut s = String::from_str("hyp");
        s.append("-");
        push_padded_decimal(&mut s, n, 6);
        assert(s@ =~= seq_text("hyp"@, n as nat));
        HypothesisId(s)
    }

    pub fn as_str(&self) -> (s: &str)
        ensures
            s@ == self@,
    {
        self.0.as_str()
    }
}

impl View for HypothesisId {
    type V = Seq<char>;

    open spec fn view(&self) -> Seq<char> {
        self.0@
    }
}

impl Clone for HypothesisId {
    fn clone(&self) -> (id: Self)
        ensures
            id == *self,
    {
        HypothesisId(self.0.clone())
    }
}

/// Identifies one append-only provenance record.
#[derive(Debug, PartialEq, Eq, PartialOrd, Ord, Hash)]
pub struct ProvenanceId(pub String);

impl ProvenanceId {
    pub fn new(s: &str) -> (id: ProvenanceId)
        ensures
            id@ == s@,
    {
        ProvenanceId(String::from_str(s))
    }

    /// The sequential identifier `prv-<n>`, `n` padded to six digits.
    pub fn seq(n: u64) -> (id: ProvenanceId)
        ensures
            id@ == seq_text("prv"@, n as nat),
    {
        proof {
            reveal_strlit("prv");
            reveal_strlit("-");
        }
        let mut s = String::from_str("prv");
        s.append("-");
        push_padded_decimal(&mut s, n, 6);
        assert(s@ =~= seq_text("prv"@, n as nat));
        ProvenanceId(s)
    }

    pub fn as_str(&self) -> (s: &str)
        ensures
            s@ == self@,
    {
        self.0.as_str()
    }
}

impl View for ProvenanceId {
    type V = Seq<char>;

    open spec fn view(&self) -> Seq<char> {
        self.0@
    }
}

impl Clone for ProvenanceId {
    fn clone(&self) -> (id: Self)
        ensures
            id == *self,
    {
        ProvenanceId(self.0.clone())
    }
}

/// Identifies a recommendation cue surfaced to an operator.
#[derive(Debug, PartialEq, Eq, PartialOrd, Ord, Hash)]
pub struct CueId(pub String);

impl CueId {
    pub fn new(s: &str) -> (id: CueId)
        ensures
            id@ == s@,
    {
        CueId(String::from_str(s))
    }

    /// The sequential identifier `cue-<n>`, `n` padded to six digits.
    pub fn seq(n: u64) -> (id: CueId)
        ensures
            id@ == seq_text("cue"@, n as nat),
    {
        proof {
            reveal_strlit("cue");
            reveal_strlit("-");
        }
        let mut s = String::from_str("cue");
        s.append("-");
        push_padded_decimal(&mut s, n, 6);
        assert(s@ =~= seq_text("cue"@, n as nat));
        CueId(s)
    }

    pub fn as_str(&self) -> (s: &str)
        ensures
            s@ == self@,
    {
        self.0.as_str()
    }
}

impl View for CueId {
    type V = Seq<char>;

    open spec fn view(&self) -> Seq<char> {
        self.0@
    }
}

impl Clone for CueId {
    fn clone(&self) -> (id: Self)
        ensures
            id == *self,
    {
        CueId(self.0.clone())
    }
}

/// Identifies an operator feedback or override event.
#[derive(Debug, PartialEq, Eq, PartialOrd, Ord, Hash)]
pub struct FeedbackId(pub String);

impl FeedbackId {
    pub fn new(s: &str) -> (id: FeedbackId)
        ensures
            id@ == s@,
    {
        FeedbackId(String::from_str(s))
    }

    /// The sequential identifier `fbk-<n>`, `n` padded to six digits.
    pub fn seq(n: u64) -> (id: FeedbackId)
        ensures
            id@ == seq_text("fbk"@, n as nat),
    {
        proof {
            reveal_strlit("fbk");
            reveal_strlit("-");
        }
        let mut s = String::from_str("fbk");
        s.append("-");
        push_padded_decimal(&mut s, n, 6);
        assert(s@ =~= seq_text("fbk"@, n as nat));
        FeedbackId(s)
    }

    pub fn as_str(&self) -> (s: &str)
        ensures
            s@ == self@,
    {
        self.0.as_str()
    }
}

impl View for FeedbackId {
    type V = Seq<char>;

    open spec fn view(&self) -> Seq<char> {
        self.0@
    }
}

impl Clone for FeedbackId {
    fn clone(&self) -> (id: Self)
        ensures
            id == *self,
    {
        FeedbackId(self.0.clone())
    }
}

/// Identifies a replay session.
#[derive(Debug, PartialEq, Eq, PartialOrd, Ord, Hash)]
pub struct SessionId(pub String);

impl SessionId {
    pub fn new(s: &str) -> (id: SessionId)
        ensures
            id@ == s@,
    {
        SessionId(String::from_str(s))
    }

    /// The sequential identifier `ses-<n>`, `n` padded to six digits.
    pub fn seq(n: u64) -> (id: SessionId)
        ensures
            id@ == seq_text("ses"@, n as nat),
    {
        proof {
            reveal_strlit("ses");
            reveal_strlit("-");
        }
        let mut s = String::from_str("ses");
        s.append("-");
        push_padded_decimal(&mut s, n, 6);
        assert(s@ =~= seq_text("ses"@, n as nat));
        SessionId(s)
    }

    pub fn as_str(&self) -> (s: &str)
        ensures
            s@ == self@,
    {
        self.0.as_str()
    }
}

impl View for SessionId {
    type V = Seq<char>;

    open spec fn view(&self) -> Seq<char> {
        self.0@
    }
}

impl Clone for SessionId {
    fn clone(&self) -> (id: Self)
        ensures
            id == *self,
    {
        SessionId(self.0.clone())
    }
}

/// The identifier of the `seq`-th observation emitted by `source`:
/// the source's own identifier, a hyphen and `seq` padded to six digits.
pub fn next_id(source: &SourceId, seq: u64) -> (id: ObservationId)
    ensures
        id@ == seq_text(source@, seq as nat),
{
    proof {
        reveal_strlit("-");
    }
    let mut s = String::from_str(source.as_str());
    s.append("-");
    push_padded_decimal(&mut s, seq, 6);
    assert(s@ =~= seq_text(source@, seq as nat));
    ObservationId(s)
}

} // verus!
