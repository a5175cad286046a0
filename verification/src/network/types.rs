//! The records that travel over the overlay and between the node and its
//! host: the payload with its validation rules, the signed envelope, the
//! statistics snapshot, the persisted window and the host's commands.

use crate::encoding::{base64_string, base64_text, encode_base64, is_base64_string};
use crate::identity::{ed25519_signature, signature_verifies, UserIdentity};
use crate::network::digest::{content_address, content_address_of};
use crate::network::text::{contains_pii_marker, has_pii_marker};
use crate::score::{
    score_within, within, MAX_CATEGORY_SCORE_BITS, MAX_SCORE_BITS, ZERO_BITS,
};
use vstd::prelude::*;
use vstd::utf8::encode_utf8;

verus! {

/// Largest number of scores a window keeps per stream.
pub const MAX_SCORES_CAPACITY: usize = 10_000;

/// Seconds by which a timestamp may lie ahead of the clock.
pub const MAX_CLOCK_SKEW_SECS: u64 = 300;

/// The score of one named category; the score is a binary64 bit pattern.
#[derive(Debug)]
pub struct CategoryScore {
    pub category: String,
    pub score: u64,
}

impl View for CategoryScore {
    type V = (Seq<char>, u64);

    open spec fn view(&self) -> (Seq<char>, u64) {
        (self.category@, self.score)
    }
}

impl Clone for CategoryScore {
    fn clone(&self) -> (copy: Self)
        ensures
            copy@ == self@,
    {
        CategoryScore { category: self.category.clone(), score: self.score }
    }
}

/// A manifestation result: a total score, the time it was taken (seconds
/// since the Unix epoch) and the scores of named categories, in their order.
/// Both kinds of score are binary64 bit patterns. A name is meant to stand
/// once; where it stands twice, both scores count.
#[derive(Debug)]
pub struct ManifestationResult {
    pub score: u64,
    pub timestamp: u64,
    pub category_scores: Vec<CategoryScore>,
}

/// What a `ManifestationResult` holds, as plain values.
pub struct ResultView {
    pub score: u64,
    pub timestamp: u64,
    pub category_scores: Seq<(Seq<char>, u64)>,
}

impl View for ManifestationResult {
    type V = ResultView;

    open spec fn view(&self) -> ResultView {
        ResultView {
            score: self.score,
            timestamp: self.timestamp,
            category_scores: self.category_scores@.map_values(|c: CategoryScore| c@),
        }
    }
}

/// Why a result was refused.
#[derive(Debug)]
pub enum ValidationError {
    /// The total score is not within 0 and 10000.
    ScoreOutOfRange { score: u64 },
    /// The system clock stands before the Unix epoch.
    ClockBeforeEpoch,
    /// The timestamp lies more than five minutes ahead of the clock.
    TimestampInFuture { timestamp: u64 },
    /// A category name holds `@` or `http`.
    CategoryPii { category: String },
    /// A category score is not within 0 and 10.
    CategoryScoreOutOfRange { category: String, score: u64 },
}

/// What a `ValidationError` holds, as plain values.
pub enum Violation {
    ScoreOutOfRange { score: u64 },
    ClockBeforeEpoch,
    TimestampInFuture { timestamp: u64 },
    CategoryPii { category: Seq<char> },
    CategoryScoreOutOfRange { category: Seq<char>, score: u64 },
}

impl View for ValidationError {
    type V = Violation;

    open spec fn view(&self) -> Violation {
        match self {
            ValidationError::ScoreOutOfRange { score } => Violation::ScoreOutOfRange {
                score: *score,
            },
            ValidationError::ClockBeforeEpoch => Violation::ClockBeforeEpoch,
            ValidationError::TimestampInFuture { timestamp } => Violation::TimestampInFuture {
                timestamp: *timestamp,
            },
            ValidationError::CategoryPii { category } => Violation::CategoryPii {
                category: category@,
            },
            ValidationError::CategoryScoreOutOfRange {
                category,
                score,
            } => Violation::CategoryScoreOutOfRange { category: category@, score: *score },
        }
    }
}

impl Violation {
    /// The text that reports the violation. A violation of a category's name
    /// is reported with the word `PII`.
    pub open spec fn message(self) -> Seq<char> {
        match self {
            Violation::ScoreOutOfRange { .. } => "Score is out of range (0 - 10000)"@,
            Violation::ClockBeforeEpoch => "System clock is before the Unix epoch"@,
            Violation::TimestampInFuture { .. } => "Timestamp is in the future"@,
            Violation::CategoryPii { category } => "Category '"@ + category
                + "' contains potential PII or invalid characters"@,
            Violation::CategoryScoreOutOfRange { category, .. } => "Category '"@ + category
                + "' score is out of range (0 - 10)"@,
        }
    }
}

impl ValidationError {
    /// The text that reports the error.
    pub fn message(&self) -> (text: String)
        ensures
            text@ == self@.message(),
    {
        match self {
            ValidationError::ScoreOutOfRange { .. } => String::from_str(
                "Score is out of range (0 - 10000)",
            ),
            ValidationError::ClockBeforeEpoch => String::from_str(
                "System clock is before the Unix epoch",
            ),
            ValidationError::TimestampInFuture { .. } => String::from_str(
                "Timestamp is in the future",
            ),
            ValidationError::CategoryPii { category } => {
                let mut text = String::from_str("Category '");
                text.append(category.as_str());
                text.append("' contains potential PII or invalid characters");
                text
            },
            ValidationError::CategoryScoreOutOfRange { category, .. } => {
                let mut text = String::from_str("Category '");
                text.append(category.as_str());
                text.append("' score is out of range (0 - 10)");
                text
            },
        }
    }
}

impl ResultView {
    /// The total score lies within 0 and 10000.
    pub open spec fn score_ok(self) -> bool {
        score_within(self.score, ZERO_BITS, MAX_SCORE_BITS)
    }

    /// The timestamp lies at most five minutes ahead of `now`.
    pub open spec fn timestamp_ok(self, now: u64) -> bool {
        self.timestamp <= now + MAX_CLOCK_SKEW_SECS
    }

    /// The category at index `i` has a clean name and a score within 0 and 10.
    pub open spec fn category_ok(self, i: int) -> bool {
        &&& !has_pii_marker(self.category_scores[i].0)
        &&& score_within(self.category_scores[i].1, ZERO_BITS, MAX_CATEGORY_SCORE_BITS)
    }

    /// Every category is in order.
    pub open spec fn categories_ok(self) -> bool {
        forall|i: int| 0 <= i < self.category_scores.len() ==> self.category_ok(i)
    }

    /// The category at index `i` is the first that is not in order.
    pub open spec fn first_bad_category(self, i: int) -> bool {
        &&& 0 <= i < self.category_scores.len()
        &&& !self.category_ok(i)
        &&& forall|j: int| 0 <= j < i ==> self.category_ok(j)
    }

    /// The result passes validation at the time `now`.
    pub open spec fn valid_at(self, now: u64) -> bool {
        &&& self.score_ok()
        &&& self.timestamp_ok(now)
        &&& self.categories_ok()
    }

    /// Whether `v` is what validation at the time `now` reports: the total
    /// score is looked at first, then the timestamp, then the categories in
    /// their order, and of a category its name before its score.
    pub open spec fn reports(self, now: u64, v: Violation) -> bool {
        match v {
            Violation::ScoreOutOfRange { score } => !self.score_ok() && score == self.score,
            Violation::ClockBeforeEpoch => false,
            Violation::TimestampInFuture { timestamp } => {
                &&& self.score_ok()
                &&& !self.timestamp_ok(now)
                &&& timestamp == self.timestamp
            },
            Violation::CategoryPii { category } => {
                &&& self.score_ok()
                &&& self.timestamp_ok(now)
                &&& exists|i: int|
                    {
                        &&& self.first_bad_category(i)
                        &&& has_pii_marker(#[trigger] self.category_scores[i].0)
                        &&& category == self.category_scores[i].0
                    }
            },
            Violation::CategoryScoreOutOfRange { category, score } => {
                &&& self.score_ok()
                &&& self.timestamp_ok(now)
                &&& exists|i: int|
                    {
                        &&& self.first_bad_category(i)
                        &&& !has_pii_marker(#[trigger] self.category_scores[i].0)
                        &&& category == self.category_scores[i].0
                        &&& score == self.category_scores[i].1
                    }
            },
        }
    }
}

impl ResultView {
    /// The result passes validation under a reading of the clock; none does
    /// where the clock could not be read.
    pub open spec fn valid_under(self, clock: Option<u64>) -> bool {
        clock matches Some(now) && self.valid_at(now)
    }

    /// Whether `v` is what validation reports under a reading of the clock.
    /// Where the clock could not be read, a total score out of range is
    /// still reported first.
    pub open spec fn reports_under(self, clock: Option<u64>, v: Violation) -> bool {
        match clock {
            Some(now) => self.reports(now, v),
            None => match v {
                Violation::ScoreOutOfRange { score } => !self.score_ok() && score == self.score,
                Violation::ClockBeforeEpoch => self.score_ok(),
                _ => false,
            },
        }
    }
}

/// Calls `std::time::SystemTime::now` and counts the whole seconds since the
/// Unix epoch; `None` where the clock stands before it. Nothing is known of
/// the number.
#[verifier::external_body]
pub(crate) fn unix_seconds_now() -> (now: Option<u64>) {
    match std::time::SystemTime::now().duration_since(std::time::UNIX_EPOCH) {
        Ok(elapsed) => Some(elapsed.as_secs()),
        Err(_) => None,
    }
}

impl Clone for ManifestationResult {
    fn clone(&self) -> (copy: Self)
        ensures
            copy@ == self@,
    {
        let mut category_scores: Vec<CategoryScore> = Vec::new();
        let n = self.category_scores.len();
        let mut i: usize = 0;
        while i < n
            invariant
                i <= n,
                n == self.category_scores@.len(),
                category_scores@.len() == i,
                forall|j: int| 0 <= j < i ==> category_scores@[j]@ == self.category_scores@[j]@,
            decreases n - i,
        {
            category_scores.push(self.category_scores[i].clone());
            i += 1;
        }
        let copy = ManifestationResult {
            score: self.score,
            timestamp: self.timestamp,
            category_scores,
        };
        assert(copy@.category_scores =~= self@.category_scores);
        copy
    }
}

impl ManifestationResult {
    /// Validates the result against the time `now`, in seconds since the
    /// Unix epoch.
    pub fn validate_at(&self, now: u64) -> (outcome: Result<(), ValidationError>)
        ensures
            outcome is Ok <==> self@.valid_at(now),
            outcome matches Err(e) ==> self@.reports(now, e@),
    {
        if !within(self.score, ZERO_BITS, MAX_SCORE_BITS) {
            return Err(ValidationError::ScoreOutOfRange { score: self.score });
        }
        if self.timestamp > MAX_CLOCK_SKEW_SECS && self.timestamp - MAX_CLOCK_SKEW_SECS > now {
            return Err(ValidationError::TimestampInFuture { timestamp: self.timestamp });
        }
        let n = self.category_scores.len();
        let mut i: usize = 0;
        while i < n
            invariant
                i <= n,
                n == self.category_scores@.len(),
                self@.category_scores.len() == n,
                self@.score_ok(),
                self@.timestamp_ok(now),
                forall|j: int| 0 <= j < i ==> self@.category_ok(j),
            decreases n - i,
        {
            let entry = &self.category_scores[i];
            assert(self@.category_scores[i as int] == entry@);
            if contains_pii_marker(entry.category.as_str()) {
                assert(self@.first_bad_category(i as int));
                return Err(ValidationError::CategoryPii { category: entry.category.clone() });
            }
            if !within(entry.score, ZERO_BITS, MAX_CATEGORY_SCORE_BITS) {
                assert(self@.first_bad_category(i as int));
                assert(!has_pii_marker(self@.category_scores[i as int].0));
                assert(self@.category_scores[i as int].1 == entry.score);
                return Err(
                    ValidationError::CategoryScoreOutOfRange {
                        category: entry.category.clone(),
                        score: entry.score,
                    },
                );
            }
            i += 1;
        }
        Ok(())
    }

    /// Validates the result under a reading of the clock: the seconds since
    /// the Unix epoch, or `None` where the clock stands before it.
    pub fn validate_under(&self, clock: Option<u64>) -> (outcome: Result<(), ValidationError>)
        ensures
            outcome is Ok <==> self@.valid_under(clock),
            outcome matches Err(e) ==> self@.reports_under(clock, e@),
    {
        match clock {
            Some(now) => self.validate_at(now),
            None => {
                if !within(self.score, ZERO_BITS, MAX_SCORE_BITS) {
                    Err(ValidationError::ScoreOutOfRange { score: self.score })
                } else {
                    Err(ValidationError::ClockBeforeEpoch)
                }
            },
        }
    }

    /// Validates the result against the system clock and reports a violation
    /// as text. Whatever the clock says, a total score out of range fails.
    pub fn validate(&self) -> (outcome: Result<(), String>)
        ensures
            !self@.score_ok() ==> outcome is Err,
            exists|clock: Option<u64>|
                {
                    &&& outcome is Ok <==> #[trigger] self@.valid_under(clock)
                    &&& outcome matches Err(text) ==> exists|v: Violation|
                        #[trigger] self@.reports_under(clock, v) && text@ == v.message()
                },
    {
        let clock = unix_seconds_now();
        match self.validate_under(clock) {
            Ok(()) => {
                assert(self@.valid_under(clock));
                Ok(())
            },
            Err(e) => {
                let text = e.message();
                assert(self@.reports_under(clock, e@) && text@ == e@.message());
                assert(!self@.valid_under(clock));
                Err(text)
            },
        }
    }

    /// The content address of the result, from its canonical bytes: CIDv1
    /// with the DAG-JSON codec over their SHA-256 multihash. Equal bytes give
    /// equal addresses.
    pub fn get_cid(canonical: &[u8]) -> (cid: Result<String, String>)
        ensures
            cid matches Ok(text) && text@ == content_address(canonical@),
    {
        match content_address_of(canonical) {
            Some(text) => Ok(text),
            None => Err(String::from_str("digest does not fit a multihash")),
        }
    }
}

/// A `ManifestationResult` signed with its author's Ed25519 key. The
/// signature covers the canonical bytes of the payload alone, never the key
/// or the signature; the overlay itself carries no author.
#[derive(Debug)]
pub struct SignedManifestation {
    pub payload: ManifestationResult,
    /// Base64 of the author's public key.
    pub public_key: String,
    /// Base64 of the detached signature over the payload's canonical bytes.
    pub signature: String,
}

impl Clone for SignedManifestation {
    fn clone(&self) -> (copy: Self)
        ensures
            copy.payload@ == self.payload@,
            copy.public_key@ == self.public_key@,
            copy.signature@ == self.signature@,
    {
        SignedManifestation {
            payload: self.payload.clone(),
            public_key: self.public_key.clone(),
            signature: self.signature.clone(),
        }
    }
}

/// The bytes of an envelope on the wire: a JSON object with the fields
/// `payload`, `public_key` and `signature`, in this order, around the
/// canonical bytes of the payload. The two texts stand in it as they are.
pub open spec fn envelope_wire(
    canonical: Seq<u8>,
    public_key: Seq<char>,
    signature: Seq<char>,
) -> Seq<u8> {
    encode_utf8("{\"payload\":"@) + canonical + encode_utf8(",\"public_key\":\""@)
        + encode_utf8(public_key) + encode_utf8("\",\"signature\":\""@) + encode_utf8(signature)
        + encode_utf8("\"}"@)
}

fn append_bytes(out: &mut Vec<u8>, bytes: &[u8])
    ensures
        final(out)@ == old(out)@ + bytes@,
{
    let n = bytes.len();
    let mut i: usize = 0;
    while i < n
        invariant
            i <= n,
            n == bytes@.len(),
            out@ == old(out)@ + bytes@.take(i as int),
        decreases n - i,
    {
        out.push(bytes[i]);
        assert(out@ =~= old(out)@ + bytes@.take(i + 1));
        i += 1;
    }
    assert(bytes@.take(n as int) =~= bytes@);
}

impl SignedManifestation {
    /// Whether the envelope's signature verifies on the given canonical
    /// payload bytes under the envelope's own key.
    pub open spec fn verifies(&self, canonical: Seq<u8>) -> bool {
        signature_verifies(canonical, self.signature@, self.public_key@)
    }

    /// Signs the canonical bytes of `payload` with `identity` and puts the
    /// payload, the author's key and the signature into an envelope. The
    /// envelope so made verifies on the same bytes.
    pub fn new(payload: ManifestationResult, canonical: &[u8], identity: &UserIdentity) -> (envelope:
        Result<Self, String>)
        ensures
            envelope is Ok,
            envelope->Ok_0.payload == payload,
            envelope->Ok_0.public_key@ == base64_text(identity.public_key()),
            envelope->Ok_0.signature@ == base64_text(
                ed25519_signature(identity.secret(), canonical@),
            ),
            envelope->Ok_0.verifies(canonical@),
            is_base64_string(envelope->Ok_0.public_key@),
            is_base64_string(envelope->Ok_0.signature@),
    {
        let sig = identity.sign(canonical);
        let sig_bytes = sig.to_bytes();
        let signature = encode_base64(sig_bytes.as_slice());
        let public_key = identity.public_key_b64();
        proof {
            crate::encoding::lemma_base64_round_trip(sig@);
            crate::encoding::lemma_base64_round_trip(identity.public_key());
        }
        Ok(SignedManifestation { payload, public_key, signature })
    }

    /// The bytes of the envelope on the wire, around the canonical bytes of
    /// its payload; `None` where the key or the signature is not made of
    /// base64 characters alone, and so may not stand in JSON as it is.
    pub fn to_wire(&self, canonical: &[u8]) -> (wire: Option<Vec<u8>>)
        ensures
            wire is Some <==> is_base64_string(self.public_key@) && is_base64_string(
                self.signature@,
            ),
            wire matches Some(bytes) ==> bytes@ == envelope_wire(
                canonical@,
                self.public_key@,
                self.signature@,
            ),
    {
        if !base64_string(self.public_key.as_str()) || !base64_string(self.signature.as_str()) {
            return None;
        }
        let mut wire: Vec<u8> = Vec::new();
        append_bytes(&mut wire, "{\"payload\":".as_bytes());
        append_bytes(&mut wire, canonical);
        append_bytes(&mut wire, ",\"public_key\":\"".as_bytes());
        append_bytes(&mut wire, self.public_key.as_str().as_bytes());
        append_bytes(&mut wire, "\",\"signature\":\"".as_bytes());
        append_bytes(&mut wire, self.signature.as_str().as_bytes());
        append_bytes(&mut wire, "\"}".as_bytes());
        assert(wire@ =~= envelope_wire(canonical@, self.public_key@, self.signature@));
        Some(wire)
    }

    /// Checks the envelope's signature on the canonical bytes of its payload.
    pub fn verify(&self, canonical: &[u8]) -> (ok: bool)
        ensures
            ok == self.verifies(canonical@),
    {
        UserIdentity::verify(canonical, self.signature.as_str(), self.public_key.as_str())
    }
}

/// A command of the host to the node.
#[derive(Debug)]
pub enum Command {
    /// Bind to the address, a multiaddr in text form.
    StartListening { addr: String },
    /// Publish the bytes, a complete serialized envelope, on the topic.
    Publish { topic: String, message: Vec<u8> },
    /// Report the peers that are connected.
    GetPeers,
    /// Persist the window and stop.
    Shutdown,
}

/// The scores of one category in a persisted window, oldest first.
#[derive(Debug)]
pub struct CategoryScores {
    pub category: String,
    pub scores: Vec<u64>,
}

impl View for CategoryScores {
    type V = (Seq<char>, Seq<u64>);

    open spec fn view(&self) -> (Seq<char>, Seq<u64>) {
        (self.category@, self.scores@)
    }
}

/// A snapshot of the score windows, as it is persisted between sessions:
/// the scores of each stream, oldest first.
#[derive(Debug)]
pub struct NetworkScoresCache {
    pub scores: Vec<u64>,
    pub category_scores: Vec<CategoryScores>,
}

/// What a `NetworkScoresCache` holds, as plain values.
pub struct CacheView {
    pub scores: Seq<u64>,
    pub category_scores: Seq<(Seq<char>, Seq<u64>)>,
}

impl View for NetworkScoresCache {
    type V = CacheView;

    open spec fn view(&self) -> CacheView {
        CacheView {
            scores: self.scores@,
            category_scores: self.category_scores@.map_values(|c: CategoryScores| c@),
        }
    }
}

impl Default for NetworkScoresCache {
    fn default() -> (cache: Self)
        ensures
            cache@.scores.len() == 0,
            cache@.category_scores.len() == 0,
    {
        NetworkScoresCache { scores: Vec::new(), category_scores: Vec::new() }
    }
}

/// The mean and the 90th percentile of one category's window, both binary64
/// bit patterns.
#[derive(Debug)]
pub struct CategoryStats {
    pub category: String,
    pub avg: u64,
    pub p90: u64,
}

impl View for CategoryStats {
    type V = (Seq<char>, u64, u64);

    open spec fn view(&self) -> (Seq<char>, u64, u64) {
        (self.category@, self.avg, self.p90)
    }
}

/// A snapshot of what the node knows: its peers, the number of results it
/// took in, the mean and the 90th percentile of each window that is not
/// empty, and the application bytes that went in and out.
#[derive(Debug)]
pub struct NetworkStatUpdate {
    pub peer_count: usize,
    pub connected_peers: Vec<String>,
    pub total_manifestations: usize,
    /// A binary64 bit pattern; `None` where the global window is empty.
    pub avg_score: Option<u64>,
    /// A binary64 bit pattern; `None` where the global window is empty.
    pub percentile_90: Option<u64>,
    pub category_stats: Vec<CategoryStats>,
    pub bandwidth_in: u64,
    pub bandwidth_out: u64,
}

} // verus!
