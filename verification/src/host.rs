//! The host's side of the bridge to the node: the opt-in gate in front of
//! every publication, and the steps from a score to a command for the node.

use crate::identity::UserIdentity;
use crate::network::config::GLOBAL_TOPIC;
use crate::network::digest::content_address;
use crate::network::types::{
    envelope_wire, unix_seconds_now, CategoryScore, Command, ManifestationResult, ResultView,
    SignedManifestation, ValidationError,
};
use vstd::prelude::*;

verus! {

/// Why a publication did not come about.
#[derive(Debug)]
pub enum PublishError {
    /// Sharing is not enabled.
    NotAuthorized,
    /// The result fails validation.
    Invalid(ValidationError),
    /// No identity is there to sign with.
    IdentityMissing,
    /// No node is running to take the command.
    NotReady,
    /// Signing or addressing failed, with the reason.
    Failed(String),
}

impl PublishError {
    /// The text that reports the error.
    pub fn message(&self) -> (text: String)
        ensures
            match self {
                PublishError::NotAuthorized => text@
                    == "Network sharing is disabled. Enable it in Settings to share results anonymously."@,
                PublishError::Invalid(e) => text@ == e@.message(),
                PublishError::IdentityMissing => text@ == "Identity not initialized"@,
                PublishError::NotReady => text@ == "Node not running"@,
                PublishError::Failed(reason) => text@ == reason@,
            },
    {
        match self {
            PublishError::NotAuthorized => String::from_str(
                "Network sharing is disabled. Enable it in Settings to share results anonymously.",
            ),
            PublishError::Invalid(e) => e.message(),
            PublishError::IdentityMissing => String::from_str("Identity not initialized"),
            PublishError::NotReady => String::from_str("Node not running"),
            PublishError::Failed(reason) => reason.clone(),
        }
    }
}

/// A signed result that is ready to go out: the envelope, its content
/// address, and the bytes of the envelope as they go onto the wire.
#[derive(Debug)]
pub struct Publication {
    pub envelope: SignedManifestation,
    pub cid: String,
    pub wire: Vec<u8>,
}

/// What the host knows of the node and of the user: whether sharing is
/// enabled (it is not until the user says so), the identity to sign with,
/// and whether a node is there to take commands.
pub struct NetworkState {
    sharing_enabled: bool,
    identity: Option<UserIdentity>,
    node_running: bool,
}

/// The result that a publication starts from: the scores as given, taken at
/// the time `now`.
pub open spec fn result_at(score: u64, category_scores: Seq<(Seq<char>, u64)>, now: u64) -> ResultView {
    ResultView { score, timestamp: now, category_scores }
}

impl NetworkState {
    /// Whether sharing is enabled.
    pub closed spec fn sharing(&self) -> bool {
        self.sharing_enabled
    }

    /// The identity, if one is set.
    pub closed spec fn signer(&self) -> Option<UserIdentity> {
        self.identity
    }

    /// Whether a node is running.
    pub closed spec fn running(&self) -> bool {
        self.node_running
    }

    /// The state at the start: sharing disabled, no identity, no node.
    pub fn new() -> (state: Self)
        ensures
            !state.sharing(),
            state.signer() is None,
            !state.running(),
    {
        NetworkState { sharing_enabled: false, identity: None, node_running: false }
    }

    /// Enables or disables the sharing of results.
    pub fn set_network_sharing(&mut self, enabled: bool)
        ensures
            final(self).sharing() == enabled,
            final(self).signer() == old(self).signer(),
            final(self).running() == old(self).running(),
    {
        self.sharing_enabled = enabled;
    }

    /// Whether sharing is enabled.
    pub fn get_network_sharing(&self) -> (enabled: bool)
        ensures
            enabled == self.sharing(),
    {
        self.sharing_enabled
    }

    /// Sets the identity that publications are signed with.
    pub fn set_identity(&mut self, identity: UserIdentity)
        ensures
            final(self).signer() == Some(identity),
            final(self).sharing() == old(self).sharing(),
            final(self).running() == old(self).running(),
    {
        self.identity = Some(identity);
    }

    /// Notes whether a node is there to take commands.
    pub fn set_node_running(&mut self, running: bool)
        ensures
            final(self).running() == running,
            final(self).sharing() == old(self).sharing(),
            final(self).signer() == old(self).signer(),
    {
        self.node_running = running;
    }

    /// Whether `outcome` is what the first step of a publication comes to
    /// under a reading of the clock. With sharing disabled it is refused as
    /// not authorized, and only then. With sharing enabled, a clock that
    /// cannot be read is reported; else the result holds the scores as they
    /// were given and the time of the clock, and it comes back if it is
    /// valid at that time, and what validation reports of it if it is not.
    pub open spec fn begins(
        &self,
        score: u64,
        category_scores: Vec<CategoryScore>,
        clock: Option<u64>,
        outcome: Result<ManifestationResult, PublishError>,
    ) -> bool {
        if !self.sharing() {
            outcome matches Err(e) && e is NotAuthorized
        } else {
            match (clock, outcome) {
                (None, Err(PublishError::Invalid(e))) => e is ClockBeforeEpoch,
                (Some(now), Ok(result)) => {
                    &&& result.score == score
                    &&& result.timestamp == now
                    &&& result.category_scores == category_scores
                    &&& result@.valid_at(now)
                },
                (Some(now), Err(PublishError::Invalid(e))) => result_at(
                    score,
                    category_scores@.map_values(|c: CategoryScore| c@),
                    now,
                ).reports(now, e@),
                _ => false,
            }
        }
    }

    /// The first step of a publication, under a reading of the clock. The
    /// gate comes before everything: with sharing disabled nothing is read
    /// and nothing is built. Then the result is stamped with the time and
    /// validated.
    pub fn begin_publish_under(
        &self,
        score: u64,
        category_scores: Vec<CategoryScore>,
        clock: Option<u64>,
    ) -> (outcome: Result<ManifestationResult, PublishError>)
        ensures
            self.begins(score, category_scores, clock, outcome),
    {
        if !self.sharing_enabled {
            return Err(PublishError::NotAuthorized);
        }
        let now = match clock {
            Some(now) => now,
            None => {
                return Err(PublishError::Invalid(ValidationError::ClockBeforeEpoch));
            },
        };
        let result = ManifestationResult { score, timestamp: now, category_scores };
        match result.validate_at(now) {
            Ok(()) => Ok(result),
            Err(e) => Err(PublishError::Invalid(e)),
        }
    }

    /// The first step of a publication, at the time of the system clock.
    /// It is refused as not authorized exactly when sharing is disabled,
    /// whatever the scores and the clock. With sharing enabled the outcome is
    /// that of `begin_publish_under` for the reading that the clock gave: a
    /// valid result stamped with that time, or what is wrong with it.
    pub fn begin_publish(&self, score: u64, category_scores: Vec<CategoryScore>) -> (outcome: Result<
        ManifestationResult,
        PublishError,
    >)
        ensures
            !self.sharing() <==> outcome is Err && outcome->Err_0 is NotAuthorized,
            exists|clock: Option<u64>| #[trigger] self.begins(score, category_scores, clock, outcome),
            outcome matches Ok(result) ==> {
                &&& self.sharing()
                &&& result.score == score
                &&& result.category_scores == category_scores
                &&& result@.valid_at(result.timestamp)
            },
            outcome matches Err(e) ==> e is NotAuthorized || e is Invalid,
    {
        if !self.sharing_enabled {
            let outcome = Err(PublishError::NotAuthorized);
            assert(self.begins(score, category_scores, None, outcome));
            return outcome;
        }
        let clock = unix_seconds_now();
        let outcome = self.begin_publish_under(score, category_scores, clock);
        assert(self.begins(score, category_scores, clock, outcome));
        outcome
    }

    /// The second step of a publication: signs the canonical bytes of the
    /// result, derives its content address from them and writes the
    /// envelope as it goes onto the wire.
    pub fn seal(&self, result: ManifestationResult, canonical: &[u8]) -> (outcome: Result<
        Publication,
        PublishError,
    >)
        ensures
            !self.sharing() ==> outcome is Err && outcome->Err_0 is NotAuthorized,
            self.sharing() && self.signer() is None ==> outcome is Err && outcome->Err_0
                is IdentityMissing,
            self.sharing() && self.signer() is Some ==> {
                &&& outcome matches Ok(p)
                &&& p.envelope.payload == result
                &&& p.envelope.verifies(canonical@)
                &&& p.envelope.public_key@ == crate::encoding::base64_text(
                    self.signer()->0.public_key(),
                )
                &&& p.cid@ == content_address(canonical@)
                &&& p.wire@ == envelope_wire(
                    canonical@,
                    p.envelope.public_key@,
                    p.envelope.signature@,
                )
            },
    {
        if !self.sharing_enabled {
            return Err(PublishError::NotAuthorized);
        }
        let identity = match &self.identity {
            Some(identity) => identity,
            None => {
                return Err(PublishError::IdentityMissing);
            },
        };
        let envelope = match SignedManifestation::new(result, canonical, identity) {
            Ok(envelope) => envelope,
            Err(reason) => {
                return Err(PublishError::Failed(reason));
            },
        };
        let cid = match ManifestationResult::get_cid(canonical) {
            Ok(cid) => cid,
            Err(reason) => {
                return Err(PublishError::Failed(reason));
            },
        };
        let wire = match envelope.to_wire(canonical) {
            Some(wire) => wire,
            None => {
                return Err(PublishError::Failed(String::from_str("envelope cannot be written")));
            },
        };
        Ok(Publication { envelope, cid, wire })
    }

    /// The last step of a publication: the command that hands the bytes of
    /// a serialized envelope to the node, on the global topic. With sharing
    /// disabled there is no command, and so no byte is counted as sent.
    pub fn publish_command(&self, message: Vec<u8>) -> (outcome: Result<Command, PublishError>)
        ensures
            !self.sharing() ==> outcome is Err && outcome->Err_0 is NotAuthorized,
            self.sharing() && !self.running() ==> outcome is Err && outcome->Err_0 is NotReady,
            self.sharing() && self.running() ==> {
                &&& outcome matches Ok(Command::Publish { topic, message: bytes })
                &&& topic@ == GLOBAL_TOPIC@
                &&& bytes == message
            },
    {
        if !self.sharing_enabled {
            return Err(PublishError::NotAuthorized);
        }
        if !self.node_running {
            return Err(PublishError::NotReady);
        }
        Ok(Command::Publish { topic: String::from_str(GLOBAL_TOPIC), message })
    }
}

} // verus!
