//! The node's own state and every decision it takes: what an inbound
//! message does to the windows, what a command of the host asks of the
//! overlay, what a snapshot holds. Whoever drives the overlay hands in
//! events and carries out the actions that come back.

use crate::network::dedup::{keys_after_put, SeenCache, SEEN_CAPACITY};
use crate::network::types::{
    Command, NetworkScoresCache, NetworkStatUpdate, SignedManifestation, ValidationError,
};
use crate::network::window::{cache_of, stats_of, window_of, ScoreWindow, WindowView};
use crate::binary64::mean_of;
use crate::network::utils::percentile_of;
use crate::score::NINETIETH_PERCENTILE_BITS;
use vstd::prelude::*;

verus! {

/// Where a node stands in its life. `Stopped` is final.
#[derive(Clone, Copy, Debug, PartialEq, Eq, Structural)]
pub enum NodePhase {
    Initialized,
    Listening,
    Running,
    Stopped,
}

/// An envelope as it was read from a message, with the canonical bytes of
/// its payload.
#[derive(Debug)]
pub struct DecodedEnvelope {
    pub envelope: SignedManifestation,
    pub canonical: Vec<u8>,
}

/// A message of the overlay: the number of its bytes and, where they could
/// be read as an envelope, what they hold.
#[derive(Debug)]
pub struct InboundMessage {
    pub size: usize,
    pub decoded: Option<DecodedEnvelope>,
}

/// What became of an inbound message.
#[derive(Debug)]
pub enum InboundOutcome {
    /// Its id was seen before; nothing was done.
    Duplicate,
    /// Its bytes are no envelope.
    Unparseable,
    /// The envelope's signature does not verify.
    InvalidSignature,
    /// The payload fails validation.
    Invalid(ValidationError),
    /// The payload went into the window.
    Accepted,
}

/// A peer of the local network and the address it was seen at, both in text
/// form.
#[derive(Debug)]
pub struct PeerAddress {
    pub peer_id: String,
    pub address: String,
}

/// What the overlay reports to the node.
#[derive(Debug)]
pub enum NetworkEvent {
    /// The node listens on a new address.
    NewListenAddr { address: String },
    /// Peers were discovered on the local network.
    MdnsDiscovered { peers: Vec<PeerAddress> },
    /// Peers of the local network expired.
    MdnsExpired { peers: Vec<PeerAddress> },
    /// A message came in under the given id.
    Message { id: Vec<u8>, message: InboundMessage },
    ConnectionEstablished,
    ConnectionClosed,
    /// Anything else.
    Other,
}

/// A change to the set of peers that the overlay is to make.
#[derive(Debug)]
pub enum PeerChange {
    Unchanged,
    /// Make each an explicit pub/sub peer and record its address in the DHT.
    Add(Vec<PeerAddress>),
    /// Undo both.
    Remove(Vec<PeerAddress>),
}

/// What the node asks for in answer to an event.
#[derive(Debug)]
pub struct Reaction {
    pub peers: PeerChange,
    /// Whether a snapshot is to be emitted.
    pub emit_stats: bool,
    /// What became of the message, where the event was one: to be logged.
    pub outcome: Option<InboundOutcome>,
}

/// What the node asks of the overlay in answer to a command.
#[derive(Debug)]
pub enum CommandAction {
    /// Nothing.
    Idle,
    /// Bind to the address and answer the host with the outcome.
    Listen { addr: String },
    /// Publish the bytes on the topic and answer the host with the outcome.
    Publish { topic: String, message: Vec<u8> },
    /// Answer the host with the connected peers.
    ReportPeers,
    /// Persist the window, as well as that can be done.
    SaveCache { cache: NetworkScoresCache },
}

/// The answer to a command: whether the node goes on, and what is to be done.
#[derive(Debug)]
pub struct CommandOutcome {
    pub keep_running: bool,
    pub action: CommandAction,
}

/// What a `PeerNode` holds, as plain values.
pub struct NodeView {
    pub phase: NodePhase,
    pub total_manifestations: nat,
    pub window: WindowView,
    pub bytes_in: nat,
    pub bytes_out: nat,
    /// The message ids seen of late, least recently seen first.
    pub seen: Seq<Seq<u8>>,
    pub bootstrap_peers: Seq<Seq<char>>,
}

/// A counter with `n` added, held at the largest value it can take.
pub open spec fn counted(counter: nat, n: nat, limit: nat) -> nat {
    if counter + n > limit {
        limit
    } else {
        counter + n
    }
}

impl NodeView {
    /// The windows and the cache of ids are well-formed.
    pub open spec fn wf(self) -> bool {
        &&& self.window.wf()
        &&& self.seen.no_duplicates()
        &&& self.seen.len() <= SEEN_CAPACITY
        &&& self.total_manifestations <= usize::MAX
        &&& self.bytes_in <= u64::MAX
        &&& self.bytes_out <= u64::MAX
    }

    /// Whether a message is taken into the window: its id is new, its bytes
    /// are an envelope, the signature verifies on the payload's canonical
    /// bytes, and the payload is valid under the reading of the clock.
    pub open spec fn accepts(self, id: Seq<u8>, message: InboundMessage, clock: Option<u64>) -> bool {
        &&& !self.seen.contains(id)
        &&& message.decoded matches Some(d)
        &&& d.envelope.verifies(d.canonical@)
        &&& d.envelope.payload@.valid_under(clock)
    }

    /// Whether `outcome` is what becomes of a message under a reading of the
    /// clock. The checks come in this order, and the first that fails
    /// decides: the id was seen; the bytes are no envelope; the signature
    /// does not verify; the payload is not valid, with what validation
    /// reports of it. A message that fails none is accepted.
    pub open spec fn sorts(
        self,
        id: Seq<u8>,
        message: InboundMessage,
        clock: Option<u64>,
        outcome: InboundOutcome,
    ) -> bool {
        match outcome {
            InboundOutcome::Duplicate => self.seen.contains(id),
            InboundOutcome::Unparseable => !self.seen.contains(id) && message.decoded is None,
            InboundOutcome::InvalidSignature => {
                &&& !self.seen.contains(id)
                &&& message.decoded matches Some(d)
                &&& !d.envelope.verifies(d.canonical@)
            },
            InboundOutcome::Invalid(e) => {
                &&& !self.seen.contains(id)
                &&& message.decoded matches Some(d)
                &&& d.envelope.verifies(d.canonical@)
                &&& !d.envelope.payload@.valid_under(clock)
                &&& d.envelope.payload@.reports_under(clock, e@)
            },
            InboundOutcome::Accepted => self.accepts(id, message, clock),
        }
    }

    /// The node after a message came in. A message whose id was seen is
    /// dropped and changes nothing. Any other has its id remembered and its
    /// bytes counted; if it is accepted, its payload goes into the window
    /// and the number of results goes up by one.
    pub open spec fn process(self, id: Seq<u8>, message: InboundMessage, clock: Option<u64>) -> NodeView {
        if self.seen.contains(id) {
            self
        } else {
            let noted = NodeView {
                seen: keys_after_put(self.seen, SEEN_CAPACITY as nat, id),
                bytes_in: counted(self.bytes_in, message.size as nat, u64::MAX as nat),
                ..self
            };
            if self.accepts(id, message, clock) {
                NodeView {
                    total_manifestations: counted(
                        self.total_manifestations,
                        1,
                        usize::MAX as nat,
                    ),
                    window: self.window.insert(message.decoded->0.envelope.payload@),
                    ..noted
                }
            } else {
                noted
            }
        }
    }

    /// The node after the same message was delivered `times` more times.
    pub open spec fn replay(
        self,
        id: Seq<u8>,
        message: InboundMessage,
        clock: Option<u64>,
        times: nat,
    ) -> NodeView
        decreases times,
    {
        if times == 0 {
            self
        } else {
            self.replay(id, message, clock, (times - 1) as nat).process(id, message, clock)
        }
    }

    /// The node after a command of the host, or after the host's end of the
    /// command channel closed (`None`).
    pub open spec fn after_command(self, command: Option<Command>) -> NodeView {
        match command {
            Some(Command::Publish { topic, message }) => NodeView {
                bytes_out: counted(self.bytes_out, message@.len(), u64::MAX as nat),
                ..self
            },
            Some(Command::StartListening { .. }) | Some(Command::GetPeers) => self,
            Some(Command::Shutdown) | None => NodeView { phase: NodePhase::Stopped, ..self },
        }
    }
}

/// A message whose id was seen changes nothing, whatever it holds.
pub proof fn lemma_seen_is_dropped(
    node: NodeView,
    id: Seq<u8>,
    message: InboundMessage,
    clock: Option<u64>,
)
    requires
        node.seen.contains(id),
    ensures
        node.process(id, message, clock) == node,
        !node.accepts(id, message, clock),
{
}

/// Processing a message leaves a well-formed node well-formed, with the
/// message's id among those seen, and never takes anything back: the
/// number of results and the bytes counted do not go down.
pub proof fn lemma_process_wf(
    node: NodeView,
    id: Seq<u8>,
    message: InboundMessage,
    clock: Option<u64>,
)
    requires
        node.wf(),
    ensures
        node.process(id, message, clock).wf(),
        node.process(id, message, clock).seen.contains(id),
        node.process(id, message, clock).total_manifestations >= node.total_manifestations,
        node.process(id, message, clock).bytes_in >= node.bytes_in,
        node.process(id, message, clock).bytes_out == node.bytes_out,
        node.process(id, message, clock).phase == node.phase,
{
    crate::network::dedup::lemma_keys_after_put(node.seen, SEEN_CAPACITY as nat, id);
    if node.accepts(id, message, clock) {
        let payload = message.decoded->0.envelope.payload@;
        crate::network::window::lemma_push_categories_wf(
            node.window.categories,
            payload.category_scores,
        );
    }
}

/// Replaying a message any number of times after it was processed once
/// changes nothing more: the window is updated at most once, and the number
/// of results goes up by one if the first delivery was accepted and stays
/// where it was if not.
pub proof fn lemma_replay_is_idempotent(
    node: NodeView,
    id: Seq<u8>,
    message: InboundMessage,
    clock: Option<u64>,
    times: nat,
)
    requires
        node.wf(),
    ensures
        node.process(id, message, clock).replay(id, message, clock, times) == node.process(
            id,
            message,
            clock,
        ),
        node.accepts(id, message, clock) ==> node.process(
            id,
            message,
            clock,
        ).total_manifestations == counted(node.total_manifestations, 1, usize::MAX as nat),
        !node.accepts(id, message, clock) ==> node.process(id, message, clock).window
            == node.window && node.process(id, message, clock).total_manifestations
            == node.total_manifestations,
    decreases times,
{
    lemma_process_wf(node, id, message, clock);
    let once = node.process(id, message, clock);
    if times > 0 {
        lemma_replay_is_idempotent(node, id, message, clock, (times - 1) as nat);
        lemma_seen_is_dropped(once, id, message, clock);
    }
}

/// The state of a node: its windows, its counters and the ids it has seen.
/// The node owns all of it; nothing of it is shared.
pub struct PeerNode {
    phase: NodePhase,
    total_manifestations: usize,
    window: ScoreWindow,
    /// Application bytes that came in: the sizes of the messages processed.
    bytes_in: u64,
    /// Application bytes that went out: the sizes of the messages published.
    bytes_out: u64,
    seen_messages: SeenCache,
    /// Addresses to dial at the start; none stands for the default set.
    bootstrap_peers: Vec<String>,
}

impl View for PeerNode {
    type V = NodeView;

    closed spec fn view(&self) -> NodeView {
        NodeView {
            phase: self.phase,
            total_manifestations: self.total_manifestations as nat,
            window: self.window@,
            bytes_in: self.bytes_in as nat,
            bytes_out: self.bytes_out as nat,
            seen: self.seen_messages@,
            bootstrap_peers: self.bootstrap_peers@.map_values(|s: String| s@),
        }
    }
}

/// The addresses of the default bootstrap peers.
pub open spec fn default_bootstrap_addresses() -> Seq<Seq<char>> {
    seq![
        "/ip4/104.131.131.82/tcp/4001/p2p/QmaCpDMGvV2BGHeYERUEnRQAwe3N8SzbUtfsmvsqQLuvuJ"@,
        "/ip4/104.236.179.241/tcp/4001/p2p/QmSoLPppuBtQSGwKDZT2M73ULpjvfd3aZ6ha4oFGL1KrGM"@,
        "/ip4/128.199.219.111/tcp/4001/p2p/QmSoLSafTMBsPKadTEgaXctDQVcqN88CNLHXMkTNwMKPnu"@,
    ]
}

/// The addresses that a node dials at its start: those it was given, or the
/// default set where it was given none.
pub open spec fn addresses_to_dial(configured: Seq<Seq<char>>) -> Seq<Seq<char>> {
    if configured.len() == 0 {
        default_bootstrap_addresses()
    } else {
        configured
    }
}

fn clone_strings(texts: &Vec<String>) -> (copy: Vec<String>)
    ensures
        copy@.map_values(|s: String| s@) == texts@.map_values(|s: String| s@),
{
    let mut copy: Vec<String> = Vec::new();
    let n = texts.len();
    let mut i: usize = 0;
    while i < n
        invariant
            i <= n,
            n == texts@.len(),
            copy@.len() == i,
            forall|j: int| 0 <= j < i ==> copy@[j]@ == texts@[j]@,
        decreases n - i,
    {
        copy.push(texts[i].clone());
        i += 1;
    }
    assert(copy@.map_values(|s: String| s@) =~= texts@.map_values(|s: String| s@));
    copy
}

impl PeerNode {
    /// The state is well-formed: no window is over its capacity, no
    /// category and no message id is there twice.
    pub closed spec fn wf(&self) -> bool {
        &&& self@.wf()
        &&& self.window.wf()
        &&& self.seen_messages.wf()
    }

    /// A well-formed node has a well-formed view.
    pub proof fn lemma_wf(&self)
        requires
            self.wf(),
        ensures
            self@.wf(),
    {
    }

    /// A node in its first phase. Its window is the one that the persisted
    /// snapshot describes, and the number of results starts at the size of
    /// that window; without a snapshot, or with one that describes no
    /// window, both start empty.
    pub fn new(cache: Option<NetworkScoresCache>, bootstrap_peers: Vec<String>) -> (node: Self)
        ensures
            node.wf(),
            node@.phase == NodePhase::Initialized,
            node@.bytes_in == 0,
            node@.bytes_out == 0,
            node@.seen.len() == 0,
            node@.bootstrap_peers == bootstrap_peers@.map_values(|s: String| s@),
            node@.total_manifestations == node@.window.scores.len(),
            match cache {
                Some(c) if window_of(c@).wf() => node@.window == window_of(c@),
                _ => node@.window.scores.len() == 0 && node@.window.categories.len() == 0,
            },
    {
        let window = match &cache {
            Some(c) => match ScoreWindow::from_cache(c) {
                Some(w) => w,
                None => ScoreWindow::new(),
            },
            None => ScoreWindow::new(),
        };
        let seen_messages = SeenCache::new();
        proof {
            seen_messages.lemma_wf();
        }
        PeerNode {
            phase: NodePhase::Initialized,
            total_manifestations: window.len(),
            window,
            bytes_in: 0,
            bytes_out: 0,
            seen_messages,
            bootstrap_peers,
        }
    }

    /// The phase of the node.
    pub fn phase(&self) -> (phase: NodePhase)
        ensures
            phase == self@.phase,
    {
        self.phase
    }

    /// Number of results that the node took in, the persisted ones counted.
    pub fn total_manifestations(&self) -> (n: usize)
        ensures
            n == self@.total_manifestations,
    {
        self.total_manifestations
    }

    /// Application bytes that came in.
    pub fn bandwidth_in(&self) -> (n: u64)
        ensures
            n == self@.bytes_in,
    {
        self.bytes_in
    }

    /// Application bytes that went out.
    pub fn bandwidth_out(&self) -> (n: u64)
        ensures
            n == self@.bytes_out,
    {
        self.bytes_out
    }

    /// The windows of the node.
    pub fn window(&self) -> (window: &ScoreWindow)
        ensures
            window@ == self@.window,
    {
        &self.window
    }

    /// Well-known bootstrap addresses for peer discovery beyond the local
    /// network, used where none are configured.
    pub fn default_bootstrap_peers() -> (peers: Vec<String>)
        ensures
            peers@.map_values(|s: String| s@) == default_bootstrap_addresses(),
    {
        let mut peers: Vec<String> = Vec::new();
        peers.push(
            String::from_str(
                "/ip4/104.131.131.82/tcp/4001/p2p/QmaCpDMGvV2BGHeYERUEnRQAwe3N8SzbUtfsmvsqQLuvuJ",
            ),
        );
        peers.push(
            String::from_str(
                "/ip4/104.236.179.241/tcp/4001/p2p/QmSoLPppuBtQSGwKDZT2M73ULpjvfd3aZ6ha4oFGL1KrGM",
            ),
        );
        peers.push(
            String::from_str(
                "/ip4/128.199.219.111/tcp/4001/p2p/QmSoLSafTMBsPKadTEgaXctDQVcqN88CNLHXMkTNwMKPnu",
            ),
        );
        assert(peers@.map_values(|s: String| s@) =~= default_bootstrap_addresses());
        peers
    }

    /// Notes that the overlay has bound to an address.
    pub fn note_listening(&mut self)
        requires
            old(self).wf(),
        ensures
            final(self).wf(),
            final(self)@ == (NodeView {
                phase: if old(self)@.phase == NodePhase::Initialized {
                    NodePhase::Listening
                } else {
                    old(self)@.phase
                },
                ..old(self)@
            }),
    {
        if self.phase == NodePhase::Initialized {
            self.phase = NodePhase::Listening;
        }
    }

    /// Starts the run: a node that has not stopped is running from here
    /// on. Returns the addresses to dial, in their order.
    pub fn begin_run(&mut self) -> (dial: Vec<String>)
        requires
            old(self).wf(),
        ensures
            final(self).wf(),
            final(self)@ == (NodeView {
                phase: if old(self)@.phase == NodePhase::Stopped {
                    NodePhase::Stopped
                } else {
                    NodePhase::Running
                },
                ..old(self)@
            }),
            dial@.map_values(|s: String| s@) == addresses_to_dial(old(self)@.bootstrap_peers),
    {
        if self.phase != NodePhase::Stopped {
            self.phase = NodePhase::Running;
        }
        if self.bootstrap_peers.len() == 0 {
            assert(self@.bootstrap_peers.len() == 0);
            Self::default_bootstrap_peers()
        } else {
            assert(self@.bootstrap_peers.len() != 0);
            clone_strings(&self.bootstrap_peers)
        }
    }
}

impl PeerNode {
    /// Processes a message that came in under `id`, given a reading of the
    /// clock. In this order: a message whose id was seen is dropped; the id
    /// is remembered; the bytes are counted; bytes that are no envelope
    /// stop here, then an envelope whose signature does not verify, then a
    /// payload that is not valid; what is left goes into the window.
    pub fn process_message(
        &mut self,
        id: Vec<u8>,
        message: &InboundMessage,
        clock: Option<u64>,
    ) -> (outcome: InboundOutcome)
        requires
            old(self).wf(),
        ensures
            final(self).wf(),
            final(self)@ == old(self)@.process(id@, *message, clock),
            final(self)@.seen.contains(id@),
            outcome is Duplicate <==> old(self)@.seen.contains(id@),
            outcome is Unparseable <==> !old(self)@.seen.contains(id@) && message.decoded is None,
            outcome is InvalidSignature <==> {
                &&& !old(self)@.seen.contains(id@)
                &&& message.decoded matches Some(d)
                &&& !d.envelope.verifies(d.canonical@)
            },
            outcome matches InboundOutcome::Invalid(e) ==> message.decoded->0.envelope.payload@.reports_under(
                clock,
                e@,
            ),
            outcome is Accepted <==> old(self)@.accepts(id@, *message, clock),
            old(self)@.sorts(id@, *message, clock, outcome),
    {
        proof {
            lemma_process_wf(self@, id@, *message, clock);
        }
        if self.seen_messages.contains(&id) {
            return InboundOutcome::Duplicate;
        }
        self.seen_messages.insert(id);
        self.bytes_in = self.bytes_in.saturating_add(message.size as u64);
        match &message.decoded {
            None => InboundOutcome::Unparseable,
            Some(d) => {
                if !d.envelope.verify(d.canonical.as_slice()) {
                    return InboundOutcome::InvalidSignature;
                }
                match d.envelope.payload.validate_under(clock) {
                    Err(e) => InboundOutcome::Invalid(e),
                    Ok(()) => {
                        self.total_manifestations = self.total_manifestations.saturating_add(1);
                        self.window.insert(&d.envelope.payload);
                        InboundOutcome::Accepted
                    },
                }
            },
        }
    }

    /// Processes a message that came in under `id`, reading the system
    /// clock for the validation of its payload. Whatever the clock says, a
    /// message whose id was seen is a duplicate and changes nothing, bytes
    /// that are no envelope are unparseable, and an envelope whose signature
    /// does not verify is refused for it. What is left is accepted or not
    /// valid, as `process_message` decides for the reading that the clock
    /// gave.
    pub fn handle_gossip_message(&mut self, id: Vec<u8>, message: &InboundMessage) -> (outcome:
        InboundOutcome)
        requires
            old(self).wf(),
        ensures
            final(self).wf(),
            exists|clock: Option<u64>|
                {
                    &&& final(self)@ == #[trigger] old(self)@.process(id@, *message, clock)
                    &&& old(self)@.sorts(id@, *message, clock, outcome)
                    &&& outcome is Accepted <==> old(self)@.accepts(id@, *message, clock)
                },
            outcome is Duplicate <==> old(self)@.seen.contains(id@),
            outcome is Unparseable <==> !old(self)@.seen.contains(id@) && message.decoded is None,
            outcome is InvalidSignature <==> {
                &&& !old(self)@.seen.contains(id@)
                &&& message.decoded matches Some(d)
                &&& !d.envelope.verifies(d.canonical@)
            },
            outcome is Invalid || outcome is Accepted <==> {
                &&& !old(self)@.seen.contains(id@)
                &&& message.decoded matches Some(d)
                &&& d.envelope.verifies(d.canonical@)
            },
            old(self)@.seen.contains(id@) ==> final(self)@ == old(self)@,
            final(self)@.seen.contains(id@),
    {
        let clock = crate::network::types::unix_seconds_now();
        let outcome = self.process_message(id, message, clock);
        proof {
            assert(self@ == old(self)@.process(id@, *message, clock));
        }
        outcome
    }

    /// Answers an event of the overlay. Peers found on the local network
    /// are to be added and peers that expired removed, each followed by a
    /// snapshot; a message is processed, its outcome handed back, and
    /// followed by a snapshot if it was taken in; a connection that opened
    /// or closed is followed by a snapshot; nothing else has any effect.
    pub fn handle_swarm_event(&mut self, event: NetworkEvent) -> (reaction: Reaction)
        requires
            old(self).wf(),
        ensures
            final(self).wf(),
            match event {
                NetworkEvent::NewListenAddr { .. } | NetworkEvent::Other => {
                    &&& final(self)@ == old(self)@
                    &&& reaction.peers is Unchanged
                    &&& !reaction.emit_stats
                    &&& reaction.outcome is None
                },
                NetworkEvent::MdnsDiscovered { peers } => {
                    &&& final(self)@ == old(self)@
                    &&& reaction.peers == PeerChange::Add(peers)
                    &&& reaction.emit_stats
                    &&& reaction.outcome is None
                },
                NetworkEvent::MdnsExpired { peers } => {
                    &&& final(self)@ == old(self)@
                    &&& reaction.peers == PeerChange::Remove(peers)
                    &&& reaction.emit_stats
                    &&& reaction.outcome is None
                },
                NetworkEvent::Message { id, message } => {
                    &&& reaction.peers is Unchanged
                    &&& reaction.outcome matches Some(outcome)
                    &&& reaction.emit_stats == (outcome is Accepted)
                    &&& exists|clock: Option<u64>|
                        {
                            &&& final(self)@ == #[trigger] old(self)@.process(id@, message, clock)
                            &&& old(self)@.sorts(id@, message, clock, outcome)
                            &&& reaction.emit_stats == old(self)@.accepts(id@, message, clock)
                        }
                    &&& outcome is Duplicate <==> old(self)@.seen.contains(id@)
                    &&& outcome is Unparseable <==> !old(self)@.seen.contains(id@)
                        && message.decoded is None
                    &&& outcome is InvalidSignature <==> {
                        &&& !old(self)@.seen.contains(id@)
                        &&& message.decoded matches Some(d)
                        &&& !d.envelope.verifies(d.canonical@)
                    }
                },
                NetworkEvent::ConnectionEstablished | NetworkEvent::ConnectionClosed => {
                    &&& final(self)@ == old(self)@
                    &&& reaction.peers is Unchanged
                    &&& reaction.emit_stats
                    &&& reaction.outcome is None
                },
            },
    {
        match event {
            NetworkEvent::NewListenAddr { .. } | NetworkEvent::Other => Reaction {
                peers: PeerChange::Unchanged,
                emit_stats: false,
                outcome: None,
            },
            NetworkEvent::MdnsDiscovered { peers } => Reaction {
                peers: PeerChange::Add(peers),
                emit_stats: true,
                outcome: None,
            },
            NetworkEvent::MdnsExpired { peers } => Reaction {
                peers: PeerChange::Remove(peers),
                emit_stats: true,
                outcome: None,
            },
            NetworkEvent::Message { id, message } => {
                let outcome = self.handle_gossip_message(id, &message);
                let emit_stats = match &outcome {
                    InboundOutcome::Accepted => true,
                    _ => false,
                };
                Reaction { peers: PeerChange::Unchanged, emit_stats, outcome: Some(outcome) }
            },
            NetworkEvent::ConnectionEstablished | NetworkEvent::ConnectionClosed => Reaction {
                peers: PeerChange::Unchanged,
                emit_stats: true,
                outcome: None,
            },
        }
    }

    /// Answers a command of the host; `None` stands for a command channel
    /// that was closed. The bytes of a publication are counted and handed on
    /// as they are: the node neither signs nor checks them. A shutdown asks
    /// for the window to be persisted; it and the closed channel end the
    /// run.
    pub fn handle_command(&mut self, command: Option<Command>) -> (outcome: CommandOutcome)
        requires
            old(self).wf(),
        ensures
            final(self).wf(),
            final(self)@ == old(self)@.after_command(command),
            match command {
                Some(Command::StartListening { addr }) => {
                    &&& outcome.keep_running
                    &&& outcome.action == CommandAction::Listen { addr }
                },
                Some(Command::Publish { topic, message }) => {
                    &&& outcome.keep_running
                    &&& outcome.action == CommandAction::Publish { topic, message }
                },
                Some(Command::GetPeers) => {
                    &&& outcome.keep_running
                    &&& outcome.action is ReportPeers
                },
                Some(Command::Shutdown) => {
                    &&& !outcome.keep_running
                    &&& outcome.action matches CommandAction::SaveCache { cache }
                    &&& cache@ == cache_of(old(self)@.window)
                },
                None => !outcome.keep_running && outcome.action is Idle,
            },
    {
        match command {
            Some(Command::StartListening { addr }) => CommandOutcome {
                keep_running: true,
                action: CommandAction::Listen { addr },
            },
            Some(Command::Publish { topic, message }) => {
                self.bytes_out = self.bytes_out.saturating_add(message.len() as u64);
                CommandOutcome { keep_running: true, action: CommandAction::Publish { topic, message } }
            },
            Some(Command::GetPeers) => CommandOutcome {
                keep_running: true,
                action: CommandAction::ReportPeers,
            },
            Some(Command::Shutdown) => {
                self.phase = NodePhase::Stopped;
                CommandOutcome {
                    keep_running: false,
                    action: CommandAction::SaveCache { cache: self.window.to_cache() },
                }
            },
            None => {
                self.phase = NodePhase::Stopped;
                CommandOutcome { keep_running: false, action: CommandAction::Idle }
            },
        }
    }

    /// The snapshot that persists the node's window.
    pub fn save_cache(&self) -> (cache: NetworkScoresCache)
        ensures
            cache@ == cache_of(self@.window),
    {
        self.window.to_cache()
    }

    /// A snapshot of the node, given the peers that are connected: their
    /// number, the number of results, the mean and the 90th percentile of
    /// the global window and of each category window that is not empty, and
    /// the bytes counted.
    pub fn get_stats(&self, connected_peers: Vec<String>) -> (stats: NetworkStatUpdate)
        ensures
            stats.peer_count == connected_peers@.len(),
            stats.connected_peers == connected_peers,
            stats.total_manifestations == self@.total_manifestations,
            stats.avg_score == mean_of(self@.window.scores),
            stats.percentile_90 == percentile_of(self@.window.scores, NINETIETH_PERCENTILE_BITS),
            stats.category_stats@.map_values(|s: crate::network::types::CategoryStats| s@)
                == stats_of(self@.window.categories),
            stats.bandwidth_in == self@.bytes_in,
            stats.bandwidth_out == self@.bytes_out,
    {
        NetworkStatUpdate {
            peer_count: connected_peers.len(),
            connected_peers,
            total_manifestations: self.total_manifestations,
            avg_score: self.window.mean(),
            percentile_90: self.window.percentile_90(),
            category_stats: self.window.category_stats(),
            bandwidth_in: self.bytes_in,
            bandwidth_out: self.bytes_out,
        }
    }
}

} // verus!
