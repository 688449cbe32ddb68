//! Identifiers, log positions, log entries, protocol messages, and the
//! actions a node emits for its driver to execute.

use vstd::prelude::*;

verus! {

/// Opaque identifier of a cluster member; totally ordered and equatable so it
/// can serve as a map key and as a destination address.
#[derive(Clone, Copy, PartialEq, Eq, Structural, Debug, Hash)]
pub struct NodeId {
    pub id: u64,
}

impl NodeId {
    pub fn new(id: u64) -> (r: NodeId)
        ensures
            r.id == id,
    {
        NodeId { id }
    }

    pub fn get(&self) -> (r: u64)
        ensures
            r == self.id,
    {
        self.id
    }
}

/// A `(term, index)` pair identifying a slot of the replicated log and the
/// term in which it was written. The pair `(0, 0)` is the reserved invalid
/// sentinel, never produced by a valid append.
#[derive(Clone, Copy, PartialEq, Eq, Structural, Debug, Hash)]
pub struct LogPosition {
    pub term: u64,
    pub index: u64,
}

impl LogPosition {
    /// The distinguished sentinel meaning "no such position".
    pub fn invalid() -> (r: LogPosition)
        ensures
            r == LogPosition::spec_invalid(),
    {
        LogPosition { term: 0, index: 0 }
    }

    pub open spec fn spec_invalid() -> LogPosition {
        LogPosition { term: 0, index: 0 }
    }

    pub open spec fn spec_is_invalid(self) -> bool {
        self.term == 0 && self.index == 0
    }

    pub fn is_invalid(&self) -> (r: bool)
        ensures
            r == self.spec_is_invalid(),
    {
        self.term == 0 && self.index == 0
    }
}

/// Whether the candidate position `(t1, i1)` is at least as recent as
/// `(t2, i2)` under the lexicographic `(term, index)` recency rule.
pub open spec fn lex_geq(t1: u64, i1: u64, t2: u64, i2: u64) -> bool {
    t1 > t2 || (t1 == t2 && i1 >= i2)
}

/// A node's participation mode in the protocol.
#[derive(Clone, Copy, PartialEq, Eq, Structural, Debug)]
pub enum Role {
    Follower,
    Candidate,
    Leader,
}

impl Role {
    pub fn is_leader(&self) -> (r: bool)
        ensures
            r == (*self == Role::Leader),
    {
        match self {
            Role::Leader => true,
            _ => false,
        }
    }
}

/// What a log entry carries: the bootstrap configuration record, or an
/// opaque application command.
#[derive(Clone, Copy, PartialEq, Eq, Structural, Debug)]
pub enum EntryKind {
    Config,
    Command,
}

/// One slot of the replicated log, immutable once committed. Entries are
/// indexed from 1 and tagged with the term in which they were created.
#[derive(Clone, Copy, PartialEq, Eq, Structural, Debug)]
pub struct LogEntry {
    pub term: u64,
    pub index: u64,
    pub kind: EntryKind,
}

impl LogEntry {
    pub open spec fn spec_position(self) -> LogPosition {
        LogPosition { term: self.term, index: self.index }
    }

    pub fn position(&self) -> (r: LogPosition)
        ensures
            r == self.spec_position(),
    {
        LogPosition { term: self.term, index: self.index }
    }
}

/// The mathematical shape of a [`Message`]: entry batches are sequences.
pub ghost enum MessageV {
    VoteRequest { term: u64, candidate: NodeId, last_log: LogPosition },
    VoteResponse { term: u64, from: NodeId, granted: bool },
    AppendRequest {
        term: u64,
        leader: NodeId,
        prev: LogPosition,
        entries: Seq<LogEntry>,
        leader_commit: u64,
    },
    AppendResponse { term: u64, from: NodeId, success: bool, last_index: u64 },
}

/// The protocol's wire messages: request/response pairs for vote
/// solicitation and for entry replication.
pub enum Message {
    /// A candidate solicits a vote, advertising its last log position.
    VoteRequest { term: u64, candidate: NodeId, last_log: LogPosition },
    /// A voter answers a vote request.
    VoteResponse { term: u64, from: NodeId, granted: bool },
    /// A leader replicates entries that extend `prev`, and advertises its
    /// commit index.
    AppendRequest {
        term: u64,
        leader: NodeId,
        prev: LogPosition,
        entries: Vec<LogEntry>,
        leader_commit: u64,
    },
    /// A follower answers a replication request; on success `last_index` is
    /// the highest index the request confirmed on the responder.
    AppendResponse { term: u64, from: NodeId, success: bool, last_index: u64 },
}

impl View for Message {
    type V = MessageV;

    open spec fn view(&self) -> MessageV {
        match self {
            Message::VoteRequest { term, candidate, last_log } => MessageV::VoteRequest {
                term: *term,
                candidate: *candidate,
                last_log: *last_log,
            },
            Message::VoteResponse { term, from, granted } => MessageV::VoteResponse {
                term: *term,
                from: *from,
                granted: *granted,
            },
            Message::AppendRequest { term, leader, prev, entries, leader_commit } => {
                MessageV::AppendRequest {
                    term: *term,
                    leader: *leader,
                    prev: *prev,
                    entries: entries@,
                    leader_commit: *leader_commit,
                }
            },
            Message::AppendResponse { term, from, success, last_index } => {
                MessageV::AppendResponse {
                    term: *term,
                    from: *from,
                    success: *success,
                    last_index: *last_index,
                }
            },
        }
    }
}

impl Clone for Message {
    fn clone(&self) -> (r: Message)
        ensures
            r@ == self@,
    {
        match self {
            Message::VoteRequest { term, candidate, last_log } => Message::VoteRequest {
                term: *term,
                candidate: *candidate,
                last_log: *last_log,
            },
            Message::VoteResponse { term, from, granted } => Message::VoteResponse {
                term: *term,
                from: *from,
                granted: *granted,
            },
            Message::AppendRequest { term, leader, prev, entries, leader_commit } => {
                let mut es: Vec<LogEntry> = Vec::new();
                let mut i: usize = 0;
                while i < entries.len()
                    invariant
                        i <= entries.len(),
                        es@ == entries@.subrange(0, i as int),
                    decreases entries.len() - i,
                {
                    es.push(entries[i]);
                    proof {
                        assert(es@ =~= entries@.subrange(0, i + 1));
                    }
                    i = i + 1;
                }
                proof {
                    assert(es@ =~= entries@);
                }
                Message::AppendRequest {
                    term: *term,
                    leader: *leader,
                    prev: *prev,
                    entries: es,
                    leader_commit: *leader_commit,
                }
            },
            Message::AppendResponse { term, from, success, last_index } => {
                Message::AppendResponse {
                    term: *term,
                    from: *from,
                    success: *success,
                    last_index: *last_index,
                }
            },
        }
    }
}

/// The mathematical shape of an [`Action`].
pub ghost enum ActionV {
    SendMessage(NodeId, MessageV),
    BroadcastMessage(MessageV),
    ApplyCommand(LogPosition),
}

/// An intent recorded by the state machine and executed by the caller, in
/// FIFO order: route a message to one peer, to every peer, or hand a newly
/// committed entry to the application.
pub enum Action {
    SendMessage(NodeId, Message),
    BroadcastMessage(Message),
    ApplyCommand(LogPosition),
}

impl View for Action {
    type V = ActionV;

    open spec fn view(&self) -> ActionV {
        match self {
            Action::SendMessage(dst, msg) => ActionV::SendMessage(*dst, msg@),
            Action::BroadcastMessage(msg) => ActionV::BroadcastMessage(msg@),
            Action::ApplyCommand(pos) => ActionV::ApplyCommand(*pos),
        }
    }
}

impl Clone for Action {
    fn clone(&self) -> (r: Action)
        ensures
            r@ == self@,
    {
        match self {
            Action::SendMessage(dst, msg) => Action::SendMessage(*dst, msg.clone()),
            Action::BroadcastMessage(msg) => Action::BroadcastMessage(msg.clone()),
            Action::ApplyCommand(pos) => Action::ApplyCommand(*pos),
        }
    }
}

/// Classification of a log position by [`crate::node::Node::get_commit_status`].
#[derive(Clone, Copy, PartialEq, Eq, Structural, Debug)]
pub enum CommitStatus {
    /// The index is beyond the log's current length.
    Unknown,
    /// The entry at the index carries the requested term but is not yet known
    /// to be replicated on a majority.
    Pending,
    /// The entry is durably replicated on a majority; this classification is
    /// permanent.
    Committed,
    /// The slot carries a different term than requested, so this position can
    /// never become committed.
    Overwritten,
}

impl CommitStatus {
    pub fn is_committed(&self) -> (r: bool)
        ensures
            r == (*self == CommitStatus::Committed),
    {
        match self {
            CommitStatus::Committed => true,
            _ => false,
        }
    }
}

} // verus!
