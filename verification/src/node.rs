//! The consensus state machine proper: role, term, log, commit index and
//! per-peer replication progress, driven purely by timeouts and messages.

use vstd::prelude::*;

use crate::types::Action;
use crate::types::ActionV;
use crate::types::CommitStatus;
use crate::types::EntryKind;
use crate::types::LogEntry;
use crate::types::LogPosition;
use crate::types::Message;
use crate::types::MessageV;
use crate::types::NodeId;
use crate::types::Role;
use crate::types::lex_geq;

verus! {

/// No two elements of the sequence are the same identifier.
pub open spec fn distinct_ids(s: Seq<NodeId>) -> bool {
    forall|i: int, j: int| 0 <= i < j < s.len() ==> s[i] != s[j]
}

/// How many of the first `upto` flags are set.
pub open spec fn count_true(s: Seq<bool>, upto: int) -> int
    decreases upto,
{
    if upto <= 0 {
        0
    } else {
        count_true(s, upto - 1) + if s[upto - 1] { 1int } else { 0int }
    }
}

/// How many of the first `upto` voters are known to hold the log through
/// index `n`: the leader itself always does, a peer does when its recorded
/// match index has reached `n`.
pub open spec fn count_replicated(
    voters: Seq<NodeId>,
    mat: Seq<u64>,
    id: NodeId,
    n: int,
    upto: int,
) -> int
    decreases upto,
{
    if upto <= 0 {
        0
    } else {
        count_replicated(voters, mat, id, n, upto - 1) + if voters[upto - 1] == id || mat[upto - 1]
            >= n {
            1int
        } else {
            0int
        }
    }
}

/// Index `n` of the log may be committed by a leader at `term`: the entry
/// there was created in the leader's current term and a majority of voters
/// hold the log through `n`.
pub open spec fn committable(
    log: Seq<LogEntry>,
    term: u64,
    voters: Seq<NodeId>,
    mat: Seq<u64>,
    id: NodeId,
    n: int,
) -> bool {
    &&& 1 <= n <= log.len()
    &&& log[n - 1].term == term
    &&& 2 * count_replicated(voters, mat, id, n, voters.len() as int) > voters.len()
}

/// The highest committable index at most `hi`, or 0 when there is none.
pub open spec fn best_commit(
    log: Seq<LogEntry>,
    term: u64,
    voters: Seq<NodeId>,
    mat: Seq<u64>,
    id: NodeId,
    hi: int,
) -> int
    decreases hi,
{
    if hi <= 0 {
        0
    } else if committable(log, term, voters, mat, id, hi) {
        hi
    } else {
        best_commit(log, term, voters, mat, id, hi - 1)
    }
}

/// The replication targets among the first `i` voters: every voter except
/// the node itself, in configuration order.
pub open spec fn targets_upto(voters: Seq<NodeId>, id: NodeId, i: int) -> Seq<NodeId>
    decreases i,
{
    if i <= 0 {
        Seq::empty()
    } else {
        targets_upto(voters, id, i - 1) + if voters[i - 1] == id {
            Seq::empty()
        } else {
            seq![voters[i - 1]]
        }
    }
}

/// The `ApplyCommand` intents for the log positions with indexes in
/// `(from, to]`, in ascending order.
pub open spec fn apply_actions(log: Seq<LogEntry>, from: int, to: int) -> Seq<ActionV>
    decreases to - from,
{
    if to <= from {
        Seq::empty()
    } else {
        apply_actions(log, from, to - 1).push(
            ActionV::ApplyCommand(LogPosition { term: log[to - 1].term, index: to as u64 }),
        )
    }
}

/// How many leading entries of `entries` are already present, unchanged, in
/// `log` starting at position `base` (0-based).
pub open spec fn match_len(log: Seq<LogEntry>, base: int, entries: Seq<LogEntry>) -> int
    decreases entries.len(),
{
    if entries.len() == 0 {
        0
    } else if 0 <= base < log.len() && log[base] == entries[0] {
        1 + match_len(log, base + 1, entries.drop_first())
    } else {
        0
    }
}

/// The position a replication request reports as directly preceding the
/// entries it carries, when the sender's next index for the peer is `next`.
pub open spec fn spec_prev_for(log: Seq<LogEntry>, next: int) -> LogPosition {
    if next <= 1 {
        LogPosition::spec_invalid()
    } else {
        LogPosition { term: log[next - 2].term, index: (next - 1) as u64 }
    }
}

/// `a` sends exactly the replication request described by the remaining
/// arguments to `dst`.
pub open spec fn is_append_to(
    a: ActionV,
    dst: NodeId,
    term: u64,
    leader: NodeId,
    prev: LogPosition,
    ents: Seq<LogEntry>,
    commit: u64,
) -> bool {
    a == ActionV::SendMessage(
        dst,
        MessageV::AppendRequest { term, leader, prev, entries: ents, leader_commit: commit },
    )
}

/// Every entry of a replication batch is well-formed: the batch extends
/// `prev` contiguously and carries terms no newer than the message's.
pub open spec fn entries_wf(prev: LogPosition, entries: Seq<LogEntry>, term: u64) -> bool {
    &&& prev.index == 0 ==> prev.term == 0
    &&& forall|j: int|
        0 <= j < entries.len() ==> (#[trigger] entries[j]).index == prev.index + 1 + j
            && entries[j].index < u64::MAX && 1 <= entries[j].term <= term
}

/// Entry `i` of a replication batch is already present, unchanged, in the
/// log when the batch extends position `base`.
pub open spec fn matches_at(log: Seq<LogEntry>, base: int, entries: Seq<LogEntry>, i: int) -> bool {
    base + i < log.len() && log[base + i] == entries[i]
}

/// The first `k` leading entries of a replication batch match the log, and
/// entry `k` (if any) does not.
pub proof fn lemma_match_len_char(log: Seq<LogEntry>, base: int, entries: Seq<LogEntry>)
    requires
        base >= 0,
    ensures
        0 <= match_len(log, base, entries) <= entries.len(),
        forall|i: int|
            0 <= i < match_len(log, base, entries) ==> #[trigger] matches_at(log, base, entries, i),
        match_len(log, base, entries) < entries.len() ==> !matches_at(
            log,
            base,
            entries,
            match_len(log, base, entries),
        ),
    decreases entries.len(),
{
    if entries.len() > 0 && 0 <= base < log.len() && log[base] == entries[0] {
        lemma_match_len_char(log, base + 1, entries.drop_first());
        let k = match_len(log, base, entries);
        let kp = match_len(log, base + 1, entries.drop_first());
        assert(k == 1 + kp);
        assert forall|i: int| 0 <= i < k implies #[trigger] matches_at(log, base, entries, i) by {
            if i > 0 {
                assert(matches_at(log, base + 1, entries.drop_first(), i - 1));
                assert(entries.drop_first()[i - 1] == entries[i]);
            }
        }
        if k < entries.len() {
            assert(!matches_at(log, base + 1, entries.drop_first(), kp));
            assert(entries.drop_first()[kp] == entries[k]);
        }
    }
}

/// A count over a flag sequence is 0 when every counted flag is clear.
proof fn lemma_count_true_zero(s: Seq<bool>, upto: int)
    requires
        forall|i: int| 0 <= i < upto ==> !s[i],
    ensures
        count_true(s, upto) == 0,
    decreases upto,
{
    if upto > 0 {
        lemma_count_true_zero(s, upto - 1);
    }
}

/// A count over a flag sequence lies between 0 and the number of flags
/// counted.
pub proof fn lemma_count_true_bounds(s: Seq<bool>, upto: int)
    ensures
        0 <= count_true(s, upto),
        count_true(s, upto) <= if upto >= 0 { upto } else { 0 },
    decreases upto,
{
    if upto > 0 {
        lemma_count_true_bounds(s, upto - 1);
    }
}

/// With distinct voters, the flags marking occurrences of one identifier
/// count to at most 1.
proof fn lemma_count_id_flags(voters: Seq<NodeId>, flags: Seq<bool>, id: NodeId, upto: int)
    requires
        distinct_ids(voters),
        flags.len() == voters.len(),
        upto <= voters.len(),
        forall|i: int| 0 <= i < flags.len() ==> flags[i] == (voters[i] == id),
    ensures
        count_true(flags, upto) <= 1,
    decreases upto,
{
    if upto > 0 {
        if flags[upto - 1] {
            assert forall|i: int| 0 <= i < upto - 1 implies !flags[i] by {
                assert(voters[upto - 1] == id);
            }
            lemma_count_true_zero(flags, upto - 1);
        } else {
            lemma_count_id_flags(voters, flags, id, upto - 1);
        }
    }
}

/// A majority of flags marking the occurrences of a single identifier in a
/// distinct voter sequence forces the one-voter cluster made of exactly that
/// identifier.
proof fn lemma_self_flags_majority(voters: Seq<NodeId>, flags: Seq<bool>, id: NodeId)
    requires
        distinct_ids(voters),
        flags.len() == voters.len(),
        forall|i: int| 0 <= i < flags.len() ==> flags[i] == (voters[i] == id),
        2 * count_true(flags, flags.len() as int) > voters.len(),
    ensures
        voters.len() == 1,
        voters[0] == id,
{
    lemma_count_id_flags(voters, flags, id, voters.len() as int);
    lemma_count_true_bounds(flags, voters.len() as int);
    assert(voters.len() == 1);
    assert(count_true(flags, 0) == 0);
    assert(count_true(flags, 1) == count_true(flags, 0) + if flags[0] {
        1int
    } else {
        0int
    });
    assert(flags[0]);
}

/// The highest committable index is itself committable (or there is none),
/// and never exceeds the scanned bound.
pub proof fn lemma_best_commit_char(
    log: Seq<LogEntry>,
    term: u64,
    voters: Seq<NodeId>,
    mat: Seq<u64>,
    id: NodeId,
    hi: int,
)
    ensures
        0 <= best_commit(log, term, voters, mat, id, hi),
        best_commit(log, term, voters, mat, id, hi) <= if hi >= 0 {
            hi
        } else {
            0
        },
        best_commit(log, term, voters, mat, id, hi) == 0 || committable(
            log,
            term,
            voters,
            mat,
            id,
            best_commit(log, term, voters, mat, id, hi),
        ),
    decreases hi,
{
    if hi > 0 && !committable(log, term, voters, mat, id, hi) {
        lemma_best_commit_char(log, term, voters, mat, id, hi - 1);
    }
}

/// There is one `ApplyCommand` intent per newly committed index.
pub proof fn lemma_apply_actions_len(log: Seq<LogEntry>, from: int, to: int)
    ensures
        apply_actions(log, from, to).len() == if to >= from {
            to - from
        } else {
            0
        },
    decreases to - from,
{
    if to > from {
        lemma_apply_actions_len(log, from, to - 1);
    }
}

/// The number of replication targets among the first `i` voters grows with
/// `i`, by exactly one at each voter other than the node itself.
pub proof fn lemma_targets_upto_mono(voters: Seq<NodeId>, id: NodeId, a: int, b: int)
    requires
        a <= b,
    ensures
        targets_upto(voters, id, a).len() <= targets_upto(voters, id, b).len(),
    decreases b - a,
{
    if a < b {
        lemma_targets_upto_mono(voters, id, a, b - 1);
    }
}

/// For a non-negative total `l`, holding more than `l / 2` (integer
/// division) is the same as holding a strict majority.
proof fn lemma_majority_div(c: int, l: int)
    requires
        0 <= c,
        0 <= l,
    ensures
        (c > l / 2) <==> (2 * c > l),
{
    vstd::arithmetic::div_mod::lemma_fundamental_div_mod(l, 2);
}

/// The state machine of one cluster member.
pub struct Node {
    pub id: NodeId,
    /// Monotonically non-decreasing epoch counter.
    pub current_term: u64,
    /// Whom this node granted its vote in `current_term`, if anyone.
    pub voted_for: Option<NodeId>,
    pub role: Role,
    /// The replicated log; the entry at sequence position `i` has index `i + 1`.
    pub log: Vec<LogEntry>,
    /// Highest index known replicated to a majority and safe to apply.
    pub commit_index: u64,
    /// The fixed member set established at bootstrap; empty before it.
    pub voters: Vec<NodeId>,
    /// While leader: the next log index to send to each voter, parallel to `voters`.
    pub next_index: Vec<u64>,
    /// While leader: the highest index known replicated on each voter.
    pub match_index: Vec<u64>,
    /// Which voters granted this node's vote request in `current_term`.
    pub votes_granted: Vec<bool>,
    /// Pending intents, drained in FIFO order by `actions_mut`.
    pub actions: Vec<Action>,
}

impl Node {
    /// Well-formedness: every state reachable through this library's
    /// operations satisfies it.
    pub open spec fn inv(self) -> bool {
        &&& self.log@.len() < u64::MAX
        &&& self.commit_index <= self.log@.len()
        &&& forall|i: int|
            0 <= i < self.log@.len() ==> (#[trigger] self.log@[i]).index == i + 1
        &&& forall|i: int|
            0 <= i < self.log@.len() ==> 1 <= (#[trigger] self.log@[i]).term
                <= self.current_term
        &&& self.next_index@.len() == self.voters@.len()
        &&& self.match_index@.len() == self.voters@.len()
        &&& self.votes_granted@.len() == self.voters@.len()
        &&& distinct_ids(self.voters@)
        &&& self.role != Role::Follower ==> self.current_term >= 1 && self.voted_for == Some(
            self.id,
        )
        &&& self.role == Role::Leader ==> 2 * count_true(
            self.votes_granted@,
            self.votes_granted@.len() as int,
        ) > self.voters@.len() && (forall|i: int|
            0 <= i < self.next_index@.len() ==> 1 <= #[trigger] self.next_index@[i]
                <= self.log@.len() + 1) && (forall|i: int|
            0 <= i < self.match_index@.len() ==> #[trigger] self.match_index@[i]
                <= self.log@.len())
    }

    /// The index of the last log entry; 0 when the log is empty.
    pub open spec fn last_log_index(self) -> u64 {
        self.log@.len() as u64
    }

    /// The term of the last log entry; 0 when the log is empty.
    pub open spec fn last_log_term(self) -> u64 {
        if self.log@.len() == 0 {
            0u64
        } else {
            self.log@.last().term
        }
    }

    pub open spec fn spec_last_pos(self) -> LogPosition {
        LogPosition { term: self.last_log_term(), index: self.last_log_index() }
    }

    /// The pending intents, as mathematical values.
    pub open spec fn spec_actions(self) -> Seq<ActionV> {
        Seq::new(self.actions@.len(), |i: int| self.actions@[i]@)
    }

    /// All state except the action queue is unchanged from `pre` to `post`.
    pub open spec fn same_core(pre: Node, post: Node) -> bool {
        &&& post.id == pre.id
        &&& post.current_term == pre.current_term
        &&& post.voted_for == pre.voted_for
        &&& post.role == pre.role
        &&& post.log == pre.log
        &&& post.commit_index == pre.commit_index
        &&& post.voters == pre.voters
        &&& post.next_index == pre.next_index
        &&& post.match_index == pre.match_index
        &&& post.votes_granted == pre.votes_granted
    }

    /// Classification of `pos` against the current log and commit index.
    pub open spec fn spec_commit_status(self, pos: LogPosition) -> CommitStatus {
        if pos.index == 0 || pos.index > self.log@.len() {
            CommitStatus::Unknown
        } else if self.log@[pos.index - 1].term == pos.term {
            if pos.index <= self.commit_index {
                CommitStatus::Committed
            } else {
                CommitStatus::Pending
            }
        } else {
            CommitStatus::Overwritten
        }
    }

    /// A fresh node: follower, term 0, empty log, no membership yet.
    pub fn start(id: NodeId) -> (r: Node)
        ensures
            r.inv(),
            r.id == id,
            r.current_term == 0,
            r.voted_for is None,
            r.role == Role::Follower,
            r.log@.len() == 0,
            r.commit_index == 0,
            r.voters@.len() == 0,
            r.spec_actions() == Seq::<ActionV>::empty(),
    {
        let r = Node {
            id,
            current_term: 0,
            voted_for: None,
            role: Role::Follower,
            log: Vec::new(),
            commit_index: 0,
            voters: Vec::new(),
            next_index: Vec::new(),
            match_index: Vec::new(),
            votes_granted: Vec::new(),
            actions: Vec::new(),
        };
        proof {
            assert(r.spec_actions() =~= Seq::<ActionV>::empty());
        }
        r
    }

    pub fn id(&self) -> (r: NodeId)
        ensures
            r == self.id,
    {
        self.id
    }

    pub fn role(&self) -> (r: Role)
        ensures
            r == self.role,
    {
        self.role
    }

    /// The configured voters excluding this node itself, in configuration
    /// order.
    #[verifier::loop_isolation(false)]
    pub fn peers(&self) -> (r: Vec<NodeId>)
        ensures
            r@ == targets_upto(self.voters@, self.id, self.voters@.len() as int),
    {
        let mut r: Vec<NodeId> = Vec::new();
        let mut i: usize = 0;
        while i < self.voters.len()
            invariant
                i <= self.voters@.len(),
                r@ == targets_upto(self.voters@, self.id, i as int),
            decreases self.voters@.len() - i,
        {
            let v = self.voters[i];
            if !(v.id == self.id.id) {
                r.push(v);
            }
            proof {
                assert(r@ =~= targets_upto(self.voters@, self.id, i + 1));
            }
            i = i + 1;
        }
        r
    }

    /// Drains the pending action queue: returns every action produced so far,
    /// in the order it was enqueued, and leaves the queue empty. Re-draining
    /// yields nothing until a later call enqueues new actions.
    pub fn actions_mut(&mut self) -> (r: Vec<Action>)
        ensures
            r@ == old(self).actions@,
            final(self).spec_actions() == Seq::<ActionV>::empty(),
            final(self).actions@.len() == 0,
            Node::same_core(*old(self), *final(self)),
    {
        let mut drained: Vec<Action> = Vec::new();
        core::mem::swap(&mut drained, &mut self.actions);
        proof {
            assert(self.spec_actions() =~= Seq::<ActionV>::empty());
        }
        drained
    }

    /// Classifies `pos`: committed (permanently), pending, overwritten by a
    /// different term, or beyond the log.
    pub fn get_commit_status(&self, pos: LogPosition) -> (r: CommitStatus)
        ensures
            r == self.spec_commit_status(pos),
    {
        if pos.index == 0 || pos.index > self.log.len() as u64 {
            CommitStatus::Unknown
        } else if self.log[(pos.index - 1) as usize].term == pos.term {
            if pos.index <= self.commit_index {
                CommitStatus::Committed
            } else {
                CommitStatus::Pending
            }
        } else {
            CommitStatus::Overwritten
        }
    }

    /// Appends one intent to the action queue and changes nothing else.
    fn enqueue(&mut self, a: Action)
        ensures
            final(self).spec_actions() == old(self).spec_actions().push(a@),
            Node::same_core(*old(self), *final(self)),
    {
        let ghost pre = *self;
        self.actions.push(a);
        proof {
            assert(self.spec_actions() =~= pre.spec_actions().push(a@));
        }
    }

    /// The node increments its term, becomes a candidate voting for itself,
    /// and broadcasts a vote request; a single-voter cluster short-circuits
    /// straight to leader because its own vote is already a majority.
    pub open spec fn election_step(pre: Node, post: Node) -> bool {
        let t = (pre.current_term + 1) as u64;
        let n = pre.voters@.len() as int;
        let flags = Seq::new(pre.voters@.len(), |i: int| pre.voters@[i] == pre.id);
        let win = 2 * count_true(flags, n) > n;
        &&& post.id == pre.id
        &&& post.current_term == t
        &&& post.voted_for == Some(pre.id)
        &&& post.votes_granted@ == flags
        &&& post.role == if win {
            Role::Leader
        } else {
            Role::Candidate
        }
        &&& post.log@ == pre.log@
        &&& post.commit_index == pre.commit_index
        &&& post.voters@ == pre.voters@
        &&& post.match_index@ == if win {
            Seq::new(pre.voters@.len(), |i: int| 0u64)
        } else {
            pre.match_index@
        }
        &&& post.next_index@ == if win {
            Seq::new(pre.voters@.len(), |i: int| (pre.log@.len() + 1) as u64)
        } else {
            pre.next_index@
        }
        &&& post.spec_actions() == pre.spec_actions().push(
            ActionV::BroadcastMessage(
                MessageV::VoteRequest { term: t, candidate: pre.id, last_log: pre.spec_last_pos() },
            ),
        )
    }

    /// A candidate that has collected a majority takes office: it resets the
    /// per-peer replication progress and immediately sends every peer an
    /// empty replication request asserting leadership.
    pub open spec fn leader_init_step(pre: Node, post: Node) -> bool {
        let n = pre.voters@.len();
        let tg = targets_upto(pre.voters@, pre.id, n as int);
        &&& post.id == pre.id
        &&& post.current_term == pre.current_term
        &&& post.voted_for == pre.voted_for
        &&& post.role == Role::Leader
        &&& post.log@ == pre.log@
        &&& post.commit_index == pre.commit_index
        &&& post.voters@ == pre.voters@
        &&& post.votes_granted@ == pre.votes_granted@
        &&& post.next_index@ == Seq::new(n, |i: int| (pre.log@.len() + 1) as u64)
        &&& post.match_index@ == Seq::new(n, |i: int| 0u64)
        &&& post.spec_actions().len() == pre.spec_actions().len() + tg.len()
        &&& forall|j: int|
            0 <= j < pre.spec_actions().len() ==> post.spec_actions()[j] == pre.spec_actions()[j]
        &&& forall|j: int|
            0 <= j < tg.len() ==> is_append_to(
                post.spec_actions()[pre.spec_actions().len() + j],
                tg[j],
                pre.current_term,
                pre.id,
                pre.spec_last_pos(),
                Seq::empty(),
                pre.commit_index,
            )
    }

    /// Bootstrapping establishes the membership, writes the configuration
    /// entry at position `(1, 1)`, and either takes office directly (a
    /// single-voter cluster containing this node) or starts an election.
    pub open spec fn bootstrap_step(pre: Node, post: Node, vs: Seq<NodeId>, r: LogPosition) -> bool {
        let t1 = if pre.current_term >= 1 {
            pre.current_term
        } else {
            1u64
        };
        let entry = LogEntry { term: 1, index: 1, kind: EntryKind::Config };
        let single = vs.len() == 1 && vs[0] == pre.id;
        &&& r == LogPosition { term: 1, index: 1 }
        &&& post.id == pre.id
        &&& post.log@ == seq![entry]
        &&& post.voters@ == vs
        &&& post.voted_for == Some(pre.id)
        &&& if single {
            &&& post.current_term == t1
            &&& post.role == Role::Leader
            &&& post.votes_granted@ == seq![true]
            &&& post.next_index@ == seq![2u64]
            &&& post.match_index@ == seq![0u64]
            &&& post.commit_index == if t1 == 1 {
                1u64
            } else {
                0u64
            }
            &&& post.spec_actions() == if t1 == 1 {
                pre.spec_actions().push(
                    ActionV::ApplyCommand(LogPosition { term: 1, index: 1 }),
                )
            } else {
                pre.spec_actions()
            }
        } else {
            &&& post.current_term == t1 + 1
            &&& post.role == Role::Candidate
            &&& post.votes_granted@ == Seq::new(vs.len(), |i: int| vs[i] == pre.id)
            &&& post.next_index@ == Seq::new(vs.len(), |i: int| 2u64)
            &&& post.match_index@ == Seq::new(vs.len(), |i: int| 0u64)
            &&& post.commit_index == 0
            &&& post.spec_actions() == pre.spec_actions().push(
                ActionV::BroadcastMessage(
                    MessageV::VoteRequest {
                        term: (t1 + 1) as u64,
                        candidate: pre.id,
                        last_log: LogPosition { term: 1, index: 1 },
                    },
                ),
            )
        }
    }

    /// The last log position as an executable value.
    fn last_pos(&self) -> (r: LogPosition)
        requires
            self.log@.len() <= u64::MAX,
        ensures
            r == self.spec_last_pos(),
    {
        let n = self.log.len();
        if n == 0 {
            LogPosition::invalid()
        } else {
            LogPosition { term: self.log[n - 1].term, index: n as u64 }
        }
    }

    /// How many voters granted the current vote solicitation.
    #[verifier::loop_isolation(false)]
    fn count_granted(&self) -> (c: usize)
        ensures
            c == count_true(self.votes_granted@, self.votes_granted@.len() as int),
    {
        let mut c: usize = 0;
        let mut i: usize = 0;
        while i < self.votes_granted.len()
            invariant
                i <= self.votes_granted@.len(),
                c == count_true(self.votes_granted@, i as int),
                c <= i,
            decreases self.votes_granted@.len() - i,
        {
            if self.votes_granted[i] {
                c = c + 1;
            }
            i = i + 1;
        }
        c
    }

    /// Whether `c` voters are a strict majority of the configured voter set.
    fn is_majority(&self, c: usize) -> (r: bool)
        ensures
            r == (2 * c > self.voters@.len()),
    {
        proof {
            lemma_majority_div(c as int, self.voters@.len() as int);
        }
        c > self.voters.len() / 2
    }

    /// Takes office after a majority of grants: see `leader_init_step`.
    #[verifier::loop_isolation(false)]
    fn become_leader(&mut self)
        requires
            old(self).inv(),
            old(self).role == Role::Candidate,
            2 * count_true(old(self).votes_granted@, old(self).votes_granted@.len() as int) > old(
                self,
            ).voters@.len(),
        ensures
            final(self).inv(),
            Node::leader_init_step(*old(self), *final(self)),
            final(self).voters == old(self).voters,
            final(self).log == old(self).log,
            final(self).votes_granted == old(self).votes_granted,
    {
        let ghost pre = *self;
        self.role = Role::Leader;
        let n = self.voters.len();
        let mut nexts: Vec<u64> = Vec::new();
        let mut mats: Vec<u64> = Vec::new();
        let mut i: usize = 0;
        while i < n
            invariant
                i <= n,
                n == self.voters@.len(),
                self.log@.len() < u64::MAX,
                nexts@ == Seq::new(i as nat, |j: int| (self.log@.len() + 1) as u64),
                mats@ == Seq::new(i as nat, |j: int| 0u64),
            decreases n - i,
        {
            nexts.push(self.log.len() as u64 + 1);
            mats.push(0u64);
            proof {
                assert(nexts@ =~= Seq::new((i + 1) as nat, |j: int| (self.log@.len() + 1) as u64));
                assert(mats@ =~= Seq::new((i + 1) as nat, |j: int| 0u64));
            }
            i = i + 1;
        }
        self.next_index = nexts;
        self.match_index = mats;
        let term = self.current_term;
        let commit = self.commit_index;
        let me = self.id;
        let last = self.last_pos();
        let mut k: usize = 0;
        while k < n
            invariant
                k <= n,
                n == self.voters@.len(),
                self.voters@ == pre.voters@,
                self.id == pre.id,
                me == pre.id,
                term == pre.current_term,
                commit == pre.commit_index,
                last == pre.spec_last_pos(),
                self.current_term == pre.current_term,
                self.voted_for == pre.voted_for,
                self.role == Role::Leader,
                self.log == pre.log,
                self.commit_index == pre.commit_index,
                self.voters == pre.voters,
                self.votes_granted == pre.votes_granted,
                self.next_index@ == Seq::new(n as nat, |j: int| (pre.log@.len() + 1) as u64),
                self.match_index@ == Seq::new(n as nat, |j: int| 0u64),
                self.spec_actions().len() == pre.spec_actions().len() + targets_upto(
                    pre.voters@,
                    pre.id,
                    k as int,
                ).len(),
                forall|j: int|
                    0 <= j < pre.spec_actions().len() ==> self.spec_actions()[j]
                        == pre.spec_actions()[j],
                forall|j: int|
                    0 <= j < targets_upto(pre.voters@, pre.id, k as int).len() ==> is_append_to(
                        self.spec_actions()[pre.spec_actions().len() + j],
                        targets_upto(pre.voters@, pre.id, k as int)[j],
                        pre.current_term,
                        pre.id,
                        pre.spec_last_pos(),
                        Seq::empty(),
                        pre.commit_index,
                    ),
            decreases n - k,
        {
            let v = self.voters[k];
            if !(v.id == me.id) {
                let msg = Message::AppendRequest {
                    term,
                    leader: me,
                    prev: last,
                    entries: Vec::new(),
                    leader_commit: commit,
                };
                self.enqueue(Action::SendMessage(v, msg));
                proof {
                    assert(targets_upto(pre.voters@, pre.id, k + 1) =~= targets_upto(
                        pre.voters@,
                        pre.id,
                        k as int,
                    ).push(v));
                }
            } else {
                proof {
                    assert(targets_upto(pre.voters@, pre.id, k + 1) =~= targets_upto(
                        pre.voters@,
                        pre.id,
                        k as int,
                    ));
                }
            }
            k = k + 1;
        }
    }

    /// See `election_step`; shared by the timeout handler and bootstrap.
    #[verifier::loop_isolation(false)]
    fn start_election(&mut self)
        requires
            old(self).inv(),
            old(self).current_term < u64::MAX,
        ensures
            final(self).inv(),
            Node::election_step(*old(self), *final(self)),
    {
        let ghost pre = *self;
        self.current_term = self.current_term + 1;
        self.voted_for = Some(self.id);
        self.role = Role::Candidate;
        let me = self.id;
        let mut flags: Vec<bool> = Vec::new();
        let mut i: usize = 0;
        while i < self.voters.len()
            invariant
                i <= self.voters@.len(),
                me == pre.id,
                self.voters@ == pre.voters@,
                flags@ == Seq::new(i as nat, |j: int| pre.voters@[j] == pre.id),
            decreases self.voters@.len() - i,
        {
            flags.push(self.voters[i].id == me.id);
            proof {
                assert(flags@ =~= Seq::new((i + 1) as nat, |j: int| pre.voters@[j] == pre.id));
            }
            i = i + 1;
        }
        self.votes_granted = flags;
        let last = self.last_pos();
        self.enqueue(
            Action::BroadcastMessage(
                Message::VoteRequest { term: self.current_term, candidate: me, last_log: last },
            ),
        );
        let c = self.count_granted();
        if self.is_majority(c) {
            let ghost mid = *self;
            self.become_leader();
            proof {
                lemma_self_flags_majority(pre.voters@, mid.votes_granted@, pre.id);
                assert(targets_upto(pre.voters@, pre.id, 0) =~= Seq::<NodeId>::empty());
                assert(targets_upto(pre.voters@, pre.id, 1) =~= Seq::<NodeId>::empty());
                assert(self.spec_actions() =~= mid.spec_actions());
                assert(self.spec_actions() == pre.spec_actions().push(
                    ActionV::BroadcastMessage(
                        MessageV::VoteRequest {
                            term: (pre.current_term + 1) as u64,
                            candidate: pre.id,
                            last_log: pre.spec_last_pos(),
                        },
                    ),
                ));
            }
        }
    }

    /// Establishes the cluster membership on a not-yet-bootstrapped node and
    /// writes the configuration entry at position `(1, 1)`; see
    /// `bootstrap_step`. Returns the configuration entry's position, or the
    /// invalid sentinel when the node already bootstrapped, the voter set is
    /// empty, or the voter set repeats a member.
    #[verifier::loop_isolation(false)]
    pub fn create_cluster(&mut self, voters: &[NodeId]) -> (r: LogPosition)
        requires
            old(self).inv(),
            old(self).current_term < u64::MAX,
        ensures
            final(self).inv(),
            final(self).id == old(self).id,
            final(self).current_term >= old(self).current_term,
            final(self).commit_index >= old(self).commit_index,
            ({
                let rejected = old(self).log@.len() != 0 || old(self).voters@.len() != 0
                    || voters@.len() == 0 || !distinct_ids(voters@);
                if rejected {
                    r == LogPosition::spec_invalid() && *final(self) == *old(self)
                } else {
                    Node::bootstrap_step(*old(self), *final(self), voters@, r)
                }
            }),
    {
        let ghost pre = *self;
        if self.log.len() != 0 || self.voters.len() != 0 || voters.len() == 0 {
            return LogPosition::invalid();
        }
        // a repeated member would corrupt majority counting
        let mut i: usize = 0;
        while i < voters.len()
            invariant
                i <= voters@.len(),
                distinct_ids(voters@.subrange(0, i as int)),
            decreases voters@.len() - i,
        {
            let mut j: usize = 0;
            while j < i
                invariant
                    j <= i < voters@.len(),
                    forall|q: int| 0 <= q < j ==> voters@[q] != voters@[i as int],
                decreases i - j,
            {
                if voters[j].id == voters[i].id {
                    proof {
                        assert(voters@[j as int] == voters@[i as int]);
                        assert(!distinct_ids(voters@));
                    }
                    return LogPosition::invalid();
                }
                j = j + 1;
            }
            proof {
                assert(distinct_ids(voters@.subrange(0, i + 1)));
            }
            i = i + 1;
        }
        proof {
            assert(voters@.subrange(0, voters@.len() as int) =~= voters@);
        }
        if self.current_term < 1 {
            self.current_term = 1;
        }
        self.voted_for = Some(self.id);
        let entry = LogEntry { term: 1, index: 1, kind: EntryKind::Config };
        self.log.push(entry);
        let mut vs: Vec<NodeId> = Vec::new();
        let mut k: usize = 0;
        while k < voters.len()
            invariant
                k <= voters@.len(),
                vs@ == voters@.subrange(0, k as int),
            decreases voters@.len() - k,
        {
            vs.push(voters[k]);
            proof {
                assert(vs@ =~= voters@.subrange(0, k + 1));
            }
            k = k + 1;
        }
        proof {
            assert(vs@ =~= voters@);
        }
        let single = vs.len() == 1 && vs[0].id == self.id.id;
        self.voters = vs;
        if single {
            self.role = Role::Leader;
            let mut granted: Vec<bool> = Vec::new();
            granted.push(true);
            self.votes_granted = granted;
            let mut nexts: Vec<u64> = Vec::new();
            nexts.push(2u64);
            self.next_index = nexts;
            let mut mats: Vec<u64> = Vec::new();
            mats.push(0u64);
            self.match_index = mats;
            if self.current_term == 1 {
                self.commit_index = 1;
                self.enqueue(Action::ApplyCommand(LogPosition { term: 1, index: 1 }));
            }
            proof {
                assert(self.log@ =~= seq![entry]);
                assert(self.votes_granted@ =~= seq![true]);
                assert(self.next_index@ =~= seq![2u64]);
                assert(self.match_index@ =~= seq![0u64]);
                assert(count_true(self.votes_granted@, 0) == 0);
                assert(count_true(self.votes_granted@, 1) == 1);
            }
        } else {
            let mut nexts: Vec<u64> = Vec::new();
            let mut mats: Vec<u64> = Vec::new();
            let mut granted: Vec<bool> = Vec::new();
            let n = self.voters.len();
            let mut q: usize = 0;
            while q < n
                invariant
                    q <= n,
                    n == self.voters@.len(),
                    nexts@ == Seq::new(q as nat, |j: int| 2u64),
                    mats@ == Seq::new(q as nat, |j: int| 0u64),
                    granted@ == Seq::new(q as nat, |j: int| false),
                decreases n - q,
            {
                nexts.push(2u64);
                mats.push(0u64);
                granted.push(false);
                proof {
                    assert(nexts@ =~= Seq::new((q + 1) as nat, |j: int| 2u64));
                    assert(mats@ =~= Seq::new((q + 1) as nat, |j: int| 0u64));
                    assert(granted@ =~= Seq::new((q + 1) as nat, |j: int| false));
                }
                q = q + 1;
            }
            self.next_index = nexts;
            self.match_index = mats;
            self.votes_granted = granted;
            let ghost mid = *self;
            self.start_election();
            proof {
                let ghost flags = Seq::new(mid.voters@.len(), |j: int| mid.voters@[j] == mid.id);
                assert(!(2 * count_true(flags, mid.voters@.len() as int)
                    > mid.voters@.len() as int)) by {
                    if 2 * count_true(flags, mid.voters@.len() as int) > mid.voters@.len() as int {
                        lemma_self_flags_majority(mid.voters@, flags, mid.id);
                    }
                }
                assert(self.log@ =~= seq![entry]);
                assert(self.next_index@ =~= Seq::new(voters@.len(), |j: int| 2u64));
                assert(self.match_index@ =~= Seq::new(voters@.len(), |j: int| 0u64));
                assert(self.votes_granted@ =~= Seq::new(voters@.len(), |j: int| voters@[j] == pre.id));
                assert(mid.spec_last_pos() == LogPosition { term: 1, index: 1 });
            }
        }
        LogPosition { term: 1, index: 1 }
    }

    /// On a follower or candidate: start a new election (see
    /// `election_step`). On a leader: a no-op, since leaders do not time out
    /// on elections.
    pub fn handle_election_timeout(&mut self)
        requires
            old(self).inv(),
            old(self).current_term < u64::MAX,
        ensures
            final(self).inv(),
            final(self).id == old(self).id,
            final(self).voters@ == old(self).voters@,
            final(self).current_term >= old(self).current_term,
            final(self).commit_index == old(self).commit_index,
            final(self).log@ == old(self).log@,
            old(self).role == Role::Leader ==> *final(self) == *old(self),
            old(self).role != Role::Leader ==> Node::election_step(*old(self), *final(self)),
    {
        match self.role {
            Role::Leader => {},
            _ => {
                self.start_election();
            },
        }
    }

    /// The commit index after re-evaluating the leader commit rule: the
    /// highest index replicated on a majority whose entry carries the current
    /// term, if that improves on the present commit index.
    pub open spec fn spec_new_commit(pre: Node) -> int {
        let b = best_commit(
            pre.log@,
            pre.current_term,
            pre.voters@,
            pre.match_index@,
            pre.id,
            pre.log@.len() as int,
        );
        if b > pre.commit_index {
            b
        } else {
            pre.commit_index as int
        }
    }

    /// A leader appends a command entry at `(current_term, last_index + 1)`,
    /// sends every peer the entries from that peer's next index onward, and
    /// re-evaluates the commit rule (which can only advance the commit index
    /// in a single-voter cluster, where the leader alone is a majority).
    pub open spec fn propose_step(pre: Node, post: Node, r: LogPosition) -> bool {
        let nlen = pre.log@.len() + 1;
        let e = LogEntry { term: pre.current_term, index: nlen as u64, kind: EntryKind::Command };
        let log1 = pre.log@.push(e);
        let tg = targets_upto(pre.voters@, pre.id, pre.voters@.len() as int);
        let base = pre.spec_actions().len() as int;
        let mid = Node { log: post.log, commit_index: pre.commit_index, ..post };
        let c1 = Node::spec_new_commit(mid);
        &&& r == LogPosition { term: pre.current_term, index: nlen as u64 }
        &&& post.id == pre.id
        &&& post.current_term == pre.current_term
        &&& post.voted_for == pre.voted_for
        &&& post.role == pre.role
        &&& post.voters@ == pre.voters@
        &&& post.votes_granted@ == pre.votes_granted@
        &&& post.next_index@ == pre.next_index@
        &&& post.match_index@ == pre.match_index@
        &&& post.log@ == log1
        &&& post.commit_index == c1
        &&& post.spec_actions().len() == base + tg.len() + (c1 - pre.commit_index)
        &&& forall|j: int| 0 <= j < base ==> post.spec_actions()[j] == pre.spec_actions()[j]
        &&& forall|q: int|
            0 <= q < pre.voters@.len() && pre.voters@[q] != pre.id ==> is_append_to(
                post.spec_actions()[base + targets_upto(pre.voters@, pre.id, q).len()],
                pre.voters@[q],
                pre.current_term,
                pre.id,
                spec_prev_for(log1, pre.next_index@[q] as int),
                log1.subrange(pre.next_index@[q] - 1, nlen as int),
                pre.commit_index,
            )
        &&& post.spec_actions().subrange(base + tg.len(), post.spec_actions().len() as int)
            == apply_actions(log1, pre.commit_index as int, c1)
    }

    /// How many voters hold the log through index `n`.
    #[verifier::loop_isolation(false)]
    fn count_replication(&self, n: u64) -> (c: usize)
        requires
            self.match_index@.len() == self.voters@.len(),
        ensures
            c == count_replicated(
                self.voters@,
                self.match_index@,
                self.id,
                n as int,
                self.voters@.len() as int,
            ),
    {
        let mut c: usize = 0;
        let mut i: usize = 0;
        while i < self.voters.len()
            invariant
                i <= self.voters@.len(),
                c <= i,
                c == count_replicated(self.voters@, self.match_index@, self.id, n as int, i as int),
            decreases self.voters@.len() - i,
        {
            if self.voters[i].id == self.id.id || self.match_index[i] >= n {
                c = c + 1;
            }
            i = i + 1;
        }
        c
    }

    /// The commit index the leader commit rule yields for the current state.
    #[verifier::loop_isolation(false)]
    fn compute_commit(&self) -> (r: u64)
        requires
            self.inv(),
        ensures
            r as int == Node::spec_new_commit(*self),
            self.commit_index <= r <= self.log@.len(),
    {
        let ghost best = best_commit(
            self.log@,
            self.current_term,
            self.voters@,
            self.match_index@,
            self.id,
            self.log@.len() as int,
        );
        let mut n: u64 = self.log.len() as u64;
        while n > self.commit_index
            invariant
                self.commit_index <= n <= self.log@.len(),
                best == best_commit(
                    self.log@,
                    self.current_term,
                    self.voters@,
                    self.match_index@,
                    self.id,
                    n as int,
                ),
            decreases n,
        {
            if self.log[(n - 1) as usize].term == self.current_term {
                let c = self.count_replication(n);
                if self.is_majority(c) {
                    proof {
                        assert(committable(
                            self.log@,
                            self.current_term,
                            self.voters@,
                            self.match_index@,
                            self.id,
                            n as int,
                        ));
                    }
                    return n;
                }
            }
            proof {
                assert(!committable(
                    self.log@,
                    self.current_term,
                    self.voters@,
                    self.match_index@,
                    self.id,
                    n as int,
                ));
            }
            n = n - 1;
        }
        proof {
            lemma_best_commit_char(
                self.log@,
                self.current_term,
                self.voters@,
                self.match_index@,
                self.id,
                n as int,
            );
        }
        self.commit_index
    }

    /// Re-evaluates the leader commit rule and enqueues an `ApplyCommand`
    /// intent, in ascending order, for every newly committed position.
    #[verifier::loop_isolation(false)]
    fn advance_commit(&mut self)
        requires
            old(self).inv(),
        ensures
            final(self).inv(),
            final(self).id == old(self).id,
            final(self).current_term == old(self).current_term,
            final(self).voted_for == old(self).voted_for,
            final(self).role == old(self).role,
            final(self).log == old(self).log,
            final(self).voters == old(self).voters,
            final(self).next_index == old(self).next_index,
            final(self).match_index == old(self).match_index,
            final(self).votes_granted == old(self).votes_granted,
            final(self).commit_index as int == Node::spec_new_commit(*old(self)),
            final(self).commit_index >= old(self).commit_index,
            final(self).spec_actions() == old(self).spec_actions() + apply_actions(
                old(self).log@,
                old(self).commit_index as int,
                final(self).commit_index as int,
            ),
    {
        let ghost pre = *self;
        let target = self.compute_commit();
        let mut idx = self.commit_index;
        self.commit_index = target;
        proof {
            assert(self.spec_actions() =~= pre.spec_actions() + apply_actions(
                pre.log@,
                pre.commit_index as int,
                idx as int,
            ));
        }
        while idx < target
            invariant
                pre.commit_index <= idx <= target,
                self.id == pre.id,
                self.current_term == pre.current_term,
                self.voted_for == pre.voted_for,
                self.role == pre.role,
                self.log == pre.log,
                self.voters == pre.voters,
                self.next_index == pre.next_index,
                self.match_index == pre.match_index,
                self.votes_granted == pre.votes_granted,
                self.commit_index == target,
                self.spec_actions() == pre.spec_actions() + apply_actions(
                    pre.log@,
                    pre.commit_index as int,
                    idx as int,
                ),
            decreases target - idx,
        {
            let llen = self.log.len();
            proof {
                assert(idx < llen);
            }
            let e = self.log[idx as usize];
            self.enqueue(Action::ApplyCommand(LogPosition { term: e.term, index: idx + 1 }));
            proof {
                assert(self.spec_actions() =~= pre.spec_actions() + apply_actions(
                    pre.log@,
                    pre.commit_index as int,
                    idx + 1,
                ));
            }
            idx = idx + 1;
        }
    }

    /// The log entries from 0-based position `from` to the end, as a fresh
    /// vector.
    #[verifier::loop_isolation(false)]
    fn copy_log_suffix(&self, from: usize) -> (r: Vec<LogEntry>)
        requires
            from <= self.log@.len(),
        ensures
            r@ == self.log@.subrange(from as int, self.log@.len() as int),
    {
        let mut r: Vec<LogEntry> = Vec::new();
        let mut i: usize = from;
        while i < self.log.len()
            invariant
                from <= i <= self.log@.len(),
                r@ == self.log@.subrange(from as int, i as int),
            decreases self.log@.len() - i,
        {
            r.push(self.log[i]);
            proof {
                assert(r@ =~= self.log@.subrange(from as int, i + 1));
            }
            i = i + 1;
        }
        proof {
            assert(r@ =~= self.log@.subrange(from as int, self.log@.len() as int));
        }
        r
    }

    /// Enqueues one replication request to the voter at position `vi`,
    /// carrying the entries from that peer's next index onward.
    fn send_append_to(&mut self, vi: usize)
        requires
            old(self).inv(),
            old(self).role == Role::Leader,
            vi < old(self).voters@.len(),
        ensures
            final(self).inv(),
            Node::same_core(*old(self), *final(self)),
            final(self).spec_actions() == old(self).spec_actions().push(
                ActionV::SendMessage(
                    old(self).voters@[vi as int],
                    MessageV::AppendRequest {
                        term: old(self).current_term,
                        leader: old(self).id,
                        prev: spec_prev_for(old(self).log@, old(self).next_index@[vi as int] as int),
                        entries: old(self).log@.subrange(
                            old(self).next_index@[vi as int] - 1,
                            old(self).log@.len() as int,
                        ),
                        leader_commit: old(self).commit_index,
                    },
                ),
            ),
    {
        let nx = self.next_index[vi];
        let llen = self.log.len();
        proof {
            assert(llen == self.log@.len());
            assert(1 <= nx <= llen + 1);
        }
        let prev = if nx <= 1 {
            LogPosition::invalid()
        } else {
            LogPosition { term: self.log[(nx - 2) as usize].term, index: nx - 1 }
        };
        let ents = self.copy_log_suffix((nx - 1) as usize);
        let msg = Message::AppendRequest {
            term: self.current_term,
            leader: self.id,
            prev,
            entries: ents,
            leader_commit: self.commit_index,
        };
        let dst = self.voters[vi];
        self.enqueue(Action::SendMessage(dst, msg));
    }

    /// On a leader: appends a command entry, replicates it to every peer and
    /// re-evaluates the commit rule (see `propose_step`); returns the new
    /// entry's position. On any other role: no state change, and the invalid
    /// sentinel is returned so the caller can retry against the leader.
    #[verifier::loop_isolation(false)]
    #[verifier::rlimit(100)]
    pub fn propose_command(&mut self) -> (r: LogPosition)
        requires
            old(self).inv(),
            old(self).log@.len() + 1 < u64::MAX,
        ensures
            final(self).inv(),
            final(self).id == old(self).id,
            final(self).voters@ == old(self).voters@,
            final(self).current_term == old(self).current_term,
            final(self).commit_index >= old(self).commit_index,
            forall|i: int|
                0 <= i < old(self).commit_index ==> final(self).log@[i] == old(self).log@[i],
            old(self).role != Role::Leader ==> *final(self) == *old(self) && r
                == LogPosition::spec_invalid(),
            old(self).role == Role::Leader ==> Node::propose_step(*old(self), *final(self), r),
    {
        let is_leader = match self.role {
            Role::Leader => true,
            _ => false,
        };
        if !is_leader {
            return LogPosition::invalid();
        }
        let ghost pre = *self;
        let idx = self.log.len() as u64 + 1;
        let term = self.current_term;
        let e = LogEntry { term, index: idx, kind: EntryKind::Command };
        self.log.push(e);
        let ghost log1 = self.log@;
        let ghost base = pre.spec_actions().len() as int;
        let n = self.voters.len();
        let me = self.id;
        let mut i: usize = 0;
        while i < n
            invariant
                i <= n,
                n == pre.voters@.len(),
                self.id == pre.id,
                me == pre.id,
                term == pre.current_term,
                self.current_term == pre.current_term,
                self.voted_for == pre.voted_for,
                self.role == Role::Leader,
                self.log@ == log1,
                log1 == pre.log@.push(e),
                self.commit_index == pre.commit_index,
                self.voters == pre.voters,
                self.next_index == pre.next_index,
                self.match_index == pre.match_index,
                self.votes_granted == pre.votes_granted,
                self.inv(),
                self.spec_actions().len() == base + targets_upto(
                    pre.voters@,
                    pre.id,
                    i as int,
                ).len(),
                forall|j: int|
                    0 <= j < base ==> self.spec_actions()[j] == pre.spec_actions()[j],
                forall|q: int|
                    0 <= q < i && pre.voters@[q] != pre.id ==> is_append_to(
                        self.spec_actions()[base + targets_upto(pre.voters@, pre.id, q).len()],
                        pre.voters@[q],
                        pre.current_term,
                        pre.id,
                        spec_prev_for(log1, pre.next_index@[q] as int),
                        log1.subrange(pre.next_index@[q] - 1, log1.len() as int),
                        pre.commit_index,
                    ),
            decreases n - i,
        {
            let v = self.voters[i];
            if !(v.id == me.id) {
                self.send_append_to(i);
                proof {
                    assert(targets_upto(pre.voters@, pre.id, i + 1) =~= targets_upto(
                        pre.voters@,
                        pre.id,
                        i as int,
                    ).push(v));
                    assert forall|q: int|
                        0 <= q < i + 1 && pre.voters@[q] != pre.id implies is_append_to(
                        self.spec_actions()[base + targets_upto(pre.voters@, pre.id, q).len()],
                        pre.voters@[q],
                        pre.current_term,
                        pre.id,
                        spec_prev_for(log1, pre.next_index@[q] as int),
                        log1.subrange(pre.next_index@[q] - 1, log1.len() as int),
                        pre.commit_index,
                    ) by {
                        if q < i {
                            lemma_targets_upto_mono(pre.voters@, pre.id, q + 1, i as int);
                        }
                    }
                }
            } else {
                proof {
                    assert(targets_upto(pre.voters@, pre.id, i + 1) =~= targets_upto(
                        pre.voters@,
                        pre.id,
                        i as int,
                    ));
                }
            }
            i = i + 1;
        }
        let ghost mid = *self;
        self.advance_commit();
        proof {
            lemma_targets_upto_mono(pre.voters@, pre.id, 0, n as int);
            lemma_apply_actions_len(log1, pre.commit_index as int, self.commit_index as int);
            assert(self.spec_actions().subrange(
                base + targets_upto(pre.voters@, pre.id, n as int).len(),
                self.spec_actions().len() as int,
            ) =~= apply_actions(log1, pre.commit_index as int, self.commit_index as int));
            assert forall|q: int|
                0 <= q < pre.voters@.len() && pre.voters@[q] != pre.id implies is_append_to(
                self.spec_actions()[base + targets_upto(pre.voters@, pre.id, q).len()],
                pre.voters@[q],
                pre.current_term,
                pre.id,
                spec_prev_for(log1, pre.next_index@[q] as int),
                log1.subrange(pre.next_index@[q] - 1, log1.len() as int),
                pre.commit_index,
            ) by {
                lemma_targets_upto_mono(pre.voters@, pre.id, q + 1, n as int);
                assert(mid.spec_actions()[base + targets_upto(pre.voters@, pre.id, q).len()]
                    == self.spec_actions()[base + targets_upto(pre.voters@, pre.id, q).len()]);
            }
        }
        LogPosition { term, index: idx }
    }

    /// Discovering a higher term always demotes: the node adopts the term,
    /// clears its vote, and reverts to follower. A message term at most the
    /// current one changes nothing.
    pub open spec fn adopt_step(pre: Node, post: Node, term: u64) -> bool {
        if term > pre.current_term {
            &&& post.id == pre.id
            &&& post.current_term == term
            &&& post.voted_for is None
            &&& post.role == Role::Follower
            &&& post.log == pre.log
            &&& post.commit_index == pre.commit_index
            &&& post.voters == pre.voters
            &&& post.next_index == pre.next_index
            &&& post.match_index == pre.match_index
            &&& post.votes_granted == pre.votes_granted
            &&& post.actions == pre.actions
        } else {
            post == pre
        }
    }

    fn maybe_adopt(&mut self, term: u64)
        requires
            old(self).inv(),
        ensures
            final(self).inv(),
            Node::adopt_step(*old(self), *final(self), term),
            final(self).current_term >= term,
            final(self).current_term >= old(self).current_term,
    {
        if term > self.current_term {
            self.current_term = term;
            self.voted_for = None;
            self.role = Role::Follower;
        }
    }

    /// The position of `x` in the voter sequence, if it is a member.
    #[verifier::loop_isolation(false)]
    fn find_voter(&self, x: NodeId) -> (r: Option<usize>)
        requires
            distinct_ids(self.voters@),
        ensures
            match r {
                Some(i) => i < self.voters@.len() && self.voters@[i as int] == x,
                None => !self.voters@.contains(x),
            },
    {
        let mut i: usize = 0;
        while i < self.voters.len()
            invariant
                i <= self.voters@.len(),
                forall|j: int| 0 <= j < i ==> self.voters@[j] != x,
            decreases self.voters@.len() - i,
        {
            if self.voters[i].id == x.id {
                return Some(i);
            }
            i = i + 1;
        }
        None
    }

    /// A vote request is granted exactly when the requester's term is
    /// current (after any adoption), no different vote is already recorded
    /// for that term, and the requester's last log position is at least as
    /// recent as the receiver's under the `(term, index)` rule; granting
    /// records the vote but never changes role.
    pub open spec fn vote_request_step(
        pre: Node,
        post: Node,
        term: u64,
        candidate: NodeId,
        last: LogPosition,
    ) -> bool {
        let up = term > pre.current_term;
        let cur = if up {
            term
        } else {
            pre.current_term
        };
        let vf0 = if up {
            None
        } else {
            pre.voted_for
        };
        let role0 = if up {
            Role::Follower
        } else {
            pre.role
        };
        let grant = term == cur && (vf0 is None || vf0 == Some(candidate)) && lex_geq(
            last.term,
            last.index,
            pre.last_log_term(),
            pre.last_log_index(),
        );
        &&& post.id == pre.id
        &&& post.current_term == cur
        &&& post.role == role0
        &&& post.voted_for == if grant {
            Some(candidate)
        } else {
            vf0
        }
        &&& post.log == pre.log
        &&& post.commit_index == pre.commit_index
        &&& post.voters == pre.voters
        &&& post.next_index == pre.next_index
        &&& post.match_index == pre.match_index
        &&& post.votes_granted == pre.votes_granted
        &&& post.spec_actions() == pre.spec_actions().push(
            ActionV::SendMessage(
                candidate,
                MessageV::VoteResponse { term: cur, from: pre.id, granted: grant },
            ),
        )
    }

    fn on_vote_request(&mut self, term: u64, candidate: NodeId, last: LogPosition)
        requires
            old(self).inv(),
        ensures
            final(self).inv(),
            Node::vote_request_step(*old(self), *final(self), term, candidate, last),
            final(self).id == old(self).id,
            final(self).voters == old(self).voters,
            final(self).current_term >= old(self).current_term,
            final(self).commit_index >= old(self).commit_index,
            final(self).log@.len() >= old(self).commit_index,
            forall|i: int|
                0 <= i < old(self).commit_index ==> final(self).log@[i] == old(self).log@[i],
            final(self).current_term == old(self).current_term && old(self).voted_for is Some
                ==> final(self).voted_for == old(self).voted_for,
    {
        self.maybe_adopt(term);
        let my_last = self.last_pos();
        let up_to_date = last.term > my_last.term || (last.term == my_last.term && last.index
            >= my_last.index);
        let can_vote = match self.voted_for {
            None => true,
            Some(v) => v.id == candidate.id,
        };
        let grant = term == self.current_term && can_vote && up_to_date;
        if grant {
            self.voted_for = Some(candidate);
        }
        let me = self.id;
        let cur = self.current_term;
        self.enqueue(
            Action::SendMessage(
                candidate,
                Message::VoteResponse { term: cur, from: me, granted: grant },
            ),
        );
    }

    /// A vote response matters only to a candidate soliciting for exactly
    /// that term, from an actual voter, and only when affirmative: the grant
    /// is recorded, and on reaching a majority the candidate takes office
    /// (see `leader_init_step`). Anything else is ignored, except that a
    /// higher term demotes.
    pub open spec fn vote_response_step(
        pre: Node,
        post: Node,
        term: u64,
        from: NodeId,
        granted: bool,
    ) -> bool {
        if term > pre.current_term {
            Node::adopt_step(pre, post, term)
        } else if term == pre.current_term && pre.role == Role::Candidate && granted
            && pre.voters@.contains(from) {
            let i = choose|i: int| 0 <= i < pre.voters@.len() && pre.voters@[i] == from;
            let g1 = pre.votes_granted@.update(i, true);
            let won = 2 * count_true(g1, g1.len() as int) > pre.voters@.len();
            &&& post.votes_granted@ == g1
            &&& if won {
                Node::leader_init_step(
                    Node { votes_granted: post.votes_granted, role: Role::Candidate, ..pre },
                    post,
                )
            } else {
                &&& post.id == pre.id
                &&& post.current_term == pre.current_term
                &&& post.voted_for == pre.voted_for
                &&& post.role == Role::Candidate
                &&& post.log == pre.log
                &&& post.commit_index == pre.commit_index
                &&& post.voters == pre.voters
                &&& post.next_index == pre.next_index
                &&& post.match_index == pre.match_index
                &&& post.spec_actions() == pre.spec_actions()
            }
        } else {
            post == pre
        }
    }

    fn on_vote_response(&mut self, term: u64, from: NodeId, granted: bool)
        requires
            old(self).inv(),
        ensures
            final(self).inv(),
            Node::vote_response_step(*old(self), *final(self), term, from, granted),
            final(self).id == old(self).id,
            final(self).voters == old(self).voters,
            final(self).current_term >= old(self).current_term,
            final(self).commit_index >= old(self).commit_index,
            final(self).log@.len() >= old(self).commit_index,
            forall|i: int|
                0 <= i < old(self).commit_index ==> final(self).log@[i] == old(self).log@[i],
            final(self).current_term == old(self).current_term && old(self).voted_for is Some
                ==> final(self).voted_for == old(self).voted_for,
    {
        let ghost pre = *self;
        self.maybe_adopt(term);
        if term != self.current_term {
            return ;
        }
        let is_candidate = match self.role {
            Role::Candidate => true,
            _ => false,
        };
        if !is_candidate || !granted {
            return ;
        }
        let found = self.find_voter(from);
        match found {
            None => {},
            Some(i) => {
                self.votes_granted.set(i, true);
                proof {
                    let wi = choose|w: int|
                        0 <= w < pre.voters@.len() && pre.voters@[w] == from;
                    assert(wi == i as int);
                }
                let c = self.count_granted();
                if self.is_majority(c) {
                    self.become_leader();
                }
            },
        }
    }

    /// Whether a replication request is accepted: its batch is well-formed,
    /// the log matches the stated previous position, and accepting would not
    /// overwrite an already committed entry.
    pub open spec fn append_accept(
        pre: Node,
        term: u64,
        prev: LogPosition,
        entries: Seq<LogEntry>,
    ) -> bool {
        &&& entries_wf(prev, entries, term)
        &&& prev.index <= pre.log@.len()
        &&& prev.index == 0 || pre.log@[prev.index - 1].term == prev.term
        &&& match_len(pre.log@, prev.index as int, entries) == entries.len() || prev.index
            + match_len(pre.log@, prev.index as int, entries) >= pre.commit_index
    }

    /// The log after accepting a replication request: the already matching
    /// prefix of the batch is kept in place, a conflicting suffix is
    /// truncated away, and the remaining new entries are appended.
    pub open spec fn append_result(pre: Node, prev: LogPosition, entries: Seq<LogEntry>) -> Seq<
        LogEntry,
    > {
        let k = match_len(pre.log@, prev.index as int, entries);
        if k == entries.len() {
            pre.log@
        } else {
            pre.log@.subrange(0, prev.index + k) + entries.subrange(k, entries.len() as int)
        }
    }

    /// A replication request from a stale term is answered negatively; one
    /// from the current term turns a candidate into a follower, is accepted
    /// exactly under `append_accept`, advances the commit index to the
    /// leader's advertised commit (capped by the last index the request
    /// confirms, and never backwards), applies every newly committed entry,
    /// and is answered with the highest index it confirmed.
    pub open spec fn append_request_step(
        pre: Node,
        post: Node,
        term: u64,
        leader: NodeId,
        prev: LogPosition,
        entries: Seq<LogEntry>,
        leader_commit: u64,
    ) -> bool {
        let up = term > pre.current_term;
        let cur = if up {
            term
        } else {
            pre.current_term
        };
        let vf0 = if up {
            None
        } else {
            pre.voted_for
        };
        let role0 = if up {
            Role::Follower
        } else {
            pre.role
        };
        if term < cur {
            &&& Node::same_core(pre, post)
            &&& post.spec_actions() == pre.spec_actions().push(
                ActionV::SendMessage(
                    leader,
                    MessageV::AppendResponse {
                        term: pre.current_term,
                        from: pre.id,
                        success: false,
                        last_index: pre.last_log_index(),
                    },
                ),
            )
        } else if role0 == Role::Leader {
            post == pre
        } else {
            let accept = Node::append_accept(pre, term, prev, entries);
            let new_log = Node::append_result(pre, prev, entries);
            let lastn = prev.index + entries.len();
            let c1 = vstd::math::max(
                pre.commit_index as int,
                vstd::math::min(leader_commit as int, lastn as int),
            );
            &&& post.id == pre.id
            &&& post.current_term == cur
            &&& post.voted_for == vf0
            &&& post.role == Role::Follower
            &&& post.voters == pre.voters
            &&& post.next_index == pre.next_index
            &&& post.match_index == pre.match_index
            &&& post.votes_granted == pre.votes_granted
            &&& if accept {
                &&& post.log@ == new_log
                &&& post.commit_index == c1
                &&& post.spec_actions() == pre.spec_actions() + apply_actions(
                    new_log,
                    pre.commit_index as int,
                    c1,
                ) + seq![
                    ActionV::SendMessage(
                        leader,
                        MessageV::AppendResponse {
                            term: cur,
                            from: pre.id,
                            success: true,
                            last_index: lastn as u64,
                        },
                    ),
                ]
            } else {
                &&& post.log == pre.log
                &&& post.commit_index == pre.commit_index
                &&& post.spec_actions() == pre.spec_actions().push(
                    ActionV::SendMessage(
                        leader,
                        MessageV::AppendResponse {
                            term: cur,
                            from: pre.id,
                            success: false,
                            last_index: pre.last_log_index(),
                        },
                    ),
                )
            }
        }
    }

    #[verifier::loop_isolation(false)]
    #[verifier::rlimit(100)]
    fn on_append_request(
        &mut self,
        term: u64,
        leader: NodeId,
        prev: LogPosition,
        entries: &Vec<LogEntry>,
        leader_commit: u64,
    )
        requires
            old(self).inv(),
        ensures
            final(self).inv(),
            Node::append_request_step(
                *old(self),
                *final(self),
                term,
                leader,
                prev,
                entries@,
                leader_commit,
            ),
            final(self).id == old(self).id,
            final(self).voters == old(self).voters,
            final(self).current_term >= old(self).current_term,
            final(self).commit_index >= old(self).commit_index,
            final(self).log@.len() >= old(self).commit_index,
            forall|i: int|
                0 <= i < old(self).commit_index ==> final(self).log@[i] == old(self).log@[i],
            final(self).current_term == old(self).current_term && old(self).voted_for is Some
                ==> final(self).voted_for == old(self).voted_for,
    {
        let ghost pre = *self;
        self.maybe_adopt(term);
        let me = self.id;
        if term < self.current_term {
            let last = self.log.len() as u64;
            self.enqueue(
                Action::SendMessage(
                    leader,
                    Message::AppendResponse {
                        term: self.current_term,
                        from: me,
                        success: false,
                        last_index: last,
                    },
                ),
            );
            return ;
        }
        let was_leader = match self.role {
            Role::Leader => true,
            _ => false,
        };
        if was_leader {
            return ;
        }
        self.role = Role::Follower;
        let cur = self.current_term;
        let n = entries.len();
        // batch shape
        let mut wf = prev.index != 0 || prev.term == 0;
        let mut j: usize = 0;
        while j < n
            invariant
                j <= n,
                n == entries@.len(),
                wf == ((prev.index == 0 ==> prev.term == 0) && forall|q: int|
                    0 <= q < j ==> (#[trigger] entries@[q]).index == prev.index + 1 + q
                        && entries@[q].index < u64::MAX && 1 <= entries@[q].term <= term),
            decreases n - j,
        {
            let e = entries[j];
            let good = e.index > prev.index && e.index - prev.index - 1 == j as u64 && e.index
                < u64::MAX && 1 <= e.term && e.term <= term;
            wf = wf && good;
            j = j + 1;
        }
        // previous-position match
        let llen = self.log.len();
        let prev_ok = prev.index <= llen as u64 && (prev.index == 0 || self.log[(prev.index
            - 1) as usize].term == prev.term);
        // matching prefix of the batch
        proof {
            lemma_match_len_char(pre.log@, prev.index as int, entries@);
        }
        let ghost km = match_len(pre.log@, prev.index as int, entries@);
        let mut k: usize = 0;
        if prev_ok {
            while k < n && (prev.index as usize) + k < llen && self.log[(prev.index
                as usize) + k] == entries[k]
                invariant
                    prev_ok,
                    k <= n,
                    prev.index + k <= llen,
                    forall|q: int| 0 <= q < k ==> #[trigger] matches_at(
                        pre.log@,
                        prev.index as int,
                        entries@,
                        q,
                    ),
                decreases n - k,
            {
                k = k + 1;
            }
            proof {
                if k < km {
                    assert(matches_at(pre.log@, prev.index as int, entries@, k as int));
                    assert(false);
                }
                if km < k {
                    assert(matches_at(pre.log@, prev.index as int, entries@, km));
                    assert(false);
                }
                assert(k == km);
            }
        }
        let accept = wf && prev_ok && (k == n || prev.index + k as u64 >= self.commit_index);
        proof {
            assert(accept == Node::append_accept(pre, term, prev, entries@));
        }
        if !accept {
            let last = self.log.len() as u64;
            self.enqueue(
                Action::SendMessage(
                    leader,
                    Message::AppendResponse {
                        term: cur,
                        from: me,
                        success: false,
                        last_index: last,
                    },
                ),
            );
            return ;
        }
        let ghost pra = *self;
        if k < n {
            let cut = (prev.index as usize) + k;
            self.log.truncate(cut);
            let mut t: usize = k;
            while t < n
                invariant
                    k <= t <= n,
                    self.id == pra.id,
                    self.current_term == pra.current_term,
                    self.voted_for == pra.voted_for,
                    self.role == pra.role,
                    self.commit_index == pra.commit_index,
                    self.voters == pra.voters,
                    self.next_index == pra.next_index,
                    self.match_index == pra.match_index,
                    self.votes_granted == pra.votes_granted,
                    self.actions == pra.actions,
                    self.log@ == pre.log@.subrange(0, prev.index + k as int) + entries@.subrange(
                        k as int,
                        t as int,
                    ),
                decreases n - t,
            {
                self.log.push(entries[t]);
                proof {
                    assert(self.log@ =~= pre.log@.subrange(0, prev.index + k as int)
                        + entries@.subrange(k as int, t + 1));
                }
                t = t + 1;
            }
        }
        proof {
            assert(self.log@ =~= Node::append_result(pre, prev, entries@));
        }
        // commit: the leader's advertised commit, capped by what this request
        // confirmed, never backwards
        proof {
            if n > 0 {
                assert(entries@[n - 1].index == prev.index + n);
                assert(entries@[n - 1].index < u64::MAX);
            }
        }
        let lastn = prev.index + n as u64;
        let capped = if leader_commit < lastn {
            leader_commit
        } else {
            lastn
        };
        let target = if capped > self.commit_index {
            capped
        } else {
            self.commit_index
        };
        let ghost mid = *self;
        proof {
            if k as int == entries@.len() {
                assert(self.log@ == pre.log@);
                if n > 0 {
                    assert(matches_at(pre.log@, prev.index as int, entries@, n - 1));
                    assert(prev.index + (n - 1) < pre.log@.len());
                }
                assert(lastn <= self.log@.len());
            } else {
                assert(self.log@ =~= pre.log@.subrange(0, prev.index + k as int)
                    + entries@.subrange(k as int, n as int));
                assert(self.log@.len() == prev.index + n);
            }
            assert(lastn <= self.log@.len());
            assert(self.commit_index == pre.commit_index);
            if k as int == entries@.len() {
                assert(self.commit_index <= self.log@.len());
            } else {
                assert(prev.index + k >= pre.commit_index);
                assert(self.commit_index <= self.log@.len());
            }
            assert(capped <= lastn);
            assert(target <= self.log@.len());
        }
        let mut idx = self.commit_index;
        self.commit_index = target;
        proof {
            assert(self.spec_actions() =~= mid.spec_actions() + apply_actions(
                self.log@,
                mid.commit_index as int,
                idx as int,
            ));
        }
        while idx < target
            invariant
                mid.commit_index <= idx <= target,
                target <= self.log@.len(),
                self.id == mid.id,
                self.current_term == mid.current_term,
                self.voted_for == mid.voted_for,
                self.role == mid.role,
                self.log == mid.log,
                self.voters == mid.voters,
                self.next_index == mid.next_index,
                self.match_index == mid.match_index,
                self.votes_granted == mid.votes_granted,
                self.commit_index == target,
                self.spec_actions() == mid.spec_actions() + apply_actions(
                    self.log@,
                    mid.commit_index as int,
                    idx as int,
                ),
            decreases target - idx,
        {
            let llen2 = self.log.len();
            proof {
                assert(idx < llen2);
            }
            let e = self.log[idx as usize];
            self.enqueue(Action::ApplyCommand(LogPosition { term: e.term, index: idx + 1 }));
            proof {
                assert(self.spec_actions() =~= mid.spec_actions() + apply_actions(
                    self.log@,
                    mid.commit_index as int,
                    idx + 1,
                ));
            }
            idx = idx + 1;
        }
        self.enqueue(
            Action::SendMessage(
                leader,
                Message::AppendResponse {
                    term: cur,
                    from: me,
                    success: true,
                    last_index: lastn,
                },
            ),
        );
        proof {
            assert(self.spec_actions() =~= pre.spec_actions() + apply_actions(
                self.log@,
                pre.commit_index as int,
                self.commit_index as int,
            ) + seq![
                ActionV::SendMessage(
                    leader,
                    MessageV::AppendResponse {
                        term: cur,
                        from: pre.id,
                        success: true,
                        last_index: lastn,
                    },
                ),
            ]);
        }
    }

    /// A successful replication response from voter `i`: the peer's match
    /// index rises to the confirmed index (never backwards, and never beyond
    /// the leader's log), its next index follows, and the leader re-evaluates
    /// the commit rule, applying every newly committed entry. Delivering the
    /// same response again can advance nothing further.
    pub open spec fn replication_success_step(
        pre: Node,
        post: Node,
        i: int,
        last_index: u64,
    ) -> bool {
        let m1 = pre.match_index@.update(
            i,
            vstd::math::max(
                pre.match_index@[i] as int,
                vstd::math::min(last_index as int, pre.log@.len() as int),
            ) as u64,
        );
        &&& post.id == pre.id
        &&& post.current_term == pre.current_term
        &&& post.voted_for == pre.voted_for
        &&& post.role == pre.role
        &&& post.log == pre.log
        &&& post.voters == pre.voters
        &&& post.votes_granted == pre.votes_granted
        &&& post.match_index@ == m1
        &&& post.next_index@ == pre.next_index@.update(i, (m1[i] + 1) as u64)
        &&& post.commit_index as int == Node::spec_new_commit(
            Node {
                match_index: post.match_index,
                commit_index: pre.commit_index,
                actions: pre.actions,
                ..pre
            },
        )
        &&& post.spec_actions() == pre.spec_actions() + apply_actions(
            pre.log@,
            pre.commit_index as int,
            post.commit_index as int,
        )
    }

    /// A replication response matters only to the leader of exactly that
    /// term, from an actual voter. Success advances the peer's progress (see
    /// `replication_success_step`); failure backs the peer's next index off
    /// by one (never below 1) and retries replication from there. Anything
    /// else is ignored, except that a higher term demotes.
    pub open spec fn append_response_step(
        pre: Node,
        post: Node,
        term: u64,
        from: NodeId,
        success: bool,
        last_index: u64,
    ) -> bool {
        if term > pre.current_term {
            Node::adopt_step(pre, post, term)
        } else if term == pre.current_term && pre.role == Role::Leader && pre.voters@.contains(
            from,
        ) {
            let i = choose|i: int| 0 <= i < pre.voters@.len() && pre.voters@[i] == from;
            if success {
                Node::replication_success_step(pre, post, i, last_index)
            } else {
                let n0 = pre.next_index@[i];
                let n1: u64 = if n0 > 1 {
                    (n0 - 1) as u64
                } else {
                    1u64
                };
                &&& post.id == pre.id
                &&& post.current_term == pre.current_term
                &&& post.voted_for == pre.voted_for
                &&& post.role == pre.role
                &&& post.log == pre.log
                &&& post.commit_index == pre.commit_index
                &&& post.voters == pre.voters
                &&& post.match_index == pre.match_index
                &&& post.votes_granted == pre.votes_granted
                &&& post.next_index@ == pre.next_index@.update(i, n1)
                &&& post.spec_actions() == pre.spec_actions().push(
                    ActionV::SendMessage(
                        from,
                        MessageV::AppendRequest {
                            term: pre.current_term,
                            leader: pre.id,
                            prev: spec_prev_for(pre.log@, n1 as int),
                            entries: pre.log@.subrange(n1 - 1, pre.log@.len() as int),
                            leader_commit: pre.commit_index,
                        },
                    ),
                )
            }
        } else {
            post == pre
        }
    }

    #[verifier::rlimit(100)]
    fn on_append_response(&mut self, term: u64, from: NodeId, success: bool, last_index: u64)
        requires
            old(self).inv(),
        ensures
            final(self).inv(),
            Node::append_response_step(*old(self), *final(self), term, from, success, last_index),
            final(self).id == old(self).id,
            final(self).voters == old(self).voters,
            final(self).current_term >= old(self).current_term,
            final(self).commit_index >= old(self).commit_index,
            final(self).log@.len() >= old(self).commit_index,
            forall|i: int|
                0 <= i < old(self).commit_index ==> final(self).log@[i] == old(self).log@[i],
            final(self).current_term == old(self).current_term && old(self).voted_for is Some
                ==> final(self).voted_for == old(self).voted_for,
    {
        let ghost pre = *self;
        self.maybe_adopt(term);
        if term != self.current_term {
            return ;
        }
        let is_leader = match self.role {
            Role::Leader => true,
            _ => false,
        };
        if !is_leader {
            return ;
        }
        let found = self.find_voter(from);
        match found {
            None => {},
            Some(i) => {
                proof {
                    let wi = choose|w: int| 0 <= w < pre.voters@.len() && pre.voters@[w] == from;
                    assert(wi == i as int);
                }
                if success {
                    let cap = self.log.len() as u64;
                    let confirmed = if last_index < cap {
                        last_index
                    } else {
                        cap
                    };
                    let old_m = self.match_index[i];
                    let new_m = if old_m > confirmed {
                        old_m
                    } else {
                        confirmed
                    };
                    self.match_index.set(i, new_m);
                    self.next_index.set(i, new_m + 1);
                    self.advance_commit();
                } else {
                    let n0 = self.next_index[i];
                    let n1 = if n0 > 1 {
                        n0 - 1
                    } else {
                        1
                    };
                    self.next_index.set(i, n1);
                    self.send_append_to(i);
                }
            },
        }
    }

    /// Dispatches one protocol message. Whatever the message, the term and
    /// the commit index never move backwards, committed entries are never
    /// altered, the membership and identity never change, and a vote already
    /// recorded for the current term is never replaced. The per-kind step
    /// relations pin the exact state change and the actions produced.
    pub fn handle_message(&mut self, msg: &Message)
        requires
            old(self).inv(),
        ensures
            final(self).inv(),
            final(self).id == old(self).id,
            final(self).voters == old(self).voters,
            final(self).current_term >= old(self).current_term,
            final(self).commit_index >= old(self).commit_index,
            final(self).log@.len() >= old(self).commit_index,
            forall|i: int|
                0 <= i < old(self).commit_index ==> final(self).log@[i] == old(self).log@[i],
            final(self).current_term == old(self).current_term && old(self).voted_for is Some
                ==> final(self).voted_for == old(self).voted_for,
            (msg@ matches MessageV::VoteRequest { term, candidate, last_log }
                ==> Node::vote_request_step(*old(self), *final(self), term, candidate, last_log)),
            (msg@ matches MessageV::VoteResponse { term, from, granted }
                ==> Node::vote_response_step(*old(self), *final(self), term, from, granted)),
            (msg@ matches MessageV::AppendRequest { term, leader, prev, entries, leader_commit }
                ==> Node::append_request_step(
                *old(self),
                *final(self),
                term,
                leader,
                prev,
                entries,
                leader_commit,
            )),
            (msg@ matches MessageV::AppendResponse { term, from, success, last_index }
                ==> Node::append_response_step(
                *old(self),
                *final(self),
                term,
                from,
                success,
                last_index,
            )),
    {
        match msg {
            Message::VoteRequest { term, candidate, last_log } => {
                self.on_vote_request(*term, *candidate, *last_log);
            },
            Message::VoteResponse { term, from, granted } => {
                self.on_vote_response(*term, *from, *granted);
            },
            Message::AppendRequest { term, leader, prev, entries, leader_commit } => {
                self.on_append_request(*term, *leader, *prev, entries, *leader_commit);
            },
            Message::AppendResponse { term, from, success, last_index } => {
                self.on_append_response(*term, *from, *success, *last_index);
            },
        }
    }
}

} // verus!
