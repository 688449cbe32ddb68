//! The global guarantees of the protocol, stated and proved over the same
//! spec-level step relations that the executable operations are verified
//! against.

use vstd::prelude::*;

use crate::node::Node;
use crate::node::count_true;
use crate::node::distinct_ids;
use crate::types::CommitStatus;
use crate::types::LogPosition;
use crate::types::NodeId;
use crate::types::Role;

verus! {

/// The set of voters among the first `i` whose flag is set.
pub open spec fn granted_upto(voters: Seq<NodeId>, flags: Seq<bool>, i: int) -> Set<NodeId>
    decreases i,
{
    if i <= 0 {
        Set::empty()
    } else if flags[i - 1] {
        granted_upto(voters, flags, i - 1).insert(voters[i - 1])
    } else {
        granted_upto(voters, flags, i - 1)
    }
}

/// With distinct voters, the granted set is as large as the flag count, and
/// every member of it is a flagged voter.
proof fn lemma_granted_upto(voters: Seq<NodeId>, flags: Seq<bool>, i: int)
    requires
        distinct_ids(voters),
        flags.len() == voters.len(),
        0 <= i <= voters.len(),
    ensures
        granted_upto(voters, flags, i).finite(),
        granted_upto(voters, flags, i).len() == count_true(flags, i),
        forall|x: NodeId|
            granted_upto(voters, flags, i).contains(x) ==> exists|j: int|
                0 <= j < i && voters[j] == x && flags[j],
    decreases i,
{
    if i > 0 {
        lemma_granted_upto(voters, flags, i - 1);
        if flags[i - 1] {
            assert(!granted_upto(voters, flags, i - 1).contains(voters[i - 1])) by {
                if granted_upto(voters, flags, i - 1).contains(voters[i - 1]) {
                    let j = choose|j: int|
                        0 <= j < i - 1 && voters[j] == voters[i - 1] && flags[j];
                    assert(voters[j] == voters[i - 1]);
                    assert(false);
                }
            }
            assert forall|x: NodeId|
                granted_upto(voters, flags, i).contains(x) implies exists|j: int|
                0 <= j < i && voters[j] == x && flags[j] by {
                if x == voters[i - 1] {
                    assert(voters[i - 1] == x && flags[i - 1]);
                }
            }
        }
    }
}

/// The set of voters whose grants this node holds for its current term.
pub open spec fn granted_set(n: Node) -> Set<NodeId> {
    granted_upto(n.voters@, n.votes_granted@, n.voters@.len() as int)
}

/// The configured voter set.
pub open spec fn voter_set(n: Node) -> Set<NodeId> {
    n.voters@.to_set()
}

/// A leader holds granted votes from a strict majority of the voter set:
/// this connects the executable leader state, whose invariant counts the
/// grant flags, to the set-based form that `lemma_election_safety` uses.
pub proof fn lemma_leader_has_quorum(n: Node)
    requires
        n.inv(),
        n.role == Role::Leader,
    ensures
        voter_set(n).finite(),
        granted_set(n).subset_of(voter_set(n)),
        2 * granted_set(n).len() > voter_set(n).len(),
{
    let vs = n.voters@;
    lemma_granted_upto(vs, n.votes_granted@, vs.len() as int);
    vs.unique_seq_to_set();
    assert forall|x: NodeId| granted_set(n).contains(x) implies voter_set(n).contains(x) by {
        let j = choose|j: int| 0 <= j < vs.len() && vs[j] == x && n.votes_granted@[j];
        assert(vs.contains(x));
    }
}

/// Law: commit is monotonic. Every operation of a node only moves the commit
/// index forward and never alters an entry at or below it (each operation's
/// contract states exactly these two facts); under them, a position once
/// classified `Committed` is classified `Committed` forever.
pub proof fn lemma_commit_status_monotonic(pre: Node, post: Node, pos: LogPosition)
    requires
        pre.inv(),
        post.inv(),
        post.commit_index >= pre.commit_index,
        post.log@.len() >= pre.commit_index,
        forall|i: int| 0 <= i < pre.commit_index ==> post.log@[i] == pre.log@[i],
        pre.spec_commit_status(pos) == CommitStatus::Committed,
    ensures
        post.spec_commit_status(pos) == CommitStatus::Committed,
{
    assert(1 <= pos.index <= pre.commit_index);
    assert(post.log@[pos.index - 1] == pre.log@[pos.index - 1]);
}

/// Any two strict majorities of one finite voter set share a member.
pub proof fn lemma_two_majorities_intersect(
    voters: Set<NodeId>,
    s1: Set<NodeId>,
    s2: Set<NodeId>,
) -> (w: NodeId)
    requires
        voters.finite(),
        s1.subset_of(voters),
        s2.subset_of(voters),
        2 * s1.len() > voters.len(),
        2 * s2.len() > voters.len(),
    ensures
        s1.contains(w),
        s2.contains(w),
{
    vstd::set_lib::lemma_len_subset(s1, voters);
    vstd::set_lib::lemma_len_subset(s2, voters);
    if forall|x: NodeId| !(#[trigger] s1.intersect(s2).contains(x)) {
        assert(s1.intersect(s2) =~= Set::empty());
        assert forall|x: NodeId| s1.contains(x) implies !s2.contains(x) by {
            if s2.contains(x) {
                assert(s1.intersect(s2).contains(x));
            }
        }
        assert(s1.disjoint(s2));
        vstd::set_lib::lemma_set_disjoint_lens(s1, s2);
        assert((s1 + s2).len() == s1.len() + s2.len());
        assert((s1 + s2).subset_of(voters));
        vstd::set_lib::lemma_len_subset(s1 + s2, voters);
        assert(false);
    }
    let w = choose|x: NodeId| s1.intersect(s2).contains(x);
    w
}

/// Law: election safety. Within one term, each node records at most one
/// granted vote (`vote_of` maps each granting voter to the one candidate it
/// voted for in that term, as `handle_message` guarantees), and a node takes
/// office only on grants from a strict majority of the voter set (the
/// leader's invariant). Two leaders of the same term would therefore each
/// hold a majority, the majorities would share a voter, and that voter would
/// have voted for both: so the two leaders are the same node, and at most one
/// leader can exist per term.
pub proof fn lemma_election_safety(
    voters: Set<NodeId>,
    s1: Set<NodeId>,
    s2: Set<NodeId>,
    vote_of: Map<NodeId, NodeId>,
    l1: NodeId,
    l2: NodeId,
)
    requires
        voters.finite(),
        s1.subset_of(voters),
        s2.subset_of(voters),
        2 * s1.len() > voters.len(),
        2 * s2.len() > voters.len(),
        forall|v: NodeId| s1.contains(v) ==> vote_of.contains_key(v) && vote_of[v] == l1,
        forall|v: NodeId| s2.contains(v) ==> vote_of.contains_key(v) && vote_of[v] == l2,
    ensures
        l1 == l2,
{
    let w = lemma_two_majorities_intersect(voters, s1, s2);
    assert(vote_of[w] == l1);
    assert(vote_of[w] == l2);
}

/// Law: replication responses are idempotent. Delivering the same successful
/// replication response to a leader a second time leaves the peer's match
/// and next indexes, the commit index, and the action queue exactly where the
/// first delivery put them.
pub proof fn lemma_replication_response_idempotent(
    pre: Node,
    once: Node,
    twice: Node,
    i: int,
    last_index: u64,
)
    requires
        0 <= i < pre.match_index@.len(),
        0 <= i < pre.next_index@.len(),
        Node::replication_success_step(pre, once, i, last_index),
        Node::replication_success_step(once, twice, i, last_index),
    ensures
        twice.match_index@ == once.match_index@,
        twice.next_index@ == once.next_index@,
        twice.commit_index == once.commit_index,
        twice.spec_actions() == once.spec_actions(),
{
    assert(once.log@ == pre.log@);
    assert(once.match_index@[i] >= vstd::math::min(last_index as int, once.log@.len() as int));
    assert(twice.match_index@ =~= once.match_index@);
    assert(twice.match_index@[i] == once.match_index@[i]);
    assert(once.next_index@[i] == (once.match_index@[i] + 1) as u64);
    assert(twice.next_index@ == once.next_index@.update(i, (once.match_index@[i] + 1) as u64));
    assert(twice.next_index@ =~= once.next_index@);
    let b1 = crate::node::best_commit(
        pre.log@,
        pre.current_term,
        pre.voters@,
        once.match_index@,
        pre.id,
        pre.log@.len() as int,
    );
    let b2 = crate::node::best_commit(
        once.log@,
        once.current_term,
        once.voters@,
        twice.match_index@,
        once.id,
        once.log@.len() as int,
    );
    assert(b1 == b2);
    assert(once.commit_index as int == if b1 > pre.commit_index {
        b1
    } else {
        pre.commit_index as int
    });
    assert(twice.commit_index as int == if b2 > once.commit_index {
        b2
    } else {
        once.commit_index as int
    });
    assert(twice.commit_index == once.commit_index);
    assert(crate::node::apply_actions(
        once.log@,
        once.commit_index as int,
        twice.commit_index as int,
    ) =~= Seq::empty());
    assert(twice.spec_actions() =~= once.spec_actions());
}

} // verus!
