use std::collections::VecDeque;

use noraft::Action;
use noraft::CommitStatus;
use noraft::LogPosition;
use noraft::Message;
use noraft::Node;
use noraft::NodeId;
use noraft::Role;

fn route_actions(node: &mut Node, queue: &mut VecDeque<(NodeId, Message)>) {
    let peers: Vec<NodeId> = node.peers();
    for action in node.actions_mut() {
        match action {
            Action::BroadcastMessage(msg) => {
                for peer in &peers {
                    queue.push_back((*peer, msg.clone()));
                }
            }
            Action::SendMessage(dst, msg) => {
                queue.push_back((dst, msg));
            }
            Action::ApplyCommand(_) => {}
        }
    }
}

fn run_until_idle(nodes: &mut [Node], max_steps: usize) {
    let mut queue: VecDeque<(NodeId, Message)> = VecDeque::new();
    for idx in 0..nodes.len() {
        route_actions(&mut nodes[idx], &mut queue);
    }
    let mut steps = 0usize;
    while let Some((dst, msg)) = queue.pop_front() {
        assert!(steps < max_steps, "message loop exceeded max_steps");
        let idx = dst.get() as usize;
        nodes[idx].handle_message(&msg);
        route_actions(&mut nodes[idx], &mut queue);
        steps += 1;
    }
}

fn three_node_cluster() -> Vec<Node> {
    let mut nodes: Vec<Node> = (0..3).map(|id| Node::start(NodeId::new(id))).collect();
    let voters = [NodeId::new(0), NodeId::new(1), NodeId::new(2)];
    let pos = nodes[0].create_cluster(&voters);
    assert!(!pos.is_invalid());
    run_until_idle(&mut nodes, 100_000);
    nodes
}

fn leader_index(nodes: &[Node]) -> Option<usize> {
    nodes.iter().position(|node| node.role().is_leader())
}

#[test]
fn single_voter_bootstrap_commits() {
    let mut node = Node::start(NodeId::new(0));
    let voters = [NodeId::new(0)];
    let pos = node.create_cluster(&voters);
    assert_eq!(pos, LogPosition { term: 1, index: 1 });
    // leader immediately, no election timeout needed
    assert!(node.role().is_leader());
    let cmd = node.propose_command();
    assert!(!cmd.is_invalid());
    let _ = node.actions_mut();
    assert!(node.get_commit_status(cmd).is_committed());
}

#[test]
fn three_node_bootstrap_elects_one_leader() {
    let nodes = three_node_cluster();
    let leaders = nodes.iter().filter(|n| n.role() == Role::Leader).count();
    let followers = nodes.iter().filter(|n| n.role() == Role::Follower).count();
    assert_eq!(leaders, 1);
    assert_eq!(followers, 2);
}

#[test]
fn committed_position_stays_committed() {
    let mut nodes = three_node_cluster();
    let li = leader_index(&nodes).expect("no leader after cluster creation");
    let pos = nodes[li].propose_command();
    run_until_idle(&mut nodes, 100_000);
    assert_eq!(nodes[li].get_commit_status(pos), CommitStatus::Committed);
    // further proposals keep it committed
    let _ = nodes[li].propose_command();
    run_until_idle(&mut nodes, 100_000);
    assert_eq!(nodes[li].get_commit_status(pos), CommitStatus::Committed);
    // a disruptive candidacy elsewhere cannot un-commit it
    let other = (li + 1) % 3;
    nodes[other].handle_election_timeout();
    run_until_idle(&mut nodes, 100_000);
    assert_eq!(nodes[li].get_commit_status(pos), CommitStatus::Committed);
}

#[test]
fn at_most_one_leader_per_term_when_drained() {
    let mut nodes = three_node_cluster();
    // competing timeouts, then drain everything
    nodes[1].handle_election_timeout();
    nodes[2].handle_election_timeout();
    run_until_idle(&mut nodes, 100_000);
    for term in nodes.iter().map(|n| n.current_term) {
        let leaders_of_term = nodes
            .iter()
            .filter(|n| n.role() == Role::Leader && n.current_term == term)
            .count();
        assert!(leaders_of_term <= 1);
    }
}

#[test]
fn duplicate_replication_response_is_idempotent() {
    let mut nodes = three_node_cluster();
    let li = leader_index(&nodes).expect("no leader after cluster creation");
    let _ = nodes[li].propose_command();
    run_until_idle(&mut nodes, 100_000);
    let peer = (li + 1) % 3;
    let response = Message::AppendResponse {
        term: nodes[li].current_term,
        from: NodeId::new(peer as u64),
        success: true,
        last_index: nodes[li].log.len() as u64,
    };
    nodes[li].handle_message(&response);
    let match_once = nodes[li].match_index.clone();
    let next_once = nodes[li].next_index.clone();
    let commit_once = nodes[li].commit_index;
    let actions_once = nodes[li].actions.len();
    nodes[li].handle_message(&response);
    assert_eq!(nodes[li].match_index, match_once);
    assert_eq!(nodes[li].next_index, next_once);
    assert_eq!(nodes[li].commit_index, commit_once);
    assert_eq!(nodes[li].actions.len(), actions_once);
}

#[test]
fn hundred_commands_all_commit() {
    let mut nodes = three_node_cluster();
    let li = leader_index(&nodes).expect("no leader after cluster creation");
    let mut positions: Vec<LogPosition> = Vec::new();
    for _ in 0..100 {
        let pos = nodes[li].propose_command();
        assert!(!pos.is_invalid());
        positions.push(pos);
        run_until_idle(&mut nodes, 100_000);
    }
    for pos in &positions {
        assert_eq!(nodes[li].get_commit_status(*pos), CommitStatus::Committed);
    }
}

#[test]
fn create_cluster_rejects_bad_input() {
    let mut node = Node::start(NodeId::new(0));
    let empty: [NodeId; 0] = [];
    assert!(node.create_cluster(&empty).is_invalid());
    let dup = [NodeId::new(0), NodeId::new(0)];
    assert!(node.create_cluster(&dup).is_invalid());
    let ok = [NodeId::new(0)];
    assert!(!node.create_cluster(&ok).is_invalid());
    // a second bootstrap fails
    assert!(node.create_cluster(&ok).is_invalid());
}

#[test]
fn propose_without_leadership_is_invalid() {
    let mut node = Node::start(NodeId::new(7));
    let pos = node.propose_command();
    assert!(pos.is_invalid());
    assert_eq!(node.role(), Role::Follower);
    assert_eq!(node.log.len(), 0);
}

#[test]
fn commit_status_classifications() {
    let mut node = Node::start(NodeId::new(0));
    let voters = [NodeId::new(0)];
    let pos = node.create_cluster(&voters);
    let _ = node.actions_mut();
    assert_eq!(node.get_commit_status(pos), CommitStatus::Committed);
    // beyond the log
    let far = LogPosition { term: 1, index: 99 };
    assert_eq!(node.get_commit_status(far), CommitStatus::Unknown);
    // same slot, different term: can never commit
    let displaced = LogPosition { term: 9, index: 1 };
    assert_eq!(node.get_commit_status(displaced), CommitStatus::Overwritten);
    // the invalid sentinel is beyond no log
    assert_eq!(
        node.get_commit_status(LogPosition::invalid()),
        CommitStatus::Unknown
    );
}

#[test]
fn pending_until_replicated() {
    let mut nodes = three_node_cluster();
    let li = leader_index(&nodes).expect("no leader after cluster creation");
    let pos = nodes[li].propose_command();
    // not yet acknowledged by any peer
    assert_eq!(nodes[li].get_commit_status(pos), CommitStatus::Pending);
    run_until_idle(&mut nodes, 100_000);
    assert_eq!(nodes[li].get_commit_status(pos), CommitStatus::Committed);
}

#[test]
fn actions_drain_is_one_shot() {
    let mut node = Node::start(NodeId::new(0));
    let voters = [NodeId::new(0)];
    let _ = node.create_cluster(&voters);
    let first = node.actions_mut();
    assert!(!first.is_empty());
    let second = node.actions_mut();
    assert!(second.is_empty());
}

#[test]
fn peers_excludes_self() {
    let mut nodes = three_node_cluster();
    let peers = nodes[0].peers();
    assert_eq!(peers, vec![NodeId::new(1), NodeId::new(2)]);
    // nodes that never bootstrapped know no membership
    assert!(nodes[1].peers().is_empty() || !nodes[1].peers().contains(&nodes[1].id()));
}

#[test]
fn election_timeout_on_leader_is_noop() {
    let mut node = Node::start(NodeId::new(0));
    let voters = [NodeId::new(0)];
    let _ = node.create_cluster(&voters);
    let term = node.current_term;
    node.handle_election_timeout();
    assert!(node.role().is_leader());
    assert_eq!(node.current_term, term);
}

#[test]
fn election_timeout_starts_candidacy() {
    let mut node = Node::start(NodeId::new(4));
    node.handle_election_timeout();
    assert_eq!(node.role(), Role::Candidate);
    assert_eq!(node.current_term, 1);
    assert_eq!(node.voted_for, Some(NodeId::new(4)));
    let actions = node.actions_mut();
    assert!(matches!(
        actions[0],
        Action::BroadcastMessage(Message::VoteRequest { term: 1, .. })
    ));
}

#[test]
fn stale_vote_request_is_denied() {
    let mut node = Node::start(NodeId::new(0));
    let voters = [NodeId::new(0)];
    let _ = node.create_cluster(&voters);
    let _ = node.actions_mut();
    let term = node.current_term;
    let request = Message::VoteRequest {
        term: 0,
        candidate: NodeId::new(9),
        last_log: LogPosition { term: 99, index: 99 },
    };
    node.handle_message(&request);
    assert_eq!(node.current_term, term);
    assert!(node.role().is_leader());
    let actions = node.actions_mut();
    match &actions[0] {
        Action::SendMessage(dst, Message::VoteResponse { granted, .. }) => {
            assert_eq!(*dst, NodeId::new(9));
            assert!(!*granted);
        }
        other => panic!("expected a vote response, got {:?}", dst_kind(other)),
    }
}

#[test]
fn one_vote_per_term() {
    let mut node = Node::start(NodeId::new(0));
    let first = Message::VoteRequest {
        term: 5,
        candidate: NodeId::new(1),
        last_log: LogPosition { term: 4, index: 3 },
    };
    node.handle_message(&first);
    assert_eq!(node.voted_for, Some(NodeId::new(1)));
    let second = Message::VoteRequest {
        term: 5,
        candidate: NodeId::new(2),
        last_log: LogPosition { term: 4, index: 9 },
    };
    node.handle_message(&second);
    assert_eq!(node.voted_for, Some(NodeId::new(1)));
    let actions = node.actions_mut();
    match (&actions[0], &actions[1]) {
        (
            Action::SendMessage(_, Message::VoteResponse { granted: g1, .. }),
            Action::SendMessage(_, Message::VoteResponse { granted: g2, .. }),
        ) => {
            assert!(*g1);
            assert!(!*g2);
        }
        _ => panic!("expected two vote responses"),
    }
}

#[test]
fn higher_term_demotes_leader() {
    let mut node = Node::start(NodeId::new(0));
    let voters = [NodeId::new(0)];
    let _ = node.create_cluster(&voters);
    assert!(node.role().is_leader());
    let request = Message::VoteRequest {
        term: 50,
        candidate: NodeId::new(1),
        last_log: LogPosition { term: 49, index: 10 },
    };
    node.handle_message(&request);
    assert_eq!(node.role(), Role::Follower);
    assert_eq!(node.current_term, 50);
}

fn dst_kind(action: &Action) -> &'static str {
    match action {
        Action::SendMessage(_, _) => "send",
        Action::BroadcastMessage(_) => "broadcast",
        Action::ApplyCommand(_) => "apply",
    }
}
