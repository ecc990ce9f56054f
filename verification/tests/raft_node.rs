use raft_storage::raft::{AppendEntry, Config, Raft, RequestVote, Role};
use raft_storage::storage::logic::{Process, Service};
use raft_storage::storage::nio::{NetCommand, NetEvent};

fn conf() -> Config {
    Config {
        follower_heartbeat_id: 1,
        follower_heartbeat_timeout: 5,
        leader_heartbeat_id: 2,
        leader_heartbeat_timeout: 3,
        candidate_process_id: 4,
        candidate_process_timeout: 7,
    }
}

fn running_service() -> Service {
    let mut s = Service::new();
    s.attach();
    s
}

#[test]
fn new_node_is_follower() {
    let r = Raft::new(9, &vec![1, 2, 3], conf());
    assert_eq!(r.id, 9);
    assert_eq!(r.role, Role::FOLLOWER);
    assert_eq!(r.term, 0);
    assert_eq!(r.vote, (0, 0));
    assert_eq!(r.leader_id, None);
    assert!(!r.receive_leader_heartbeat);
    assert_eq!(r.nodes.len(), 3);
}

#[test]
fn major_is_more_than_half() {
    assert_eq!(Raft::new(0, &vec![], conf()).major(), 1);
    assert_eq!(Raft::new(0, &vec![1], conf()).major(), 1);
    assert_eq!(Raft::new(0, &vec![1, 2], conf()).major(), 2);
    assert_eq!(Raft::new(0, &vec![1, 2, 3], conf()).major(), 2);
    assert_eq!(Raft::new(0, &vec![1, 2, 3, 4], conf()).major(), 3);
    assert_eq!(Raft::new(0, &vec![1, 2, 3, 4, 5], conf()).major(), 3);
}

#[test]
fn major_counts_distinct_peers() {
    assert_eq!(Raft::new(0, &vec![1, 1, 2, 2, 2], conf()).major(), 2);
}

#[test]
fn two_majorities_share_a_node() {
    // Out of five nodes, majorities have three members; any two overlap.
    let r = Raft::new(0, &vec![1, 2, 3, 4, 5], conf());
    let m = r.major();
    let a = [1usize, 2, 3];
    let b = [3usize, 4, 5];
    assert!(a.len() >= m && b.len() >= m);
    assert!(a.iter().any(|x| b.contains(x)));
}

#[test]
fn follower_timeout_after_heartbeat_rearms_timer() {
    let mut r = Raft::new(0, &vec![1, 2, 3], conf());
    r.receive_leader_heartbeat = true;
    let mut s = running_service();
    r.process_event(&mut s, NetEvent::TIMEOUT(1));
    assert_eq!(s.take_commands(), vec![NetCommand::TIMEOUT((1, 5))]);
    assert_eq!(r.role, Role::FOLLOWER);
}

#[test]
fn follower_timeout_without_heartbeat_issues_nothing() {
    let mut r = Raft::new(0, &vec![1, 2, 3], conf());
    let mut s = running_service();
    r.process_event(&mut s, NetEvent::TIMEOUT(1));
    assert!(s.take_commands().is_empty());
    assert_eq!(r.role, Role::FOLLOWER);
    assert_eq!(r.term, 0);
}

#[test]
fn leader_timer_id_is_not_routed_to_leader() {
    let mut r = Raft::new(0, &vec![1, 2, 3], conf());
    r.role = Role::LEADER;
    let mut s = running_service();
    r.process_event(&mut s, NetEvent::TIMEOUT(2));
    assert!(s.take_commands().is_empty());
}

#[test]
fn candidate_timeout_issues_nothing() {
    let mut r = Raft::new(0, &vec![1, 2, 3], conf());
    r.role = Role::CANDIDATE;
    let mut s = running_service();
    r.process_event(&mut s, NetEvent::TIMEOUT(4));
    assert!(s.take_commands().is_empty());
    assert_eq!(r.role, Role::CANDIDATE);
}

#[test]
fn other_events_issue_nothing() {
    let mut r = Raft::new(0, &vec![1, 2, 3], conf());
    r.receive_leader_heartbeat = true;
    let mut s = running_service();
    r.process_init(&mut s);
    r.process_event(&mut s, NetEvent::CONNECTED((0, 1)));
    r.process_event(&mut s, NetEvent::DISCONNECTED((0, 1)));
    r.process_event(&mut s, NetEvent::MESSAGE((1, vec![1, 2])));
    r.process_event(&mut s, NetEvent::TIMEOUT(77));
    assert!(s.take_commands().is_empty());
}

#[test]
fn leader_heartbeat_timeout_rearms_only_for_leader() {
    let mut r = Raft::new(0, &vec![1, 2, 3], conf());
    let mut s = running_service();
    r.process_leader_heartbeat_timeout(&mut s);
    assert!(s.take_commands().is_empty());
    r.role = Role::LEADER;
    r.process_leader_heartbeat_timeout(&mut s);
    assert_eq!(s.take_commands(), vec![NetCommand::TIMEOUT((2, 3))]);
}

#[test]
fn follower_heartbeat_timeout_direct() {
    let mut r = Raft::new(0, &vec![1, 2, 3], conf());
    let mut s = running_service();
    r.process_follower_heartbeat_timeout(&mut s);
    assert!(s.take_commands().is_empty());
    r.receive_leader_heartbeat = true;
    r.process_follower_heartbeat_timeout(&mut s);
    assert_eq!(s.take_commands(), vec![NetCommand::TIMEOUT((1, 5))]);
}

#[test]
fn candidate_timeout_direct() {
    let mut r = Raft::new(0, &vec![1], conf());
    r.role = Role::CANDIDATE;
    let mut s = running_service();
    r.process_candidate_requestvote_timeout(&mut s);
    assert!(s.take_commands().is_empty());
}

#[test]
fn begin_timers_issue_timeouts() {
    let r = Raft::new(0, &vec![1, 2, 3], conf());
    let mut s = running_service();
    r.begin_leader_heartbeat_timeout(&mut s);
    r.begin_follower_heartbeat_timeout(&mut s);
    r.begin_candidate_requestvote_timeout(&mut s);
    assert_eq!(
        s.take_commands(),
        vec![
            NetCommand::TIMEOUT((2, 3)),
            NetCommand::TIMEOUT((1, 5)),
            NetCommand::TIMEOUT((4, 7)),
        ]
    );
}

#[test]
fn handlers_leave_state_unchanged() {
    let mut r = Raft::new(3, &vec![1, 2], conf());
    r.send_requestvote();
    r.send_appendentries();
    r.send_leader_heartbeat();
    r.process_appendentries(AppendEntry { term: 4 });
    r.process_leader_heartbeat();
    r.process_requestvote(RequestVote { term: 4, leader_id: 2 });
    r.become_follower();
    r.become_candidate();
    r.become_leader();
    assert_eq!(r.role, Role::FOLLOWER);
    assert_eq!(r.term, 0);
    assert_eq!(r.leader_id, None);
    assert_eq!(r.vote, (0, 0));
}
