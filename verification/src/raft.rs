use crate::storage::logic::{Process, Service};
use crate::storage::nio::{NetCommand, NetEvent};
use std::collections::HashMap;
use vstd::prelude::*;

verus! {

broadcast use vstd::std_specs::hash::group_hash_axioms;

/// The part a node plays in the cluster.
#[allow(non_camel_case_types)]
#[derive(Debug, Clone, Copy, PartialEq, Eq, Structural)]
pub enum Role {
    LEADER,
    FOLLOWER,
    CANDIDATE,
}

/// A peer of this node.
pub struct Node {}

/// Timer ids and their periods, in seconds.
pub struct Config {
    pub follower_heartbeat_id: usize,
    pub follower_heartbeat_timeout: usize,
    pub leader_heartbeat_id: usize,
    pub leader_heartbeat_timeout: usize,
    pub candidate_process_id: usize,
    pub candidate_process_timeout: usize,
}

/// The state of one Raft node.
pub struct Raft {
    pub id: usize,
    pub leader_id: Option<usize>,
    pub nodes: HashMap<usize, Node>,
    pub role: Role,
    pub term: usize,
    pub vote: (usize, usize),
    pub receive_leader_heartbeat: bool,
    pub conf: Config,
}

/// The kinds of message nodes exchange.
#[allow(non_camel_case_types)]
pub enum Message {
    REQUESTVOTE(),
    APPENDENTRY(),
    HEARTBEAT(),
}

pub struct RequestVote {
    pub term: usize,
    pub leader_id: usize,
}

pub struct ResponseVote {
    pub term: usize,
}

pub struct AppendEntry {
    pub term: usize,
}

/// The smallest number of nodes, out of `n`, that is more than half of them.
pub open spec fn majority(n: nat) -> nat {
    n / 2 + 1
}

/// Any two groups of nodes that each reach a majority of the cluster share a
/// node: two quorums cannot decide apart from each other.
pub proof fn lemma_majorities_intersect(nodes: Set<usize>, a: Set<usize>, b: Set<usize>)
    requires
        nodes.finite(),
        a.subset_of(nodes),
        b.subset_of(nodes),
        a.len() >= majority(nodes.len()),
        b.len() >= majority(nodes.len()),
    ensures
        exists|x: usize| a.contains(x) && b.contains(x),
{
    vstd::set_lib::lemma_len_subset(a, nodes);
    vstd::set_lib::lemma_len_subset(b, nodes);
    vstd::set_lib::lemma_len_subset(a.union(b), nodes);
    vstd::set_lib::lemma_set_intersect_union_lens(a, b);
    assert(a.intersect(b).len() > 0);
    let x = a.intersect(b).choose();
    assert(a.intersect(b).contains(x));
}

/// A majority is the smallest count that is more than half: twice it exceeds
/// the cluster size, twice one less does not, and every count more than half
/// (any `k`) is at least as large.
pub proof fn lemma_majority_is_smallest_over_half(n: nat, k: nat)
    ensures
        2 * majority(n) > n,
        2 * (majority(n) - 1) <= n,
        2 * k > n ==> k >= majority(n),
{
}

/// The heartbeat timer a leader re-arms when its heartbeat period ends.
pub open spec fn leader_timeout_reaction(r: Raft) -> Seq<NetCommand> {
    if r.role is LEADER {
        seq![NetCommand::TIMEOUT((r.conf.leader_heartbeat_id, r.conf.leader_heartbeat_timeout))]
    } else {
        Seq::empty()
    }
}

/// What a node issues when its follower heartbeat period ends: it waits for
/// another period if the leader was heard from, and otherwise issues nothing.
pub open spec fn follower_timeout_reaction(r: Raft) -> Seq<NetCommand> {
    if r.receive_leader_heartbeat {
        seq![NetCommand::TIMEOUT((r.conf.follower_heartbeat_id, r.conf.follower_heartbeat_timeout))]
    } else {
        Seq::empty()
    }
}

/// What a node issues in answer to an event. Timers are told apart by their
/// ids: the follower heartbeat id is checked first, and the leader heartbeat
/// branch is selected by that same id, so a leader heartbeat timer never
/// reaches it; a candidate's vote timer issues nothing.
pub open spec fn event_reaction(r: Raft, ev: NetEvent) -> Seq<NetCommand> {
    match ev {
        NetEvent::TIMEOUT(e) => {
            if e == r.conf.follower_heartbeat_id {
                follower_timeout_reaction(r)
            } else {
                Seq::empty()
            }
        },
        _ => Seq::empty(),
    }
}

/// Only a leader re-arms the leader heartbeat timer, and it re-arms it with
/// the configured id and period; any other role issues nothing.
pub proof fn lemma_leader_timeout_only_for_leader(r: Raft)
    ensures
        r.role == Role::LEADER ==> leader_timeout_reaction(r) == seq![
            NetCommand::TIMEOUT((r.conf.leader_heartbeat_id, r.conf.leader_heartbeat_timeout)),
        ],
        r.role != Role::LEADER ==> leader_timeout_reaction(r) == Seq::<NetCommand>::empty(),
{
}

/// When the follower heartbeat period ends, a node that heard from its leader
/// re-arms exactly the follower heartbeat timer, whatever its role, term,
/// votes, known leader or own id; a node that heard nothing issues nothing.
pub proof fn lemma_follower_timeout_rearms_iff_heard(r: Raft)
    ensures
        r.receive_leader_heartbeat ==> follower_timeout_reaction(r) == seq![
            NetCommand::TIMEOUT((r.conf.follower_heartbeat_id, r.conf.follower_heartbeat_timeout)),
        ],
        !r.receive_leader_heartbeat ==> follower_timeout_reaction(r) == Seq::<NetCommand>::empty(),
{
}

/// What a node issues for any event: a timer event carrying the follower
/// heartbeat id re-arms that timer (id and period from the configuration)
/// exactly when the leader was heard from; every other event, and every other
/// timer id, issues nothing. The node's own id plays no part.
pub proof fn lemma_event_reaction(r: Raft, ev: NetEvent)
    ensures
        event_reaction(r, ev) == (if ev == NetEvent::TIMEOUT(r.conf.follower_heartbeat_id)
            && r.receive_leader_heartbeat {
            seq![NetCommand::TIMEOUT((r.conf.follower_heartbeat_id, r.conf.follower_heartbeat_timeout))]
        } else {
            Seq::<NetCommand>::empty()
        }),
        event_reaction(r, NetEvent::TIMEOUT(r.conf.follower_heartbeat_id)) == follower_timeout_reaction(r),
{
}

impl Raft {
    /// A follower of term 0 that has voted for no one and heard from no
    /// leader, whose cluster is the given peers.
    pub fn new(id: usize, peers: &Vec<usize>, conf: Config) -> (r: Raft)
        ensures
            r.id == id,
            r.nodes@.dom() == peers@.to_set(),
            r.leader_id is None,
            r.role == Role::FOLLOWER,
            r.term == 0,
            r.vote == (0usize, 0usize),
            !r.receive_leader_heartbeat,
            r.conf == conf,
    {
        let mut nodes: HashMap<usize, Node> = HashMap::new();
        let mut i: usize = 0;
        while i < peers.len()
            invariant
                i <= peers@.len(),
                nodes@.dom() == peers@.subrange(0, i as int).to_set(),
            decreases peers@.len() - i,
        {
            nodes.insert(peers[i], Node {  });
            proof {
                assert(peers@.subrange(0, i + 1) =~= peers@.subrange(0, i as int).push(peers@[i as int]));
                peers@.subrange(0, i as int).lemma_push_to_set_commute(peers@[i as int]);
            }
            i = i + 1;
        }
        assert(peers@.subrange(0, i as int) =~= peers@);
        Raft {
            id,
            leader_id: None,
            nodes,
            role: Role::FOLLOWER,
            term: 0,
            vote: (0, 0),
            receive_leader_heartbeat: false,
            conf,
        }
    }

    /// How many nodes make a majority of the cluster.
    pub fn major(&self) -> (r: usize)
        ensures
            r == majority(self.nodes@.len()),
    {
        self.nodes.len() / 2 + 1
    }

    pub fn send_requestvote(&mut self)
        ensures
            *final(self) == *old(self),
    {
    }

    pub fn send_appendentries(&mut self)
        ensures
            *final(self) == *old(self),
    {
    }

    pub fn send_leader_heartbeat(&mut self)
        ensures
            *final(self) == *old(self),
    {
    }

    /// Arms the leader heartbeat timer.
    pub fn begin_leader_heartbeat_timeout(&self, service: &mut Service)
        requires
            old(service).is_running(),
        ensures
            final(service).is_running(),
            final(service).commands() == old(service).commands().push(
                NetCommand::TIMEOUT((self.conf.leader_heartbeat_id, self.conf.leader_heartbeat_timeout)),
            ),
    {
        service.timeout(self.conf.leader_heartbeat_id, self.conf.leader_heartbeat_timeout);
    }

    /// Arms the follower heartbeat timer.
    pub fn begin_follower_heartbeat_timeout(&self, service: &mut Service)
        requires
            old(service).is_running(),
        ensures
            final(service).is_running(),
            final(service).commands() == old(service).commands().push(
                NetCommand::TIMEOUT((self.conf.follower_heartbeat_id, self.conf.follower_heartbeat_timeout)),
            ),
    {
        service.timeout(self.conf.follower_heartbeat_id, self.conf.follower_heartbeat_timeout);
    }

    /// Arms the candidate's vote timer.
    pub fn begin_candidate_requestvote_timeout(&self, service: &mut Service)
        requires
            old(service).is_running(),
        ensures
            final(service).is_running(),
            final(service).commands() == old(service).commands().push(
                NetCommand::TIMEOUT((self.conf.candidate_process_id, self.conf.candidate_process_timeout)),
            ),
    {
        service.timeout(self.conf.candidate_process_id, self.conf.candidate_process_timeout);
    }

    /// A leader re-arms its heartbeat timer; other roles do nothing.
    pub fn process_leader_heartbeat_timeout(&mut self, service: &mut Service)
        requires
            old(service).is_running(),
        ensures
            *final(self) == *old(self),
            final(service).is_running(),
            final(service).commands() == old(service).commands() + leader_timeout_reaction(*old(self)),
    {
        match self.role {
            Role::LEADER => {
                self.begin_leader_heartbeat_timeout(service);
            },
            _ => {},
        };
        assert(old(service).commands() + Seq::<NetCommand>::empty() =~= old(service).commands());
    }

    /// A node that heard from its leader waits another heartbeat period; one
    /// that did not stands for election.
    pub fn process_follower_heartbeat_timeout(&mut self, service: &mut Service)
        requires
            old(service).is_running(),
        ensures
            *final(self) == *old(self),
            final(service).is_running(),
            final(service).commands() == old(service).commands() + follower_timeout_reaction(*old(self)),
    {
        if self.receive_leader_heartbeat == false {
            self.become_candidate();
        } else {
            self.begin_follower_heartbeat_timeout(service);
        }
        assert(old(service).commands() + Seq::<NetCommand>::empty() =~= old(service).commands());
    }

    /// A candidate whose vote timer ran out stands for election again.
    pub fn process_candidate_requestvote_timeout(&mut self, service: &mut Service)
        requires
            old(service).is_running(),
        ensures
            *final(self) == *old(self),
            final(service).is_running(),
            final(service).commands() == old(service).commands(),
    {
        match self.role {
            Role::CANDIDATE => {
                self.become_candidate();
            },
            _ => {},
        };
    }

    pub fn process_appendentries(&mut self, entry: AppendEntry)
        ensures
            *final(self) == *old(self),
    {
    }

    pub fn process_leader_heartbeat(&mut self)
        ensures
            *final(self) == *old(self),
    {
    }

    pub fn process_requestvote(&mut self, request: RequestVote)
        ensures
            *final(self) == *old(self),
    {
    }

    pub fn become_follower(&mut self)
        ensures
            *final(self) == *old(self),
    {
    }

    pub fn become_candidate(&mut self)
        ensures
            *final(self) == *old(self),
    {
    }

    pub fn become_leader(&mut self)
        ensures
            *final(self) == *old(self),
    {
    }
}

impl Process for Raft {
    fn process_init(&mut self, service: &mut Service)
        ensures
            *final(self) == *old(self),
            final(service).commands() == old(service).commands(),
    {
        assert(old(service).commands().subrange(0, old(service).commands().len() as int)
            =~= old(service).commands());
    }

    fn process_event(&mut self, service: &mut Service, ev: NetEvent)
        ensures
            *final(self) == *old(self),
            final(service).commands() == old(service).commands() + event_reaction(*old(self), ev),
    {
        let ghost before = service.commands();
        match ev {
            NetEvent::CONNECTED((_event, _id)) => {},
            NetEvent::DISCONNECTED((_event, _id)) => {},
            NetEvent::MESSAGE((_id, _buf)) => {},
            NetEvent::TIMEOUT(event) => {
                let follower_heartbeat_id = self.conf.follower_heartbeat_id;
                let leader_heartbeat_id = self.conf.follower_heartbeat_id;
                let candidate_process_id = self.conf.candidate_process_id;

                if event == follower_heartbeat_id {
                    self.process_follower_heartbeat_timeout(service);
                } else if event == leader_heartbeat_id {
                    self.process_leader_heartbeat_timeout(service);
                } else if event == candidate_process_id {
                    self.process_candidate_requestvote_timeout(service);
                }
            },
        }
        assert(before + Seq::<NetCommand>::empty() =~= before);
        assert(service.commands().subrange(0, before.len() as int) =~= before);
    }
}

} // verus!
