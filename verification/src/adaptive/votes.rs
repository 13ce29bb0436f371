//! The ledger of regime-transition votes: one vote per node and round,
//! expiring after a window of rounds. What a vote says beyond its node and
//! round is the caller's.
use vstd::prelude::*;

verus! {

/// A vote is recent at `current_round` when it is at most `window` rounds
/// old (a vote from a later round counts as age zero).
pub open spec fn vote_recent(round: u64, current_round: u64, window: u64) -> bool {
    (if current_round >= round { current_round - round } else { 0 }) <= window
}

/// No node has two votes for the same round.
pub open spec fn one_vote_per_node_round<T>(votes: Seq<(u32, u64, T)>) -> bool {
    forall|i: int, j: int|
        0 <= i < votes.len() && 0 <= j < votes.len() && i != j ==> !(#[trigger] votes[i].0 == #[trigger] votes[j].0
            && votes[i].1 == votes[j].1)
}

/// Whether node `node_id` already voted for `round`.
pub open spec fn has_voted<T>(votes: Seq<(u32, u64, T)>, node_id: u32, round: u64) -> bool {
    exists|i: int| 0 <= i < votes.len() && #[trigger] votes[i].0 == node_id && votes[i].1 == round
}

/// Votes of nodes, each bound to a round, with what each vote carries.
pub struct VoteLedger<T: Copy> {
    window_rounds: u64,
    votes: Vec<(u32, u64, T)>,
}

impl<T: Copy> View for VoteLedger<T> {
    type V = Seq<(u32, u64, T)>;

    closed spec fn view(&self) -> Seq<(u32, u64, T)> {
        self.votes@
    }
}

impl<T: Copy> VoteLedger<T> {
    #[verifier::type_invariant]
    spec fn no_replays(&self) -> bool {
        one_vote_per_node_round(self.votes@)
    }

    /// Rounds after which a vote expires.
    pub closed spec fn window(&self) -> u64 {
        self.window_rounds
    }

    /// An empty ledger whose votes expire after `window_rounds` rounds.
    pub fn new(window_rounds: u64) -> (l: Self)
        ensures
            l@ == Seq::<(u32, u64, T)>::empty(),
            l.window() == window_rounds,
    {
        VoteLedger { window_rounds, votes: Vec::new() }
    }

    /// Records a vote unless the node already voted for that round;
    /// returns whether it was recorded.
    pub fn submit(&mut self, node_id: u32, round: u64, payload: T) -> (added: bool)
        ensures
            added == !has_voted(old(self)@, node_id, round),
            final(self)@ == if added { old(self)@.push((node_id, round, payload)) } else { old(self)@ },
            final(self).window() == old(self).window(),
            one_vote_per_node_round(final(self)@),
    {
        proof {
            use_type_invariant(&*self);
        }
        let mut i: usize = 0;
        while i < self.votes.len()
            invariant
                i <= self.votes@.len(),
                one_vote_per_node_round(self.votes@),
                forall|k: int| 0 <= k < i ==> !(#[trigger] self.votes@[k].0 == node_id && self.votes@[k].1 == round),
            decreases self.votes@.len() - i,
        {
            let v = self.votes[i];
            if v.0 == node_id && v.1 == round {
                return false;
            }
            i = i + 1;
        }
        let ghost before = self.votes@;
        let mut votes: Vec<(u32, u64, T)> = Vec::new();
        std::mem::swap(&mut votes, &mut self.votes);
        votes.push((node_id, round, payload));
        proof {
            assert(votes@ == before.push((node_id, round, payload)));
            assert forall|a: int, b: int|
                0 <= a < votes@.len() && 0 <= b < votes@.len() && a != b implies !(#[trigger] votes@[a].0
                == #[trigger] votes@[b].0 && votes@[a].1 == votes@[b].1) by {
                if a < before.len() && b < before.len() {
                    assert(votes@[a] == before[a]);
                    assert(votes@[b] == before[b]);
                }
            }
        }
        self.votes = votes;
        true
    }

    /// Drops the votes that are no longer recent at `current_round`,
    /// keeping the others in order.
    pub fn prune_expired(&mut self, current_round: u64)
        ensures
            final(self)@ == old(self)@.filter(|v: (u32, u64, T)| vote_recent(v.1, current_round, old(self).window())),
            final(self).window() == old(self).window(),
            one_vote_per_node_round(final(self)@),
    {
        proof {
            use_type_invariant(&*self);
        }
        let window = self.window_rounds;
        let ghost pred = |v: (u32, u64, T)| vote_recent(v.1, current_round, window);
        let ghost all = self.votes@;
        let mut kept: Vec<(u32, u64, T)> = Vec::new();
        let mut i: usize = 0;
        while i < self.votes.len()
            invariant
                i <= self.votes@.len(),
                self.votes@ == all,
                kept@ == all.take(i as int).filter(pred),
                pred == (|v: (u32, u64, T)| vote_recent(v.1, current_round, window)),
            decreases self.votes@.len() - i,
        {
            let v = self.votes[i];
            proof {
                assert(all.take(i + 1) == all.take(i as int).push(v));
                all.take(i as int).lemma_filter_push(v, pred);
            }
            if current_round.saturating_sub(v.1) <= window {
                kept.push(v);
            }
            i = i + 1;
        }
        proof {
            assert(all.take(all.len() as int) == all);
            lemma_filter_keeps_one_vote(all, pred);
        }
        self.votes = kept;
    }

    /// What the votes still recent at `current_round` carry, oldest first.
    pub fn recent_payloads(&self, current_round: u64) -> (r: Vec<T>)
        ensures
            r@ == self@.filter(|v: (u32, u64, T)| vote_recent(v.1, current_round, self.window())).map_values(
                |v: (u32, u64, T)| v.2,
            ),
    {
        let window = self.window_rounds;
        let ghost pred = |v: (u32, u64, T)| vote_recent(v.1, current_round, window);
        let ghost payload = |v: (u32, u64, T)| v.2;
        let ghost all = self.votes@;
        let mut out: Vec<T> = Vec::new();
        let mut i: usize = 0;
        while i < self.votes.len()
            invariant
                i <= self.votes@.len(),
                self.votes@ == all,
                out@ == all.take(i as int).filter(pred).map_values(payload),
                pred == (|v: (u32, u64, T)| vote_recent(v.1, current_round, window)),
                payload == (|v: (u32, u64, T)| v.2),
            decreases self.votes@.len() - i,
        {
            let v = self.votes[i];
            proof {
                assert(all.take(i + 1) == all.take(i as int).push(v));
                all.take(i as int).lemma_filter_push(v, pred);
            }
            if current_round.saturating_sub(v.1) <= window {
                out.push(v.2);
                proof {
                    let f = all.take(i as int).filter(pred);
                    assert(f.push(v).map_values(payload) =~= f.map_values(payload).push(v.2));
                }
            }
            i = i + 1;
        }
        proof {
            assert(all.take(all.len() as int) == all);
        }
        out
    }

    /// The recorded votes, oldest first.
    pub fn votes(&self) -> (v: &[(u32, u64, T)])
        ensures
            v@ == self@,
            one_vote_per_node_round(v@),
    {
        proof {
            use_type_invariant(self);
        }
        self.votes.as_slice()
    }

    /// Rounds after which a vote expires.
    pub fn window_rounds(&self) -> (w: u64)
        ensures
            w == self.window(),
    {
        self.window_rounds
    }
}

/// Filtering keeps at most one vote per node and round.
pub proof fn lemma_filter_keeps_one_vote<T>(votes: Seq<(u32, u64, T)>, pred: spec_fn((u32, u64, T)) -> bool)
    requires
        one_vote_per_node_round(votes),
    ensures
        one_vote_per_node_round(votes.filter(pred)),
    decreases votes.len(),
{
    if votes.len() > 0 {
        let init = votes.drop_last();
        assert forall|i: int, j: int|
            0 <= i < init.len() && 0 <= j < init.len() && i != j implies !(#[trigger] init[i].0 == #[trigger] init[j].0
            && init[i].1 == init[j].1) by {
            assert(init[i] == votes[i]);
            assert(init[j] == votes[j]);
        }
        lemma_filter_keeps_one_vote(init, pred);
        assert(votes == init.push(votes.last()));
        init.lemma_filter_push(votes.last(), pred);
        let f = init.filter(pred);
        if pred(votes.last()) {
            let g = f.push(votes.last());
            assert forall|i: int, j: int|
                0 <= i < g.len() && 0 <= j < g.len() && i != j implies !(#[trigger] g[i].0 == #[trigger] g[j].0
                && g[i].1 == g[j].1) by {
                if i < f.len() && j < f.len() {
                    assert(g[i] == f[i]);
                    assert(g[j] == f[j]);
                } else {
                    let k = if i < f.len() { i } else { j };
                    if k < f.len() {
                        init.lemma_filter_contains_rev(pred, f[k]);
                        assert(g[k] == f[k]);
                        assert(f.contains(f[k]));
                        assert(init.contains(f[k]));
                        let m = choose|m: int| 0 <= m < init.len() && init[m] == f[k];
                        assert(votes[m] == init[m]);
                        assert(votes[votes.len() - 1] == votes.last());
                    }
                }
            }
        }
    }
}

} // verus!
