//! The node as a mathematical state and the steps that change it: answering
//! an operation, closing a block, a whole turn of the loop, and a run of
//! turns. The contracts of the node's functions are stated over these.

use vstd::prelude::*;
use crate::ledger::check_transfer;
use crate::reply::ReplySpec;
use crate::settlement::{committed, committed_of, incoming, outgoing, parties_known, settle_all};
use crate::transaction::{Transaction, TransferSpec};

verus! {

/// The reply that `op` gets when it meets `accounts`.
pub open spec fn reply_to(accounts: Map<Seq<char>, u64>, op: Transaction) -> ReplySpec {
    match op {
        Transaction::CreateAccount { name, balance } => if accounts.contains_key(name@) {
            ReplySpec::AlreadyExists { name: name@, balance: accounts[name@] }
        } else {
            ReplySpec::Created { name: name@, balance }
        },
        Transaction::Transfer(transfer) => match check_transfer(accounts, transfer@) {
            Ok(()) => ReplySpec::Accepted { transfer: transfer@ },
            Err(reason) => ReplySpec::Rejected { transfer: transfer@, reason },
        },
        Transaction::Balance { name } => if accounts.contains_key(name@) {
            ReplySpec::Balance { name: name@, balance: accounts[name@] }
        } else {
            ReplySpec::NotFound { name: name@ }
        },
    }
}

/// The last of `times`, or 0, the start of the node, where there is none.
pub open spec fn last_or_start(times: Seq<nat>) -> nat {
    if times.len() == 0 {
        0
    } else {
        times.last()
    }
}

/// All that a node is at one moment.
pub struct NodeState {
    /// The balance of each account.
    pub accounts: Map<Seq<char>, u64>,
    /// The balance with which each account was opened.
    pub opening: Map<Seq<char>, u64>,
    /// The transfers that wait for the next block, in the order of their
    /// admission.
    pub pending: Seq<TransferSpec>,
    /// The transfers of each block; the block at index `n` has number `n`.
    pub log: Seq<Seq<TransferSpec>>,
    /// When each block was made, in nanoseconds since the node started.
    pub commit_times: Seq<nat>,
    /// The time between two blocks, in nanoseconds.
    pub interval: nat,
}

/// One turn of the node's loop: the time at which it is taken and the
/// operations that are handed in.
pub struct Turn {
    pub now: u128,
    pub operations: Seq<Transaction>,
}

impl NodeState {
    /// When the last block was made, or 0 before the first.
    pub open spec fn last_mined(self) -> nat {
        last_or_start(self.commit_times)
    }

    /// A block is due at `now`: the interval has passed since the last one.
    /// A clock that has gone backwards has let no time pass.
    pub open spec fn due(self, now: u128) -> bool {
        now >= self.last_mined() && now - self.last_mined() >= self.interval
    }

    /// The state once `op` has been answered. The creation of an account
    /// under a free name writes the ledger at once; a transfer that passes
    /// the checks joins the pending transfers at their end and moves nothing
    /// yet; everything else changes nothing.
    pub open spec fn answered(self, op: Transaction) -> NodeState {
        match reply_to(self.accounts, op) {
            ReplySpec::Created { name, balance } => NodeState {
                accounts: self.accounts.insert(name, balance),
                opening: self.opening.insert(name, balance),
                ..self
            },
            ReplySpec::Accepted { transfer } => NodeState {
                pending: self.pending.push(transfer),
                ..self
            },
            _ => self,
        }
    }

    /// The state once each of `ops` has been answered, in order.
    pub open spec fn answered_all(self, ops: Seq<Transaction>) -> NodeState
        decreases ops.len(),
    {
        if ops.len() == 0 {
            self
        } else {
            self.answered_all(ops.drop_last()).answered(ops.last())
        }
    }

    /// The replies to `ops`, one for each and in their order, each given by
    /// the state that the earlier operations left.
    pub open spec fn replies(self, ops: Seq<Transaction>) -> Seq<ReplySpec>
        decreases ops.len(),
    {
        if ops.len() == 0 {
            Seq::empty()
        } else {
            self.replies(ops.drop_last()).push(
                reply_to(self.answered_all(ops.drop_last()).accounts, ops.last()),
            )
        }
    }

    /// The state once the block clock has been looked at. Where a block is
    /// due, the pending transfers are settled in order, those that pass make
    /// up the new block, which may be empty, and nothing is left pending.
    /// Where none is due, nothing changes.
    pub open spec fn block_closed(self, now: u128) -> NodeState {
        if self.due(now) {
            NodeState {
                accounts: settle_all(self.accounts, self.pending),
                pending: Seq::empty(),
                log: self.log.push(committed_of(self.accounts, self.pending)),
                commit_times: self.commit_times.push(now as nat),
                ..self
            }
        } else {
            self
        }
    }

    /// The state after one turn of the loop: first the answers, then the
    /// block clock.
    pub open spec fn turn(self, turn: Turn) -> NodeState {
        self.answered_all(turn.operations).block_closed(turn.now)
    }

    /// The state after a run of turns.
    pub open spec fn run(self, turns: Seq<Turn>) -> NodeState
        decreases turns.len(),
    {
        if turns.len() == 0 {
            self
        } else {
            self.run(turns.drop_last()).turn(turns.last())
        }
    }

    /// Every account holds what it was opened with, plus what the blocks paid
    /// it, minus what the blocks took from it; and the blocks moved money only
    /// between account holders.
    pub open spec fn balanced(self) -> bool {
        &&& self.opening.dom() == self.accounts.dom()
        &&& parties_known(self.accounts, committed(self.log))
        &&& forall|who: Seq<char>| #[trigger]
            self.accounts.contains_key(who) ==> self.accounts[who] == self.opening[who] + incoming(
                committed(self.log),
                who,
            ) - outgoing(committed(self.log), who)
    }

    /// Each block has its commit time, and lies at least one interval after
    /// the block before it; the first, after the node's start.
    pub open spec fn paced(self) -> bool {
        &&& self.commit_times.len() == self.log.len()
        &&& forall|n: int|
            0 <= n < self.commit_times.len() ==> #[trigger] self.commit_times[n] - last_or_start(
                self.commit_times.take(n),
            ) >= self.interval
    }

    /// The transfers that are accepted while `ops` are answered, in order.
    pub open spec fn accepted(self, ops: Seq<Transaction>) -> Seq<TransferSpec>
        decreases ops.len(),
    {
        if ops.len() == 0 {
            Seq::empty()
        } else {
            let earlier = self.accepted(ops.drop_last());
            match reply_to(self.answered_all(ops.drop_last()).accounts, ops.last()) {
                ReplySpec::Accepted { transfer } => earlier.push(transfer),
                _ => earlier,
            }
        }
    }

    /// The transfers that are accepted in the course of `turns`, in order.
    pub open spec fn accepted_in_run(self, turns: Seq<Turn>) -> Seq<TransferSpec>
        decreases turns.len(),
    {
        if turns.len() == 0 {
            Seq::empty()
        } else {
            self.accepted_in_run(turns.drop_last()) + self.run(turns.drop_last()).accepted(
                turns.last().operations,
            )
        }
    }

    /// How often `t` stands in a block or waits for one.
    pub open spec fn held(self, t: TransferSpec) -> nat {
        count(committed(self.log), t) + count(self.pending, t)
    }
}

/// How often `t` occurs in `transfers`.
pub open spec fn count(transfers: Seq<TransferSpec>, t: TransferSpec) -> nat
    decreases transfers.len(),
{
    if transfers.len() == 0 {
        0
    } else {
        count(transfers.drop_last(), t) + if transfers.last() == t {
            1nat
        } else {
            0nat
        }
    }
}

} // verus!
