//! What holds of the node whatever it is asked and however long it runs:
//! facts about its states, proved from the definitions that the contracts of
//! its functions use.

use vstd::prelude::*;
use crate::ledger::{check_settlement, check_transfer, settled, TransferError};
use crate::model::{count, last_or_start, reply_to, NodeState, Turn};
use crate::reply::ReplySpec;
use crate::settlement::{
    committed, committed_of, incoming, lemma_committed_push, lemma_flow_concat,
    lemma_flow_of_stranger, lemma_settlement_conserves, outgoing, passes_in_turn, settle_all,
};
use crate::transaction::{Transaction, TransactionTransfer, TransferSpec};

verus! {

/// Answering operations makes no block: the log, the commit times and the
/// interval stay as they are.
pub proof fn lemma_answers_leave_the_log(s: NodeState, ops: Seq<Transaction>)
    ensures
        s.answered_all(ops).log == s.log,
        s.answered_all(ops).commit_times == s.commit_times,
        s.answered_all(ops).interval == s.interval,
    decreases ops.len(),
{
    if ops.len() > 0 {
        lemma_answers_leave_the_log(s, ops.drop_last());
    }
}

/// There is one reply for each operation.
pub proof fn lemma_one_reply_each(s: NodeState, ops: Seq<Transaction>)
    ensures
        s.replies(ops).len() == ops.len(),
    decreases ops.len(),
{
    if ops.len() > 0 {
        lemma_one_reply_each(s, ops.drop_last());
    }
}

/// Answering an operation keeps the books balanced.
pub proof fn lemma_answer_keeps_balance(s: NodeState, op: Transaction)
    requires
        s.balanced(),
    ensures
        s.answered(op).balanced(),
{
    let after = s.answered(op);
    match reply_to(s.accounts, op) {
        ReplySpec::Created { name, balance } => {
            let past = committed(s.log);
            assert forall|i: int| 0 <= i < past.len() implies (#[trigger] past[i]).sender != name
                && past[i].receiver != name by {
                assert(s.accounts.contains_key(past[i].sender));
            }
            lemma_flow_of_stranger(past, name);
            assert(after.opening.dom() =~= after.accounts.dom());
        },
        _ => {},
    }
}

/// Closing a block, or finding that none is due, keeps the books balanced.
pub proof fn lemma_block_keeps_balance(s: NodeState, now: u128)
    requires
        s.balanced(),
    ensures
        s.block_closed(now).balanced(),
{
    if s.due(now) {
        let after = s.block_closed(now);
        let past = committed(s.log);
        let block = committed_of(s.accounts, s.pending);
        lemma_settlement_conserves(s.accounts, s.pending);
        lemma_committed_push(s.log, block);
        assert forall|i: int| 0 <= i < (past + block).len() implies after.accounts.contains_key(
            (#[trigger] (past + block)[i]).sender,
        ) && after.accounts.contains_key((past + block)[i].receiver) by {
            if i < past.len() {
                assert(s.accounts.contains_key(past[i].sender));
            } else {
                assert(s.accounts.contains_key(block[i - past.len()].sender));
            }
        }
        assert forall|who: Seq<char>| #[trigger]
            after.accounts.contains_key(who) implies after.accounts[who] == after.opening[who]
            + incoming(past + block, who) - outgoing(past + block, who) by {
            assert(s.accounts.contains_key(who));
            lemma_flow_concat(past, block, who);
        }
    }
}

/// A turn of the loop keeps the books balanced.
pub proof fn lemma_turn_keeps_balance(s: NodeState, turn: Turn)
    requires
        s.balanced(),
    ensures
        s.answered_all(turn.operations).balanced(),
        s.turn(turn).balanced(),
{
    lemma_answers_keep_balance(s, turn.operations);
    lemma_block_keeps_balance(s.answered_all(turn.operations), turn.now);
}

/// Answering any number of operations keeps the books balanced.
pub proof fn lemma_answers_keep_balance(s: NodeState, ops: Seq<Transaction>)
    requires
        s.balanced(),
    ensures
        s.answered_all(ops).balanced(),
    decreases ops.len(),
{
    if ops.len() > 0 {
        lemma_answers_keep_balance(s, ops.drop_last());
        lemma_answer_keeps_balance(s.answered_all(ops.drop_last()), ops.last());
    }
}

/// However long the node runs, every account holds what it was opened with,
/// plus what the blocks paid it, minus what the blocks took from it.
pub proof fn lemma_run_keeps_balance(s: NodeState, turns: Seq<Turn>)
    requires
        s.balanced(),
    ensures
        s.run(turns).balanced(),
    decreases turns.len(),
{
    if turns.len() > 0 {
        lemma_run_keeps_balance(s, turns.drop_last());
        lemma_turn_keeps_balance(s.run(turns.drop_last()), turns.last());
    }
}

/// Closing a block keeps the blocks at their distance: the new block lies at
/// least one interval after the one before it.
pub proof fn lemma_block_keeps_pace(s: NodeState, now: u128)
    requires
        s.paced(),
    ensures
        s.block_closed(now).paced(),
{
    if s.due(now) {
        let times = s.commit_times.push(now as nat);
        assert forall|n: int| 0 <= n < times.len() implies #[trigger] times[n] - last_or_start(
            times.take(n),
        ) >= s.interval by {
            if n < s.commit_times.len() {
                assert(times.take(n) =~= s.commit_times.take(n));
                assert(times[n] == s.commit_times[n]);
            } else {
                assert(times.take(n) =~= s.commit_times);
            }
        }
    }
}

/// However long the node runs, its blocks keep their distance.
pub proof fn lemma_run_keeps_pace(s: NodeState, turns: Seq<Turn>)
    requires
        s.paced(),
    ensures
        s.run(turns).paced(),
    decreases turns.len(),
{
    if turns.len() > 0 {
        lemma_run_keeps_pace(s, turns.drop_last());
        let before = s.run(turns.drop_last());
        lemma_answers_leave_the_log(before, turns.last().operations);
        lemma_block_keeps_pace(before.answered_all(turns.last().operations), turns.last().now);
    }
}

/// Between the commit times of two blocks that follow each other lies at
/// least one interval, and so between the node's start and the first block.
pub proof fn lemma_blocks_keep_their_distance(s: NodeState, n: int)
    requires
        s.paced(),
        0 <= n < s.log.len(),
    ensures
        n == 0 ==> s.commit_times[n] >= s.interval,
        n > 0 ==> s.commit_times[n] - s.commit_times[n - 1] >= s.interval,
{
    assert(s.commit_times[n] - last_or_start(s.commit_times.take(n)) >= s.interval);
    if n > 0 {
        assert(s.commit_times.take(n).last() == s.commit_times[n - 1]);
    }
}

/// A block is made at the first look at the clock that finds the interval
/// passed, and bears the time of that look.
pub proof fn lemma_block_is_made_when_due(s: NodeState, now: u128)
    requires
        s.due(now),
    ensures
        s.block_closed(now).log.len() == s.log.len() + 1,
        s.block_closed(now).last_mined() == now,
        !s.block_closed(now).due(now) || s.interval == 0,
{
}

/// No block is made before its time: where none is due, looking at the
/// clock changes nothing, and what is pending goes on waiting.
pub proof fn lemma_no_block_before_its_time(s: NodeState, now: u128)
    requires
        !s.due(now),
    ensures
        s.block_closed(now) == s,
{
}

/// The log only grows: what a run finds in the log stays there, block for
/// block.
pub proof fn lemma_log_only_grows(s: NodeState, turns: Seq<Turn>)
    ensures
        s.log.is_prefix_of(s.run(turns).log),
    decreases turns.len(),
{
    if turns.len() > 0 {
        lemma_log_only_grows(s, turns.drop_last());
        lemma_answers_leave_the_log(s.run(turns.drop_last()), turns.last().operations);
    }
}

/// Creating an account twice under one name: the first creation succeeds
/// with the balance it was given; the second is told that the account
/// exists, with the balance of the first, and changes nothing.
pub proof fn lemma_second_creation_fails(s: NodeState, name: String, first: u64, second: u64)
    requires
        !s.accounts.contains_key(name@),
    ensures
        reply_to(s.accounts, Transaction::CreateAccount { name, balance: first })
            == (ReplySpec::Created { name: name@, balance: first }),
        s.answered(Transaction::CreateAccount { name, balance: first }).accounts
            == s.accounts.insert(name@, first),
        reply_to(
            s.answered(Transaction::CreateAccount { name, balance: first }).accounts,
            Transaction::CreateAccount { name, balance: second },
        ) == (ReplySpec::AlreadyExists { name: name@, balance: first }),
        s.answered(Transaction::CreateAccount { name, balance: first }).answered(
            Transaction::CreateAccount { name, balance: second },
        ) == s.answered(Transaction::CreateAccount { name, balance: first }),
{
}

/// A query changes nothing, and an account that is not there is told
/// apart from one that holds nothing.
pub proof fn lemma_query_reads_only(s: NodeState, name: String)
    ensures
        s.answered(Transaction::Balance { name }) == s,
        reply_to(s.accounts, Transaction::Balance { name }) is NotFound
            <==> !s.accounts.contains_key(name@),
{
}

/// A transfer between two account holders whose sender can pay is accepted:
/// it joins the pending transfers once, at their end, and nothing else
/// changes; no balance moves yet.
pub proof fn lemma_funded_transfer_is_admitted(s: NodeState, transfer: TransactionTransfer)
    requires
        s.accounts.contains_key(transfer@.sender),
        s.accounts.contains_key(transfer@.receiver),
        s.accounts[transfer@.sender] >= transfer@.amount,
    ensures
        reply_to(s.accounts, Transaction::Transfer(transfer)) == (ReplySpec::Accepted {
            transfer: transfer@,
        }),
        s.answered(Transaction::Transfer(transfer)) == (NodeState {
            pending: s.pending.push(transfer@),
            ..s
        }),
{
}

/// A transfer whose sender holds less than the amount is rejected at once,
/// and nothing changes: it does not join the pending transfers.
pub proof fn lemma_unfunded_transfer_is_rejected(s: NodeState, transfer: TransactionTransfer)
    requires
        s.accounts.contains_key(transfer@.sender),
        s.accounts[transfer@.sender] < transfer@.amount,
    ensures
        reply_to(s.accounts, Transaction::Transfer(transfer)) == (ReplySpec::Rejected {
            transfer: transfer@,
            reason: if s.accounts.contains_key(transfer@.receiver) {
                TransferError::InsufficientFunds
            } else {
                TransferError::UnknownReceiver
            },
        }),
        s.answered(Transaction::Transfer(transfer)) == s,
{
}

/// The checks at settlement are those at admission and one more: a transfer
/// that fails at admission fails at settlement for the same reason.
pub proof fn lemma_settlement_repeats_admission(
    accounts: Map<Seq<char>, u64>,
    transfer: TransferSpec,
)
    ensures
        check_transfer(accounts, transfer) is Err ==> check_settlement(accounts, transfer)
            == check_transfer(accounts, transfer),
        check_settlement(accounts, transfer) is Ok ==> check_transfer(accounts, transfer) is Ok,
{
}

/// A block that settles a single pending transfer which passes the checks
/// holds that transfer, and the balances are those after it.
pub proof fn lemma_lone_transfer_settles(accounts: Map<Seq<char>, u64>, transfer: TransferSpec)
    requires
        check_settlement(accounts, transfer) is Ok,
    ensures
        committed_of(accounts, seq![transfer]) == seq![transfer],
        settle_all(accounts, seq![transfer]) == settled(accounts, transfer),
{
    let pending = seq![transfer];
    assert(pending.drop_last() =~= Seq::<TransferSpec>::empty());
    assert(pending.last() == transfer);
    assert(settle_all(accounts, pending.drop_last()) == accounts);
    assert(committed_of(accounts, pending.drop_last()) =~= Seq::<TransferSpec>::empty());
    assert(committed_of(accounts, pending) =~= seq![transfer]);
}

/// No balance is spent twice: of two pending transfers from one sender, each
/// of which the sender could pay alone but not both, the block holds the
/// first, and the second is dropped.
pub proof fn lemma_second_spender_is_dropped(
    accounts: Map<Seq<char>, u64>,
    first: TransferSpec,
    second: TransferSpec,
)
    requires
        check_settlement(accounts, first) is Ok,
        first.sender == second.sender,
        first.sender != first.receiver,
        accounts[first.sender] < first.amount + second.amount,
    ensures
        committed_of(accounts, seq![first, second]) == seq![first],
        settle_all(accounts, seq![first, second]) == settled(accounts, first),
{
    let pending = seq![first, second];
    lemma_lone_transfer_settles(accounts, first);
    assert(pending.drop_last() =~= seq![first]);
    assert(pending.last() == second);
    let between = settled(accounts, first);
    assert(between[second.sender] == accounts[first.sender] - first.amount);
    assert(check_settlement(between, second) is Err);
}

/// With nothing pending, a block is empty and moves nothing.
pub proof fn lemma_empty_block(accounts: Map<Seq<char>, u64>)
    ensures
        committed_of(accounts, Seq::<TransferSpec>::empty()) == Seq::<TransferSpec>::empty(),
        settle_all(accounts, Seq::<TransferSpec>::empty()) == accounts,
{
}

/// Settling a prefix of the pending transfers commits a prefix of what
/// settling all of them commits.
pub proof fn lemma_committed_prefix(
    accounts: Map<Seq<char>, u64>,
    pending: Seq<TransferSpec>,
    i: int,
)
    requires
        0 <= i <= pending.len(),
    ensures
        committed_of(accounts, pending.take(i)).is_prefix_of(committed_of(accounts, pending)),
    decreases pending.len() - i,
{
    if i == pending.len() {
        assert(pending.take(i) =~= pending);
    } else {
        lemma_committed_prefix(accounts, pending, i + 1);
        assert(pending.take(i + 1).drop_last() =~= pending.take(i));
    }
}

/// A pending transfer that passes the checks when its turn comes is in the
/// block.
pub proof fn lemma_passing_transfer_is_committed(
    accounts: Map<Seq<char>, u64>,
    pending: Seq<TransferSpec>,
    i: int,
)
    requires
        0 <= i < pending.len(),
        passes_in_turn(accounts, pending, i),
    ensures
        committed_of(accounts, pending).contains(pending[i]),
{
    let upto = pending.take(i + 1);
    assert(upto.drop_last() =~= pending.take(i));
    let part = committed_of(accounts, upto);
    assert(part.last() == pending[i]);
    lemma_committed_prefix(accounts, pending, i + 1);
    assert(committed_of(accounts, pending)[part.len() - 1] == pending[i]);
}

/// A block holds only transfers that were pending and passed the checks
/// when their turn came, and no more of them than were pending.
pub proof fn lemma_committed_were_pending(accounts: Map<Seq<char>, u64>, pending: Seq<TransferSpec>)
    ensures
        committed_of(accounts, pending).len() <= pending.len(),
        forall|j: int|
            0 <= j < committed_of(accounts, pending).len() ==> exists|i: int|
                0 <= i < pending.len() && pending[i] == #[trigger] committed_of(
                    accounts,
                    pending,
                )[j] && passes_in_turn(accounts, pending, i),
    decreases pending.len(),
{
    if pending.len() > 0 {
        let earlier = pending.drop_last();
        lemma_committed_were_pending(accounts, earlier);
        let part = committed_of(accounts, earlier);
        let whole = committed_of(accounts, pending);
        assert(earlier =~= pending.take(pending.len() - 1));
        assert forall|j: int| 0 <= j < whole.len() implies exists|i: int|
            0 <= i < pending.len() && pending[i] == #[trigger] whole[j] && passes_in_turn(
                accounts,
                pending,
                i,
            ) by {
            if j < part.len() {
                let i = choose|i: int|
                    0 <= i < earlier.len() && earlier[i] == part[j] && passes_in_turn(
                        accounts,
                        earlier,
                        i,
                    );
                assert(earlier.take(i) =~= pending.take(i));
                assert(passes_in_turn(accounts, pending, i));
            } else {
                assert(passes_in_turn(accounts, pending, pending.len() - 1));
            }
        }
    }
}

/// Counting in a sequence that ends in `x`.
pub proof fn lemma_count_push(transfers: Seq<TransferSpec>, x: TransferSpec, t: TransferSpec)
    ensures
        count(transfers.push(x), t) == count(transfers, t) + if x == t {
            1nat
        } else {
            0nat
        },
{
    assert(transfers.push(x).drop_last() =~= transfers);
}

/// Counts add up over concatenation.
pub proof fn lemma_count_concat(
    first: Seq<TransferSpec>,
    second: Seq<TransferSpec>,
    t: TransferSpec,
)
    ensures
        count(first + second, t) == count(first, t) + count(second, t),
    decreases second.len(),
{
    if second.len() == 0 {
        assert(first + second =~= first);
    } else {
        lemma_count_concat(first, second.drop_last(), t);
        assert((first + second).drop_last() =~= first + second.drop_last());
    }
}

/// A block holds a transfer no more often than it was pending.
pub proof fn lemma_committed_no_more_than_pending(
    accounts: Map<Seq<char>, u64>,
    pending: Seq<TransferSpec>,
    t: TransferSpec,
)
    ensures
        count(committed_of(accounts, pending), t) <= count(pending, t),
    decreases pending.len(),
{
    if pending.len() > 0 {
        lemma_committed_no_more_than_pending(accounts, pending.drop_last(), t);
        lemma_count_push(committed_of(accounts, pending.drop_last()), pending.last(), t);
    }
}

/// While operations are answered, a transfer comes to be held once for each
/// time it is accepted, and in no other way.
pub proof fn lemma_answers_hold_what_they_accept(
    s: NodeState,
    ops: Seq<Transaction>,
    t: TransferSpec,
)
    ensures
        s.answered_all(ops).held(t) == s.held(t) + count(s.accepted(ops), t),
    decreases ops.len(),
{
    if ops.len() > 0 {
        lemma_answers_hold_what_they_accept(s, ops.drop_last(), t);
        let before = s.answered_all(ops.drop_last());
        match reply_to(before.accounts, ops.last()) {
            ReplySpec::Accepted { transfer } => {
                lemma_count_push(before.pending, transfer, t);
                lemma_count_push(s.accepted(ops.drop_last()), transfer, t);
            },
            _ => {},
        }
    }
}

/// Closing a block creates no transfer: each pending transfer goes into the
/// block once or is dropped, and nothing stays pending.
pub proof fn lemma_block_holds_no_more(s: NodeState, now: u128, t: TransferSpec)
    ensures
        s.block_closed(now).held(t) <= s.held(t),
        s.due(now) ==> count(s.block_closed(now).pending, t) == 0,
{
    if s.due(now) {
        let block = committed_of(s.accounts, s.pending);
        lemma_committed_push(s.log, block);
        lemma_count_concat(committed(s.log), block, t);
        lemma_committed_no_more_than_pending(s.accounts, s.pending, t);
    }
}

/// However long the node runs, a transfer stands in its blocks, or waits for
/// one, no more often than it did at the start plus the times it was
/// accepted since. So a transfer that was never accepted is in no block, and
/// one that was accepted once is in at most one block, once.
pub proof fn lemma_run_holds_what_it_accepts(s: NodeState, turns: Seq<Turn>, t: TransferSpec)
    ensures
        s.run(turns).held(t) <= s.held(t) + count(s.accepted_in_run(turns), t),
    decreases turns.len(),
{
    if turns.len() > 0 {
        let before = s.run(turns.drop_last());
        let last = turns.last();
        lemma_run_holds_what_it_accepts(s, turns.drop_last(), t);
        lemma_answers_hold_what_they_accept(before, last.operations, t);
        lemma_block_holds_no_more(before.answered_all(last.operations), last.now, t);
        lemma_count_concat(
            s.accepted_in_run(turns.drop_last()),
            before.accepted(last.operations),
            t,
        );
    }
}

/// A transfer is accepted only if it passed the three checks against the
/// balances of the moment: with a sender that holds too little, it is not
/// among the accepted.
pub proof fn lemma_accepted_were_funded(s: NodeState, ops: Seq<Transaction>, i: int)
    requires
        0 <= i < s.accepted(ops).len(),
    ensures
        exists|k: int|
            0 <= k < ops.len() && ops[k] is Transfer && ops[k]->0@ == s.accepted(ops)[i]
                && check_transfer(s.answered_all(ops.take(k)).accounts, ops[k]->0@) is Ok,
    decreases ops.len(),
{
    let earlier = s.accepted(ops.drop_last());
    if i < earlier.len() {
        lemma_accepted_were_funded(s, ops.drop_last(), i);
        let k = choose|k: int|
            0 <= k < ops.drop_last().len() && ops.drop_last()[k] is Transfer
                && ops.drop_last()[k]->0@ == earlier[i] && check_transfer(
                s.answered_all(ops.drop_last().take(k)).accounts,
                ops.drop_last()[k]->0@,
            ) is Ok;
        assert(ops.drop_last().take(k) =~= ops.take(k));
        assert(ops[k] is Transfer && ops[k]->0@ == s.accepted(ops)[i] && check_transfer(
            s.answered_all(ops.take(k)).accounts,
            ops[k]->0@,
        ) is Ok);
    } else {
        let k = ops.len() - 1;
        assert(ops.take(k) =~= ops.drop_last());
        assert(ops[k] is Transfer && ops[k]->0@ == s.accepted(ops)[i] && check_transfer(
            s.answered_all(ops.take(k)).accounts,
            ops[k]->0@,
        ) is Ok);
    }
}

} // verus!
