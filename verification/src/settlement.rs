//! Settling a run of pending transfers in order, and what the run does to
//! each balance.

use vstd::prelude::*;
use crate::ledger::{check_settlement, settled};
use crate::transaction::TransferSpec;

verus! {

/// The sum of the amounts that `transfers` pay to `who`.
pub open spec fn incoming(transfers: Seq<TransferSpec>, who: Seq<char>) -> int
    decreases transfers.len(),
{
    if transfers.len() == 0 {
        0
    } else {
        incoming(transfers.drop_last(), who) + if transfers.last().receiver == who {
            transfers.last().amount as int
        } else {
            0
        }
    }
}

/// The sum of the amounts that `transfers` take from `who`.
pub open spec fn outgoing(transfers: Seq<TransferSpec>, who: Seq<char>) -> int
    decreases transfers.len(),
{
    if transfers.len() == 0 {
        0
    } else {
        outgoing(transfers.drop_last(), who) + if transfers.last().sender == who {
            transfers.last().amount as int
        } else {
            0
        }
    }
}

/// Every block's transfers, oldest block first, as one sequence.
pub open spec fn committed(log: Seq<Seq<TransferSpec>>) -> Seq<TransferSpec>
    decreases log.len(),
{
    if log.len() == 0 {
        Seq::empty()
    } else {
        committed(log.drop_last()) + log.last()
    }
}

/// The balances after `pending` has been settled in order: each transfer is
/// checked against the balances that the earlier ones left, and moves its
/// amount only if it passes.
pub open spec fn settle_all(accounts: Map<Seq<char>, u64>, pending: Seq<TransferSpec>) -> Map<
    Seq<char>,
    u64,
>
    decreases pending.len(),
{
    if pending.len() == 0 {
        accounts
    } else {
        let before = settle_all(accounts, pending.drop_last());
        if check_settlement(before, pending.last()) is Ok {
            settled(before, pending.last())
        } else {
            before
        }
    }
}

/// The transfers of `pending` that pass when their turn comes, in the order
/// in which they were pending: the content of the block that settles them.
pub open spec fn committed_of(accounts: Map<Seq<char>, u64>, pending: Seq<TransferSpec>) -> Seq<
    TransferSpec,
>
    decreases pending.len(),
{
    if pending.len() == 0 {
        Seq::empty()
    } else {
        let before = settle_all(accounts, pending.drop_last());
        let earlier = committed_of(accounts, pending.drop_last());
        if check_settlement(before, pending.last()) is Ok {
            earlier.push(pending.last())
        } else {
            earlier
        }
    }
}

/// Whether the transfer at index `i` of `pending` passes when its turn comes.
pub open spec fn passes_in_turn(
    accounts: Map<Seq<char>, u64>,
    pending: Seq<TransferSpec>,
    i: int,
) -> bool {
    check_settlement(settle_all(accounts, pending.take(i)), pending[i]) is Ok
}

/// Every sender and receiver of `transfers` holds an account.
pub open spec fn parties_known(
    accounts: Map<Seq<char>, u64>,
    transfers: Seq<TransferSpec>,
) -> bool {
    forall|i: int|
        0 <= i < transfers.len() ==> accounts.contains_key(#[trigger] transfers[i].sender)
            && accounts.contains_key(transfers[i].receiver)
}

/// Incoming and outgoing sums of a sequence that ends in `t`.
pub proof fn lemma_flow_push(transfers: Seq<TransferSpec>, t: TransferSpec, who: Seq<char>)
    ensures
        incoming(transfers.push(t), who) == incoming(transfers, who) + if t.receiver == who {
            t.amount as int
        } else {
            0
        },
        outgoing(transfers.push(t), who) == outgoing(transfers, who) + if t.sender == who {
            t.amount as int
        } else {
            0
        },
{
    assert(transfers.push(t).drop_last() =~= transfers);
}

/// Incoming and outgoing sums add up over concatenation.
pub proof fn lemma_flow_concat(first: Seq<TransferSpec>, second: Seq<TransferSpec>, who: Seq<char>)
    ensures
        incoming(first + second, who) == incoming(first, who) + incoming(second, who),
        outgoing(first + second, who) == outgoing(first, who) + outgoing(second, who),
    decreases second.len(),
{
    if second.len() == 0 {
        assert(first + second =~= first);
    } else {
        lemma_flow_concat(first, second.drop_last(), who);
        assert((first + second).drop_last() =~= first + second.drop_last());
    }
}

/// Transfers that never name `who` pay it nothing and take nothing from it.
pub proof fn lemma_flow_of_stranger(transfers: Seq<TransferSpec>, who: Seq<char>)
    requires
        forall|i: int|
            0 <= i < transfers.len() ==> (#[trigger] transfers[i]).sender != who
                && transfers[i].receiver != who,
    ensures
        incoming(transfers, who) == 0,
        outgoing(transfers, who) == 0,
    decreases transfers.len(),
{
    if transfers.len() > 0 {
        lemma_flow_of_stranger(transfers.drop_last(), who);
    }
}

/// The log's transfers once one more block stands at its end.
pub proof fn lemma_committed_push(log: Seq<Seq<TransferSpec>>, block: Seq<TransferSpec>)
    ensures
        committed(log.push(block)) == committed(log) + block,
{
    assert(log.push(block).drop_last() =~= log);
}

/// Settling opens and closes no account, commits only transfers between
/// account holders, and changes each balance by exactly what the committed
/// transfers pay in and take out.
pub proof fn lemma_settlement_conserves(accounts: Map<Seq<char>, u64>, pending: Seq<TransferSpec>)
    ensures
        settle_all(accounts, pending).dom() == accounts.dom(),
        parties_known(accounts, committed_of(accounts, pending)),
        forall|who: Seq<char>| #[trigger]
            accounts.contains_key(who) ==> settle_all(accounts, pending)[who] == accounts[who]
                + incoming(committed_of(accounts, pending), who) - outgoing(
                committed_of(accounts, pending),
                who,
            ),
    decreases pending.len(),
{
    if pending.len() > 0 {
        let earlier = pending.drop_last();
        let t = pending.last();
        lemma_settlement_conserves(accounts, earlier);
        let before = settle_all(accounts, earlier);
        if check_settlement(before, t) is Ok {
            assert(before.contains_key(t.sender) && before.contains_key(t.receiver));
            assert(settled(before, t).dom() =~= before.dom());
            assert forall|who: Seq<char>| #[trigger] accounts.contains_key(who) implies settle_all(
                accounts,
                pending,
            )[who] == accounts[who] + incoming(committed_of(accounts, pending), who) - outgoing(
                committed_of(accounts, pending),
                who,
            ) by {
                lemma_flow_push(committed_of(accounts, earlier), t, who);
            }
        }
    } else {
        assert(settle_all(accounts, pending).dom() =~= accounts.dom());
    }
}

} // verus!
