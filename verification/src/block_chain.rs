//! The node's state and the two steps of its loop: answering what has been
//! handed in, and closing a block when its time has come.

use vstd::prelude::*;
use crate::laws::{lemma_answer_keeps_balance, lemma_block_keeps_balance, lemma_block_keeps_pace};
use crate::ledger::{can_transfer, check_settlement, settled, transfer_between_accounts, Ledger};
use crate::model::{last_or_start, reply_to, NodeState, Turn};
use crate::reply::{replies_view, Reply, ReplySpec};
use crate::settlement::{committed_of, settle_all};
use crate::transaction::{transfers_view, Transaction, TransactionTransfer, TransferSpec};

verus! {

/// Nanoseconds in a second.
pub const NANOS_PER_SECOND: u128 = 1_000_000_000;

/// The transfers settled at one tick of the block clock.
#[derive(Debug)]
pub struct Block {
    /// The length of the log when the block was made.
    pub current_block_num: usize,
    /// The transfers that the block settled, in the order of their admission.
    pub transactions: Vec<TransactionTransfer>,
}

impl Block {
    /// The block's transfers.
    pub open spec fn committed(&self) -> Seq<TransferSpec> {
        transfers_view(self.transactions@)
    }
}

/// A node: its accounts, its log of blocks, and its block clock. Time is
/// counted in nanoseconds since the node started. The transfers that wait
/// for the next block are kept by whoever turns the node's loop.
pub struct BlockChain {
    duration_between_blocks: u64,
    last_mining_time: u128,
    blocks: Vec<Block>,
    accounts: Ledger,
    opening: Ghost<Map<Seq<char>, u64>>,
    mined_at: Ghost<Seq<nat>>,
}

impl BlockChain {
    /// The balance of each account.
    pub closed spec fn accounts(&self) -> Map<Seq<char>, u64> {
        self.accounts@
    }

    /// The balance with which each account was opened.
    pub closed spec fn opening(&self) -> Map<Seq<char>, u64> {
        self.opening@
    }

    /// The transfers of each block; the block at index `n` has number `n`.
    pub closed spec fn log(&self) -> Seq<Seq<TransferSpec>> {
        self.blocks@.map_values(|b: Block| b.committed())
    }

    /// When each block was made.
    pub closed spec fn commit_times(&self) -> Seq<nat> {
        self.mined_at@
    }

    /// The time between two blocks, in nanoseconds.
    pub closed spec fn interval(&self) -> nat {
        (self.duration_between_blocks * NANOS_PER_SECOND) as nat
    }

    /// The node's state while `pending` waits for the next block.
    pub open spec fn state(&self, pending: Seq<TransferSpec>) -> NodeState {
        NodeState {
            accounts: self.accounts(),
            opening: self.opening(),
            pending,
            log: self.log(),
            commit_times: self.commit_times(),
            interval: self.interval(),
        }
    }

    /// The node's state apart from its balances, which `transfer` moves
    /// before the block that records the move stands in the log.
    pub open spec fn books(&self) -> NodeState {
        NodeState { accounts: Map::empty(), ..self.state(Seq::empty()) }
    }

    /// Every account holds what it was opened with, plus what the blocks paid
    /// it, minus what the blocks took from it.
    pub open spec fn balanced(&self) -> bool {
        self.state(Seq::empty()).balanced()
    }

    /// The ledger holds no name twice, each block carries its place in the
    /// log as its number, the interval is at least a second, and the clock
    /// stands where the last block left it, with at least the interval
    /// between each block and the one before it.
    pub closed spec fn wf(&self) -> bool {
        &&& self.accounts.wf()
        &&& forall|i: int|
            0 <= i < self.blocks@.len() ==> (#[trigger] self.blocks@[i]).current_block_num == i
        &&& self.duration_between_blocks > 0
        &&& self.last_mining_time == last_or_start(self.mined_at@)
        &&& self.state(Seq::empty()).paced()
    }

    /// Blocks keep their distance: in a node that is well formed each block
    /// has its commit time, at least one interval after that of the block
    /// before it, and the interval is at least a second.
    pub proof fn lemma_cadence(&self, pending: Seq<TransferSpec>)
        requires
            self.wf(),
        ensures
            self.state(pending).paced(),
            self.interval() >= NANOS_PER_SECOND,
    {
    }

    /// A node at its start: no account, no block, the clock at 0 and a block
    /// due every `block_time` seconds. The block time is a positive number.
    pub fn new(block_time: u64) -> (chain: Self)
        requires
            block_time > 0,
        ensures
            chain.wf(),
            chain.balanced(),
            chain.state(Seq::empty()) == (NodeState {
                accounts: Map::empty(),
                opening: Map::empty(),
                pending: Seq::empty(),
                log: Seq::empty(),
                commit_times: Seq::empty(),
                interval: (block_time * NANOS_PER_SECOND) as nat,
            }),
    {
        let chain = BlockChain {
            duration_between_blocks: block_time,
            last_mining_time: 0,
            blocks: Vec::new(),
            accounts: Ledger::new(),
            opening: Ghost(Map::empty()),
            mined_at: Ghost(Seq::empty()),
        };
        assert(chain.log() =~= Seq::<Seq<TransferSpec>>::empty());
        assert(chain.opening().dom() =~= chain.accounts().dom());
        chain
    }

    /// Settles one transfer into `block`, if it passes the checks against the
    /// balances as they stand: the sender is debited and the receiver
    /// credited as one step, and the transfer is recorded at the end of
    /// `block`. A transfer that fails changes nothing. The log is not
    /// touched: until `block` stands in it, the balances are ahead of what
    /// the log accounts for.
    pub fn transfer(&mut self, block: &mut Block, transaction: &TransactionTransfer) -> (reply:
        Reply)
        requires
            old(self).wf(),
        ensures
            final(self).wf(),
            final(self).books() == old(self).books(),
            final(block).current_block_num == old(block).current_block_num,
            match check_settlement(old(self).accounts(), transaction@) {
                Ok(()) => {
                    &&& final(self).accounts() == settled(old(self).accounts(), transaction@)
                    &&& final(block).committed() == old(block).committed().push(transaction@)
                    &&& reply@ == ReplySpec::Transferred { transfer: transaction@ }
                },
                Err(reason) => {
                    &&& final(self).accounts() == old(self).accounts()
                    &&& final(block).committed() == old(block).committed()
                    &&& reply@ == ReplySpec::Rejected { transfer: transaction@, reason }
                },
            },
    {
        if let Err(reason) = can_transfer(&self.accounts, transaction) {
            return Reply::Rejected { transfer: transaction.clone(), reason };
        }
        match transfer_between_accounts(&mut self.accounts, transaction) {
            Err(reason) => Reply::Rejected { transfer: transaction.clone(), reason },
            Ok(()) => {
                block.transactions.push(transaction.clone());
                assert(block.committed() =~= old(block).committed().push(transaction@));
                Reply::Transferred { transfer: transaction.clone() }
            },
        }
    }

    /// Answers one operation at once. A balance query reads; the creation of
    /// an account writes the ledger unless the name is taken; a transfer is
    /// checked and, if it passes, joins `transfers` to wait for the next
    /// block, with nothing moved yet.
    pub fn process(
        &mut self,
        transaction: &Transaction,
        transfers: &mut Vec<TransactionTransfer>,
    ) -> (reply: Reply)
        requires
            old(self).wf(),
        ensures
            final(self).wf(),
            reply@ == reply_to(old(self).accounts(), *transaction),
            final(self).state(transfers_view(final(transfers)@)) == old(self).state(
                transfers_view(old(transfers)@),
            ).answered(*transaction),
            old(self).balanced() ==> final(self).balanced(),
    {
        proof {
            if old(self).balanced() {
                lemma_answer_keeps_balance(
                    old(self).state(transfers_view(old(transfers)@)),
                    *transaction,
                );
            }
        }
        match transaction {
            Transaction::Balance { name } => match self.accounts.balance_of(name) {
                Some(balance) => Reply::Balance { name: name.clone(), balance },
                None => Reply::NotFound { name: name.clone() },
            },
            Transaction::CreateAccount { name, balance } => {
                match self.accounts.create_account(name.clone(), *balance) {
                    Ok(()) => {
                        proof {
                            self.opening = Ghost(self.opening@.insert(name@, *balance));
                        }
                        Reply::Created { name: name.clone(), balance: *balance }
                    },
                    Err(taken) => Reply::AlreadyExists {
                        name: name.clone(),
                        balance: taken.balance,
                    },
                }
            },
            Transaction::Transfer(transfer) => match can_transfer(&self.accounts, transfer) {
                Ok(()) => {
                    transfers.push(transfer.clone());
                    assert(transfers_view(transfers@) =~= transfers_view(old(transfers)@).push(
                        transfer@,
                    ));
                    Reply::Accepted { transfer: transfer.clone() }
                },
                Err(reason) => Reply::Rejected { transfer: transfer.clone(), reason },
            },
        }
    }

    /// Closes a block if one is due at `now`, and says whether it did. The
    /// pending transfers are settled in the order of their admission, each
    /// checked again against the balances that the earlier ones left; those
    /// that pass make up the block, the others are dropped, and `transfers`
    /// is left empty. The block is made even if nothing is pending. Where no
    /// block is due nothing changes.
    pub fn mine(&mut self, now: u128, transfers: &mut Vec<TransactionTransfer>) -> (mined: bool)
        requires
            old(self).wf(),
        ensures
            final(self).wf(),
            mined == old(self).state(transfers_view(old(transfers)@)).due(now),
            final(self).state(transfers_view(final(transfers)@)) == old(self).state(
                transfers_view(old(transfers)@),
            ).block_closed(now),
            mined ==> final(transfers)@.len() == 0,
            !mined ==> final(transfers)@ == old(transfers)@,
            old(self).balanced() ==> final(self).balanced(),
    {
        let ghost before = old(self).state(transfers_view(old(transfers)@));
        let interval: u128 = (self.duration_between_blocks as u128) * NANOS_PER_SECOND;
        if now < self.last_mining_time || now - self.last_mining_time < interval {
            return false;
        }
        let ghost pending = before.pending;
        let ghost start = before.accounts;
        let mut block = Block { current_block_num: self.blocks.len(), transactions: Vec::new() };
        let mut i: usize = 0;
        assert(pending.take(0) =~= Seq::<TransferSpec>::empty());
        assert(block.committed() =~= Seq::<TransferSpec>::empty());
        while i < transfers.len()
            invariant
                i <= transfers.len(),
                transfers@ == old(transfers)@,
                pending == transfers_view(transfers@),
                self.wf(),
                self.books() == old(self).books(),
                self.blocks@.len() == old(self).blocks@.len(),
                self.last_mining_time == old(self).last_mining_time,
                self.duration_between_blocks == old(self).duration_between_blocks,
                block.current_block_num == self.blocks@.len(),
                self.accounts() == settle_all(start, pending.take(i as int)),
                block.committed() == committed_of(start, pending.take(i as int)),
            decreases transfers.len() - i,
        {
            proof {
                assert(pending.take(i + 1).drop_last() =~= pending.take(i as int));
                assert(pending.take(i + 1).last() == transfers@[i as int]@);
            }
            let _ = self.transfer(&mut block, &transfers[i]);
            i += 1;
        }
        proof {
            assert(pending.take(i as int) =~= pending);
            assert(self.blocks@.push(block).map_values(|b: Block| b.committed())
                =~= self.blocks@.map_values(|b: Block| b.committed()).push(block.committed()));
            lemma_block_keeps_pace(before, now);
            if old(self).balanced() {
                lemma_block_keeps_balance(before, now);
            }
        }
        self.blocks.push(block);
        self.last_mining_time = now;
        proof {
            self.mined_at = Ghost(self.mined_at@.push(now as nat));
        }
        transfers.clear();
        assert(transfers_view(transfers@) =~= Seq::<TransferSpec>::empty());
        true
    }

    /// One turn of the node's loop at time `now`: answers each of
    /// `operations` in order, then closes a block if one is due. There is
    /// one reply for each operation, at the operation's place. A transfer
    /// admitted in this turn is settled by the block of this turn, if there
    /// is one, and else waits in `transfers`.
    pub fn try_mining(
        &mut self,
        now: u128,
        operations: &Vec<Transaction>,
        transfers: &mut Vec<TransactionTransfer>,
    ) -> (replies: Vec<Reply>)
        requires
            old(self).wf(),
        ensures
            final(self).wf(),
            replies@.len() == operations@.len(),
            replies_view(replies@) == old(self).state(transfers_view(old(transfers)@)).replies(
                operations@,
            ),
            final(self).state(transfers_view(final(transfers)@)) == old(self).state(
                transfers_view(old(transfers)@),
            ).turn(Turn { now, operations: operations@ }),
            old(self).balanced() ==> final(self).balanced(),
    {
        let ghost before = old(self).state(transfers_view(old(transfers)@));
        let mut replies: Vec<Reply> = Vec::new();
        let mut i: usize = 0;
        assert(operations@.take(0) =~= Seq::<Transaction>::empty());
        assert(replies_view(replies@) =~= Seq::<ReplySpec>::empty());
        while i < operations.len()
            invariant
                i <= operations.len(),
                before == old(self).state(transfers_view(old(transfers)@)),
                self.wf(),
                old(self).balanced() ==> self.balanced(),
                self.state(transfers_view(transfers@)) == before.answered_all(
                    operations@.take(i as int),
                ),
                replies@.len() == i,
                replies_view(replies@) == before.replies(operations@.take(i as int)),
            decreases operations.len() - i,
        {
            proof {
                assert(operations@.take(i + 1).drop_last() =~= operations@.take(i as int));
                assert(operations@.take(i + 1).last() == operations@[i as int]);
            }
            let ghost answered = replies_view(replies@);
            let reply = self.process(&operations[i], transfers);
            replies.push(reply);
            assert(replies_view(replies@) =~= answered.push(reply@));
            i += 1;
        }
        assert(operations@.take(i as int) =~= operations@);
        let _ = self.mine(now, transfers);
        replies
    }

    /// The balance held under `name`, or `None` where no such account exists.
    pub fn balance_of(&self, name: &String) -> (balance: Option<u64>)
        requires
            self.wf(),
        ensures
            balance == (if self.accounts().contains_key(name@) {
                Some(self.accounts()[name@])
            } else {
                None
            }),
    {
        self.accounts.balance_of(name)
    }

    /// The blocks made so far, oldest first.
    pub fn blocks(&self) -> (blocks: &Vec<Block>)
        requires
            self.wf(),
        ensures
            blocks@.len() == self.log().len(),
            forall|i: int|
                0 <= i < blocks@.len() ==> (#[trigger] blocks@[i]).current_block_num == i
                    && blocks@[i].committed() == self.log()[i],
    {
        &self.blocks
    }

    /// The number of seconds between two blocks.
    pub fn block_time(&self) -> (seconds: u64)
        ensures
            seconds * NANOS_PER_SECOND == self.interval(),
    {
        self.duration_between_blocks
    }

    /// When the last block was made, in nanoseconds since the node started;
    /// 0 before the first block.
    pub fn last_mining_time(&self) -> (nanos: u128)
        requires
            self.wf(),
        ensures
            nanos == last_or_start(self.commit_times()),
    {
        self.last_mining_time
    }
}

impl Default for BlockChain {
    /// A node that makes a block every ten seconds.
    fn default() -> (chain: Self)
        ensures
            chain.wf(),
            chain.balanced(),
            chain.state(Seq::empty()) == (NodeState {
                accounts: Map::empty(),
                opening: Map::empty(),
                pending: Seq::empty(),
                log: Seq::empty(),
                commit_times: Seq::empty(),
                interval: (10 * NANOS_PER_SECOND) as nat,
            }),
    {
        Self::new(10)
    }
}

} // verus!
