//! The account ledger: who holds how much, and the rules by which a transfer
//! is admitted and settled.

use vstd::prelude::*;
use crate::transaction::{TransactionTransfer, TransferSpec};

verus! {

/// Why a transfer cannot go through.
#[derive(Debug, Clone, Copy, PartialEq, Eq, Structural)]
pub enum TransferError {
    /// The sender has no account.
    UnknownSender,
    /// The receiver has no account.
    UnknownReceiver,
    /// The sender holds less than the amount.
    InsufficientFunds,
    /// The receiver's balance would no longer fit in 64 bits.
    BalanceOverflow,
}

/// The error of creating an account under a name that is taken; `balance` is
/// what the existing account holds.
#[derive(Debug, Clone, Copy, PartialEq, Eq, Structural)]
pub struct AlreadyExists {
    pub balance: u64,
}

/// The three checks a transfer must pass, in the order in which they are
/// made: the sender exists, the receiver exists, the sender can pay.
pub open spec fn check_transfer(accounts: Map<Seq<char>, u64>, t: TransferSpec) -> Result<
    (),
    TransferError,
> {
    if !accounts.contains_key(t.sender) {
        Err(TransferError::UnknownSender)
    } else if !accounts.contains_key(t.receiver) {
        Err(TransferError::UnknownReceiver)
    } else if accounts[t.sender] < t.amount {
        Err(TransferError::InsufficientFunds)
    } else {
        Ok(())
    }
}

/// The checks of `check_transfer`, then the machine's limit: the credited
/// balance must fit in 64 bits.
pub open spec fn check_settlement(accounts: Map<Seq<char>, u64>, t: TransferSpec) -> Result<
    (),
    TransferError,
> {
    if check_transfer(accounts, t) is Err {
        check_transfer(accounts, t)
    } else if t.sender != t.receiver && accounts[t.receiver] + t.amount > u64::MAX {
        Err(TransferError::BalanceOverflow)
    } else {
        Ok(())
    }
}

/// The balances after `t` has debited its sender and credited its receiver.
/// A transfer from an account to itself leaves every balance as it was.
pub open spec fn settled(accounts: Map<Seq<char>, u64>, t: TransferSpec) -> Map<Seq<char>, u64> {
    let debited = accounts.insert(t.sender, (accounts[t.sender] - t.amount) as u64);
    debited.insert(t.receiver, (debited[t.receiver] + t.amount) as u64)
}

struct Account {
    name: String,
    balance: u64,
}

spec fn named_at(accounts: Seq<Account>, name: Seq<char>, i: int) -> bool {
    0 <= i < accounts.len() && accounts[i].name@ == name
}

spec fn distinct_names(accounts: Seq<Account>) -> bool {
    forall|i: int, j: int|
        0 <= i < j < accounts.len() ==> #[trigger] accounts[i].name@ != #[trigger] accounts[j].name@
}

spec fn balances(accounts: Seq<Account>) -> Map<Seq<char>, u64> {
    Map::new(
        |name: Seq<char>| exists|i: int| named_at(accounts, name, i),
        |name: Seq<char>| accounts[choose|i: int| named_at(accounts, name, i)].balance,
    )
}

proof fn lemma_balance_at(accounts: Seq<Account>, i: int)
    requires
        distinct_names(accounts),
        0 <= i < accounts.len(),
    ensures
        balances(accounts).contains_key(accounts[i].name@),
        balances(accounts)[accounts[i].name@] == accounts[i].balance,
{
    let name = accounts[i].name@;
    assert(named_at(accounts, name, i));
    let j = choose|j: int| named_at(accounts, name, j);
    assert(named_at(accounts, name, j));
    assert(i == j);
}

proof fn lemma_absent(accounts: Seq<Account>, name: Seq<char>)
    requires
        forall|i: int| !named_at(accounts, name, i),
    ensures
        !balances(accounts).contains_key(name),
{
}

proof fn lemma_pushed(accounts: Seq<Account>, account: Account)
    requires
        distinct_names(accounts),
        forall|i: int| !named_at(accounts, account.name@, i),
    ensures
        distinct_names(accounts.push(account)),
        balances(accounts.push(account)) == balances(accounts).insert(
            account.name@,
            account.balance,
        ),
{
    let grown = accounts.push(account);
    assert forall|i: int, j: int| 0 <= i < j < grown.len() implies #[trigger] grown[i].name@
        != #[trigger] grown[j].name@ by {
        if j == accounts.len() {
            assert(!named_at(accounts, account.name@, i));
        }
    }
    let expected = balances(accounts).insert(account.name@, account.balance);
    assert forall|name: Seq<char>| balances(grown).contains_key(name) implies #[trigger]
        expected.contains_key(name) by {
        let i = choose|i: int| named_at(grown, name, i);
        if i < accounts.len() {
            assert(named_at(accounts, name, i));
        }
    }
    assert forall|name: Seq<char>| expected.contains_key(name) implies #[trigger] balances(
        grown,
    ).contains_key(name) by {
        if name == account.name@ {
            assert(named_at(grown, name, accounts.len() as int));
        } else {
            let i = choose|i: int| named_at(accounts, name, i);
            assert(named_at(grown, name, i));
        }
    }
    assert forall|name: Seq<char>| expected.contains_key(name) implies #[trigger] balances(
        grown,
    )[name] == expected[name] by {
        if name == account.name@ {
            lemma_balance_at(grown, accounts.len() as int);
        } else {
            let i = choose|i: int| named_at(accounts, name, i);
            lemma_balance_at(accounts, i);
            lemma_balance_at(grown, i);
        }
    }
    assert(balances(grown) =~= expected);
}

proof fn lemma_rebalanced(before: Seq<Account>, after: Seq<Account>, i: int)
    requires
        distinct_names(before),
        0 <= i < before.len(),
        after.len() == before.len(),
        forall|j: int| 0 <= j < before.len() ==> #[trigger] after[j].name@ == before[j].name@,
        forall|j: int|
            0 <= j < before.len() && j != i ==> #[trigger] after[j].balance == before[j].balance,
    ensures
        distinct_names(after),
        balances(after) == balances(before).insert(before[i].name@, after[i].balance),
{
    let expected = balances(before).insert(before[i].name@, after[i].balance);
    assert forall|a: int, b: int| 0 <= a < b < after.len() implies #[trigger] after[a].name@
        != #[trigger] after[b].name@ by {
        assert(before[a].name@ != before[b].name@);
    }
    assert forall|name: Seq<char>| balances(after).contains_key(name) implies #[trigger]
        expected.contains_key(name) by {
        let j = choose|j: int| named_at(after, name, j);
        assert(named_at(before, name, j));
    }
    assert forall|name: Seq<char>| expected.contains_key(name) implies #[trigger] balances(
        after,
    ).contains_key(name) && balances(after)[name] == expected[name] by {
        if name == before[i].name@ {
            assert(named_at(after, name, i));
            lemma_balance_at(after, i);
        } else {
            let j = choose|j: int| named_at(before, name, j);
            assert(named_at(after, name, j));
            lemma_balance_at(before, j);
            lemma_balance_at(after, j);
        }
    }
    assert(balances(after) =~= expected);
}

/// The accounts of a node: each name at most once, each with its balance.
/// The accounts are kept in the order of their creation and found by
/// scanning, so that nothing about the ledger is taken on trust.
pub struct Ledger {
    accounts: Vec<Account>,
}

impl Ledger {
    /// No name is held twice.
    pub closed spec fn wf(&self) -> bool {
        distinct_names(self.accounts@)
    }

    /// The ledger as a map from account name to balance. A name outside the
    /// map's domain has no account, which is not the same as holding zero.
    pub closed spec fn view(&self) -> Map<Seq<char>, u64> {
        balances(self.accounts@)
    }

    /// A ledger without accounts.
    pub fn new() -> (ledger: Self)
        ensures
            ledger.wf(),
            ledger@ == Map::<Seq<char>, u64>::empty(),
    {
        let ledger = Ledger { accounts: Vec::new() };
        assert(ledger@ =~= Map::<Seq<char>, u64>::empty());
        ledger
    }

    fn position(&self, name: &String) -> (found: Option<usize>)
        ensures
            match found {
                Some(i) => named_at(self.accounts@, name@, i as int),
                None => forall|i: int| !named_at(self.accounts@, name@, i),
            },
    {
        let mut i: usize = 0;
        while i < self.accounts.len()
            invariant
                i <= self.accounts.len(),
                forall|j: int| 0 <= j < i ==> !named_at(self.accounts@, name@, j),
            decreases self.accounts.len() - i,
        {
            if self.accounts[i].name == *name {
                return Some(i);
            }
            i += 1;
        }
        None
    }

    /// The balance held under `name`, or `None` where no such account exists.
    pub fn balance_of(&self, name: &String) -> (balance: Option<u64>)
        requires
            self.wf(),
        ensures
            balance == (if self@.contains_key(name@) {
                Some(self@[name@])
            } else {
                None
            }),
    {
        match self.position(name) {
            Some(i) => {
                proof {
                    lemma_balance_at(self.accounts@, i as int);
                }
                Some(self.accounts[i].balance)
            },
            None => {
                proof {
                    lemma_absent(self.accounts@, name@);
                }
                None
            },
        }
    }

    /// Opens an account under `name` with `initial_balance`, unless the name
    /// is taken: then nothing changes and the error carries the balance that
    /// the existing account holds.
    pub fn create_account(&mut self, name: String, initial_balance: u64) -> (created: Result<
        (),
        AlreadyExists,
    >)
        requires
            old(self).wf(),
        ensures
            final(self).wf(),
            match created {
                Ok(()) => !old(self)@.contains_key(name@) && final(self)@ == old(self)@.insert(
                    name@,
                    initial_balance,
                ),
                Err(taken) => old(self)@.contains_key(name@) && taken.balance == old(self)@[name@]
                    && final(self)@ == old(self)@,
            },
    {
        match self.position(&name) {
            Some(i) => {
                proof {
                    lemma_balance_at(self.accounts@, i as int);
                }
                Err(AlreadyExists { balance: self.accounts[i].balance })
            },
            None => {
                let account = Account { name, balance: initial_balance };
                proof {
                    lemma_absent(self.accounts@, name@);
                    lemma_pushed(self.accounts@, account);
                }
                self.accounts.push(account);
                Ok(())
            },
        }
    }

    /// Debits `amount` from `sender` and credits it to `receiver`, as one
    /// step. The caller has made the checks of `check_settlement`.
    pub(crate) fn apply_transfer(&mut self, sender: &String, receiver: &String, amount: u64)
        requires
            old(self).wf(),
            check_settlement(
                old(self)@,
                TransferSpec { sender: sender@, receiver: receiver@, amount },
            ) is Ok,
        ensures
            final(self).wf(),
            final(self)@ == settled(
                old(self)@,
                TransferSpec { sender: sender@, receiver: receiver@, amount },
            ),
    {
        proof {
            if forall|i: int| !named_at(self.accounts@, sender@, i) {
                lemma_absent(self.accounts@, sender@);
            }
            if forall|i: int| !named_at(self.accounts@, receiver@, i) {
                lemma_absent(self.accounts@, receiver@);
            }
        }
        let from = self.position(sender).unwrap();
        let to = self.position(receiver).unwrap();
        let ghost before = self.accounts@;
        proof {
            lemma_balance_at(before, from as int);
            lemma_balance_at(before, to as int);
        }
        self.accounts[from].balance = self.accounts[from].balance - amount;
        let ghost debited = self.accounts@;
        proof {
            lemma_rebalanced(before, debited, from as int);
            lemma_balance_at(debited, to as int);
        }
        self.accounts[to].balance = self.accounts[to].balance + amount;
        proof {
            lemma_rebalanced(debited, self.accounts@, to as int);
        }
    }
}

/// Whether `transfer` passes the three checks against `accounts` as they
/// stand: the same test at admission and at settlement.
pub fn can_transfer(accounts: &Ledger, transfer: &TransactionTransfer) -> (verdict: Result<
    (),
    TransferError,
>)
    requires
        accounts.wf(),
    ensures
        verdict == check_transfer(accounts@, transfer@),
{
    match accounts.balance_of(&transfer.sender) {
        None => Err(TransferError::UnknownSender),
        Some(funds) => {
            if accounts.balance_of(&transfer.receiver).is_none() {
                Err(TransferError::UnknownReceiver)
            } else if funds < transfer.balance {
                Err(TransferError::InsufficientFunds)
            } else {
                Ok(())
            }
        },
    }
}

/// Moves the amount of `t` from its sender to its receiver if `t` passes the
/// checks of `check_settlement`; otherwise says which check failed and leaves
/// every balance as it was.
pub fn transfer_between_accounts(accounts: &mut Ledger, t: &TransactionTransfer) -> (moved: Result<
    (),
    TransferError,
>)
    requires
        old(accounts).wf(),
    ensures
        final(accounts).wf(),
        moved == check_settlement(old(accounts)@, t@),
        final(accounts)@ == (if moved is Ok {
            settled(old(accounts)@, t@)
        } else {
            old(accounts)@
        }),
{
    match can_transfer(accounts, t) {
        Err(reason) => Err(reason),
        Ok(()) => {
            let credit = accounts.balance_of(&t.receiver).unwrap();
            if t.sender != t.receiver && credit > u64::MAX - t.balance {
                Err(TransferError::BalanceOverflow)
            } else {
                accounts.apply_transfer(&t.sender, &t.receiver, t.balance);
                Ok(())
            }
        },
    }
}

} // verus!
