//! The operations a node accepts, and the mathematical view of a transfer.

use vstd::prelude::*;

verus! {

/// What a transfer is, apart from how it is stored: who pays, who is paid,
/// and how much.
pub struct TransferSpec {
    pub sender: Seq<char>,
    pub receiver: Seq<char>,
    pub amount: u64,
}

/// A request to move `balance` units from `sender` to `receiver`.
#[derive(Debug, PartialEq, Eq)]
pub struct TransactionTransfer {
    /// Name of the sending account holder
    pub sender: String,
    /// Name of the receiving account holder
    pub receiver: String,
    /// Amount to move
    pub balance: u64,
}

impl View for TransactionTransfer {
    type V = TransferSpec;

    open spec fn view(&self) -> TransferSpec {
        TransferSpec { sender: self.sender@, receiver: self.receiver@, amount: self.balance }
    }
}

impl Clone for TransactionTransfer {
    fn clone(&self) -> (copy: Self)
        ensures
            copy == *self,
    {
        TransactionTransfer {
            sender: self.sender.clone(),
            receiver: self.receiver.clone(),
            balance: self.balance,
        }
    }
}

/// The views of a sequence of transfers, in the same order.
pub open spec fn transfers_view(transfers: Seq<TransactionTransfer>) -> Seq<TransferSpec> {
    transfers.map_values(|t: TransactionTransfer| t@)
}

/// One operation handed to the node.
#[derive(Debug, PartialEq, Eq)]
pub enum Transaction {
    CreateAccount {
        /// Name of the account holder
        name: String,
        /// Starting balance of the account
        balance: u64,
    },
    Transfer(TransactionTransfer),
    Balance {
        /// Name of the account holder
        name: String,
    },
}

impl Clone for Transaction {
    fn clone(&self) -> (copy: Self)
        ensures
            copy == *self,
    {
        match self {
            Transaction::CreateAccount { name, balance } => Transaction::CreateAccount {
                name: name.clone(),
                balance: *balance,
            },
            Transaction::Transfer(transfer) => Transaction::Transfer(transfer.clone()),
            Transaction::Balance { name } => Transaction::Balance { name: name.clone() },
        }
    }
}

} // verus!
