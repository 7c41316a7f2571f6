//! What the node answers to an operation.

use vstd::prelude::*;
use vstd::string::StringExecFns;
use crate::ledger::TransferError;
use crate::transaction::{TransactionTransfer, TransferSpec};

verus! {

/// A reply apart from how its names are stored.
pub enum ReplySpec {
    Created { name: Seq<char>, balance: u64 },
    AlreadyExists { name: Seq<char>, balance: u64 },
    Balance { name: Seq<char>, balance: u64 },
    NotFound { name: Seq<char> },
    Accepted { transfer: TransferSpec },
    Rejected { transfer: TransferSpec, reason: TransferError },
    Transferred { transfer: TransferSpec },
}

/// The outcome of one operation, as it is told to whoever asked for it.
#[derive(Debug, PartialEq, Eq)]
pub enum Reply {
    /// The account was opened with this balance.
    Created { name: String, balance: u64 },
    /// The name is taken; the existing account holds this balance.
    AlreadyExists { name: String, balance: u64 },
    /// The account holds this balance.
    Balance { name: String, balance: u64 },
    /// No account goes by this name.
    NotFound { name: String },
    /// The transfer waits for the next block; nothing has moved yet.
    Accepted { transfer: TransactionTransfer },
    /// The transfer was turned down for this reason; nothing will move.
    Rejected { transfer: TransactionTransfer, reason: TransferError },
    /// The transfer has moved its amount.
    Transferred { transfer: TransactionTransfer },
}

impl View for Reply {
    type V = ReplySpec;

    open spec fn view(&self) -> ReplySpec {
        match *self {
            Reply::Created { name, balance } => ReplySpec::Created { name: name@, balance },
            Reply::AlreadyExists { name, balance } => ReplySpec::AlreadyExists {
                name: name@,
                balance,
            },
            Reply::Balance { name, balance } => ReplySpec::Balance { name: name@, balance },
            Reply::NotFound { name } => ReplySpec::NotFound { name: name@ },
            Reply::Accepted { transfer } => ReplySpec::Accepted { transfer: transfer@ },
            Reply::Rejected { transfer, reason } => ReplySpec::Rejected {
                transfer: transfer@,
                reason,
            },
            Reply::Transferred { transfer } => ReplySpec::Transferred { transfer: transfer@ },
        }
    }
}

/// The views of a sequence of replies, in the same order.
pub open spec fn replies_view(replies: Seq<Reply>) -> Seq<ReplySpec> {
    replies.map_values(|r: Reply| r@)
}


/// The decimal digit `d` as text.
pub open spec fn digit(d: int) -> Seq<char> {
    if d == 0 {
        "0"@
    } else if d == 1 {
        "1"@
    } else if d == 2 {
        "2"@
    } else if d == 3 {
        "3"@
    } else if d == 4 {
        "4"@
    } else if d == 5 {
        "5"@
    } else if d == 6 {
        "6"@
    } else if d == 7 {
        "7"@
    } else if d == 8 {
        "8"@
    } else {
        "9"@
    }
}

/// `n` in decimal, without leading zeros.
pub open spec fn decimal(n: nat) -> Seq<char>
    decreases n,
{
    if n < 10 {
        digit(n as int)
    } else {
        decimal(n / 10) + digit((n % 10) as int)
    }
}

/// What is said of a transfer: how much, from whom, to whom.
pub open spec fn transfer_text(t: TransferSpec) -> Seq<char> {
    decimal(t.amount as nat) + " from "@ + t.sender + " to "@ + t.receiver
}

/// The sentence that tells a reply.
pub open spec fn message_of(reply: ReplySpec) -> Seq<char> {
    match reply {
        ReplySpec::Created { name, balance } => "Created account of "@ + name + " with balance "@
            + decimal(balance as nat),
        ReplySpec::AlreadyExists { name, balance } => "Already existing account of "@ + name
            + " with balance "@ + decimal(balance as nat),
        ReplySpec::Balance { name, balance } => "Account of "@ + name + " has a balance of "@
            + decimal(balance as nat),
        ReplySpec::NotFound { name } => "No account found for "@ + name,
        ReplySpec::Accepted { transfer } => "Will add this transaction in the next block: "@
            + transfer_text(transfer),
        ReplySpec::Rejected { transfer, reason } => reason_text(
            reason,
            transfer.sender,
            transfer.receiver,
        ) + ": cannot send "@ + transfer_text(transfer),
        ReplySpec::Transferred { transfer } => "Successfully transferred "@ + transfer_text(
            transfer,
        ),
    }
}

/// The words for a reason, with the account that it is about.
pub open spec fn reason_text(reason: TransferError, sender: Seq<char>, receiver: Seq<char>) -> Seq<
    char,
> {
    match reason {
        TransferError::UnknownSender => "Missing sender's account: "@ + sender,
        TransferError::UnknownReceiver => "Missing receiver's account: "@ + receiver,
        TransferError::InsufficientFunds => "Insufficient funds in the account of "@ + sender,
        TransferError::BalanceOverflow => "No room left in the account of "@ + receiver,
    }
}

fn digit_str(d: u64) -> (text: &'static str)
    requires
        d < 10,
    ensures
        text@ == digit(d as int),
{
    if d == 0 {
        "0"
    } else if d == 1 {
        "1"
    } else if d == 2 {
        "2"
    } else if d == 3 {
        "3"
    } else if d == 4 {
        "4"
    } else if d == 5 {
        "5"
    } else if d == 6 {
        "6"
    } else if d == 7 {
        "7"
    } else if d == 8 {
        "8"
    } else {
        "9"
    }
}

/// Writes `n` in decimal at the end of `text`.
pub fn push_decimal(text: &mut String, n: u64)
    ensures
        final(text)@ == old(text)@ + decimal(n as nat),
    decreases n,
{
    if n >= 10 {
        push_decimal(text, n / 10);
    }
    text.append(digit_str(n % 10));
    assert(text@ =~= old(text)@ + decimal(n as nat));
}

fn push_transfer(text: &mut String, t: &TransactionTransfer)
    ensures
        final(text)@ == old(text)@ + transfer_text(t@),
{
    push_decimal(text, t.balance);
    text.append(" from ");
    text.append(t.sender.as_str());
    text.append(" to ");
    text.append(t.receiver.as_str());
    assert(text@ =~= old(text)@ + transfer_text(t@));
}

fn named(opening: &str, name: &String, middle: &str, balance: u64) -> (text: String)
    ensures
        text@ == opening@ + name@ + middle@ + decimal(balance as nat),
{
    let mut text = String::from_str(opening);
    text.append(name.as_str());
    text.append(middle);
    push_decimal(&mut text, balance);
    text
}

fn about(opening: &str, t: &TransactionTransfer) -> (text: String)
    ensures
        text@ == opening@ + transfer_text(t@),
{
    let mut text = String::from_str(opening);
    push_transfer(&mut text, t);
    text
}

impl TransferError {
    /// The words for this reason, with the account that it is about.
    pub fn describe(&self, t: &TransactionTransfer) -> (text: String)
        ensures
            text@ == reason_text(*self, t@.sender, t@.receiver),
    {
        match self {
            TransferError::UnknownSender => String::from_str("Missing sender's account: ").concat(
                t.sender.as_str(),
            ),
            TransferError::UnknownReceiver => String::from_str(
                "Missing receiver's account: ",
            ).concat(t.receiver.as_str()),
            TransferError::InsufficientFunds => String::from_str(
                "Insufficient funds in the account of ",
            ).concat(t.sender.as_str()),
            TransferError::BalanceOverflow => String::from_str(
                "No room left in the account of ",
            ).concat(t.receiver.as_str()),
        }
    }
}

impl Reply {
    /// The sentence that tells this reply to whoever asked.
    pub fn message(&self) -> (text: String)
        ensures
            text@ == message_of(self@),
    {
        match self {
            Reply::Created { name, balance } => named(
                "Created account of ",
                name,
                " with balance ",
                *balance,
            ),
            Reply::AlreadyExists { name, balance } => named(
                "Already existing account of ",
                name,
                " with balance ",
                *balance,
            ),
            Reply::Balance { name, balance } => named(
                "Account of ",
                name,
                " has a balance of ",
                *balance,
            ),
            Reply::NotFound { name } => String::from_str("No account found for ").concat(
                name.as_str(),
            ),
            Reply::Accepted { transfer } => about(
                "Will add this transaction in the next block: ",
                transfer,
            ),
            Reply::Rejected { transfer, reason } => {
                let mut text = reason.describe(transfer);
                text.append(": cannot send ");
                push_transfer(&mut text, transfer);
                text
            },
            Reply::Transferred { transfer } => about("Successfully transferred ", transfer),
        }
    }
}

} // verus!
