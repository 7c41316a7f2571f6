//! What the node is told from outside: the commands of its clients, and the
//! block time it is started with.

use vstd::prelude::*;
use vstd::string::StrSliceExecFns;
use crate::transaction::{Transaction, TransactionTransfer};

verus! {

/// A command as a client states it.
#[derive(Debug, PartialEq, Eq)]
pub enum Commands {
    /// Starts a node that makes a block every `block_time` seconds.
    StartNode {
        /// Seconds between each block
        block_time: String,
    },
    /// Creates a new account with an initial balance.
    CreateAccount {
        /// Name of the account holder
        name: String,
        /// Starting balance of the account
        balance: u64,
    },
    /// Asks for the balance of an account.
    Balance {
        /// Name of the account holder
        name: String,
    },
    /// Asks for a transfer to be settled in the next block.
    Transfer {
        /// Name of the sending account holder
        sender: String,
        /// Name of the receiving account holder
        receiver: String,
        /// Amount to move
        balance: u64,
    },
}

impl Commands {
    /// The operation that this command asks of a running node. A node is not
    /// started through another node: `StartNode` asks for nothing.
    pub open spec fn operation(self) -> Option<Transaction> {
        match self {
            Commands::StartNode { block_time } => None,
            Commands::CreateAccount { name, balance } => Some(
                Transaction::CreateAccount { name, balance },
            ),
            Commands::Balance { name } => Some(Transaction::Balance { name }),
            Commands::Transfer { sender, receiver, balance } => Some(
                Transaction::Transfer(TransactionTransfer { sender, receiver, balance }),
            ),
        }
    }

    /// Turns the command into the operation to hand to the node, or `None`
    /// for `StartNode`.
    pub fn into_transaction(self) -> (op: Option<Transaction>)
        ensures
            op == self.operation(),
    {
        match self {
            Commands::StartNode { block_time: _ } => None,
            Commands::CreateAccount { name, balance } => Some(
                Transaction::CreateAccount { name, balance },
            ),
            Commands::Balance { name } => Some(Transaction::Balance { name }),
            Commands::Transfer { sender, receiver, balance } => Some(
                Transaction::Transfer(TransactionTransfer { sender, receiver, balance }),
            ),
        }
    }
}

/// Why a node cannot start with the block time it was given.
#[derive(Debug, Clone, Copy, PartialEq, Eq, Structural)]
pub enum InvalidConfiguration {
    /// The text is not a number of seconds that fits in 64 bits.
    NotANumber,
    /// The block time is zero.
    NotPositive,
}

/// `c` is one of the ten decimal digits.
pub open spec fn is_digit(c: char) -> bool {
    '0' <= c <= '9'
}

/// Every character of `text` is a decimal digit.
pub open spec fn all_digits(text: Seq<char>) -> bool {
    forall|i: int| 0 <= i < text.len() ==> is_digit(#[trigger] text[i])
}

/// The number that a run of decimal digits writes.
pub open spec fn digits_value(digits: Seq<char>) -> nat
    decreases digits.len(),
{
    if digits.len() == 0 {
        0
    } else {
        digits_value(digits.drop_last()) * 10 + (digits.last() as nat - '0' as nat) as nat
    }
}

/// The digits of a number as it is written: the text itself, or what
/// follows a leading plus sign.
pub open spec fn digits_of(text: Seq<char>) -> Seq<char> {
    if text.len() > 0 && text[0] == '+' {
        text.skip(1)
    } else {
        text
    }
}

/// The block time that `text` states: a number of whole seconds, written
/// in decimal digits with at most a plus sign before them, that fits in 64
/// bits and is not zero.
pub open spec fn block_time_of(text: Seq<char>) -> Result<u64, InvalidConfiguration> {
    let digits = digits_of(text);
    if digits.len() == 0 || !all_digits(digits) || digits_value(digits) > u64::MAX {
        Err(InvalidConfiguration::NotANumber)
    } else if digits_value(digits) == 0 {
        Err(InvalidConfiguration::NotPositive)
    } else {
        Ok(digits_value(digits) as u64)
    }
}

proof fn lemma_digits_grow(digits: Seq<char>, k: int)
    requires
        0 <= k <= digits.len(),
    ensures
        digits_value(digits.take(k)) <= digits_value(digits),
    decreases digits.len() - k,
{
    if k == digits.len() {
        assert(digits.take(k) =~= digits);
    } else {
        lemma_digits_grow(digits, k + 1);
        assert(digits.take(k + 1).drop_last() =~= digits.take(k));
    }
}

fn digit_of(c: char) -> (d: Option<u64>)
    ensures
        match d {
            Some(d) => is_digit(c) && d == c as nat - '0' as nat,
            None => !is_digit(c),
        },
{
    if c >= '0' && c <= '9' {
        Some((c as u64) - ('0' as u64))
    } else {
        None
    }
}

/// Reads the block time that a node is started with.
pub fn parse_block_time(text: &str) -> (block_time: Result<u64, InvalidConfiguration>)
    ensures
        block_time == block_time_of(text@),
{
    let len = text.unicode_len();
    let start: usize = if len > 0 && text.get_char(0) == '+' {
        1
    } else {
        0
    };
    let ghost digits = digits_of(text@);
    if start == len {
        return Err(InvalidConfiguration::NotANumber);
    }
    let mut value: u64 = 0;
    let mut i: usize = start;
    assert(digits.take(0) =~= Seq::<char>::empty());
    while i < len
        invariant
            start <= i <= len,
            len == text@.len(),
            digits == digits_of(text@),
            digits.len() == len - start,
            forall|j: int| 0 <= j < digits.len() ==> digits[j] == text@[j + start],
            forall|j: int| 0 <= j < i - start ==> is_digit(#[trigger] digits[j]),
            value == digits_value(digits.take(i - start)),
        decreases len - i,
    {
        let ghost k = i - start;
        proof {
            assert(digits.take(k + 1).drop_last() =~= digits.take(k));
            assert(digits.take(k + 1).last() == digits[k]);
            lemma_digits_grow(digits, k + 1);
        }
        match digit_of(text.get_char(i)) {
            None => {
                assert(!is_digit(digits[k]));
                return Err(InvalidConfiguration::NotANumber);
            },
            Some(d) => {
                if value > (u64::MAX - d) / 10 {
                    return Err(InvalidConfiguration::NotANumber);
                }
                value = value * 10 + d;
            },
        }
        i += 1;
    }
    assert(digits.take(len - start) =~= digits);
    if value == 0 {
        Err(InvalidConfiguration::NotPositive)
    } else {
        Ok(value)
    }
}

} // verus!
