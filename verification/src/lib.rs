//! A single-node ledger that answers reads at once and settles transfers in
//! blocks produced on a fixed cadence.

pub mod block_chain;
pub mod command;
pub mod laws;
pub mod ledger;
pub mod model;
pub mod reply;
pub mod settlement;
pub mod transaction;

pub use block_chain::{Block, BlockChain, NANOS_PER_SECOND};
pub use command::{parse_block_time, Commands, InvalidConfiguration};
pub use ledger::{can_transfer, transfer_between_accounts, AlreadyExists, Ledger, TransferError};
pub use reply::Reply;
pub use transaction::{Transaction, TransactionTransfer};
