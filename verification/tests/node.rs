use tiny_chain::{
    BlockChain, Block, Reply, Transaction, TransactionTransfer, TransferError, NANOS_PER_SECOND,
};

const SECOND: u128 = 1_000_000_000;

fn name(text: &str) -> String {
    text.to_string()
}

fn transfer(sender: &str, receiver: &str, balance: u64) -> TransactionTransfer {
    TransactionTransfer { sender: name(sender), receiver: name(receiver), balance }
}

fn create(holder: &str, balance: u64) -> Transaction {
    Transaction::CreateAccount { name: name(holder), balance }
}

fn query(holder: &str) -> Transaction {
    Transaction::Balance { name: name(holder) }
}

fn send(sender: &str, receiver: &str, balance: u64) -> Transaction {
    Transaction::Transfer(transfer(sender, receiver, balance))
}

fn numbers(chain: &BlockChain) -> Vec<usize> {
    chain.blocks().iter().map(|block| block.current_block_num).collect()
}

#[test]
fn one_second_is_a_billion_nanoseconds() {
    assert_eq!(NANOS_PER_SECOND, SECOND);
}

#[test]
fn new_node_is_empty() {
    let chain = BlockChain::new(3);
    assert_eq!(chain.block_time(), 3);
    assert_eq!(chain.last_mining_time(), 0);
    assert_eq!(chain.blocks().len(), 0);
    assert_eq!(chain.balance_of(&name("alice")), None);
}

#[test]
fn default_node_mines_every_ten_seconds() {
    let mut chain = BlockChain::default();
    let mut transfers = Vec::new();
    assert_eq!(chain.block_time(), 10);
    assert!(!chain.mine(10 * SECOND - 1, &mut transfers));
    assert!(chain.mine(10 * SECOND, &mut transfers));
}

#[test]
fn every_n_seconds_start_node_should_create_a_block() {
    let block_time_diff = 2;
    let mut chain = BlockChain::new(block_time_diff);
    let mut transfers = Vec::new();
    let mut created_at = Vec::new();
    let mut now: u128 = 0;
    while now <= 7 * SECOND {
        let before = chain.blocks().len();
        chain.try_mining(now, &Vec::new(), &mut transfers);
        if chain.blocks().len() > before {
            created_at.push(now);
        }
        now += SECOND / 4;
    }
    assert_eq!(numbers(&chain), vec![0, 1, 2]);
    assert_eq!(created_at, vec![2 * SECOND, 4 * SECOND, 6 * SECOND]);
    for pair in created_at.windows(2) {
        assert_eq!(pair[0] + (block_time_diff as u128) * SECOND, pair[1]);
    }
    for block in chain.blocks() {
        assert!(block.transactions.is_empty());
    }
}

#[test]
fn account_creation_and_balance() {
    let balance: u64 = 1000;
    let mut chain = BlockChain::new(1);
    let mut transfers = Vec::new();
    chain.try_mining(2 * SECOND, &Vec::new(), &mut transfers);

    let replies = chain.try_mining(2 * SECOND + 1, &vec![create("bob", balance)], &mut transfers);
    assert_eq!(replies, vec![Reply::Created { name: name("bob"), balance }]);
    assert!(replies[0].message().contains("Created account"));

    let replies = chain.try_mining(3 * SECOND, &vec![create("bob", balance)], &mut transfers);
    assert_eq!(replies, vec![Reply::AlreadyExists { name: name("bob"), balance }]);
    assert!(replies[0].message().contains("Already existing account"));
}

#[test]
fn transactions() {
    let block_time = 2;
    let mut chain = BlockChain::new(block_time);
    let mut transfers = Vec::new();
    let initial_accounts = [("alice", 1000u64), ("bob", 9000u64)];
    let transfer_amount = 1000;

    assert!(chain.try_mining(4 * SECOND, &Vec::new(), &mut transfers).is_empty());
    let account_creation_outputs = chain.try_mining(
        4 * SECOND + 1,
        &vec![create("alice", 1000), create("bob", 9000)],
        &mut transfers,
    );
    assert!(chain.try_mining(6 * SECOND, &Vec::new(), &mut transfers).is_empty());

    let before_block = chain.try_mining(
        6 * SECOND + 1,
        &vec![send("alice", "bob", transfer_amount), query("alice"), query("bob")],
        &mut transfers,
    );
    assert_eq!(transfers, vec![transfer("alice", "bob", transfer_amount)]);
    let after_block = chain.try_mining(9 * SECOND, &vec![], &mut transfers);
    assert!(after_block.is_empty());
    let after_block = chain.try_mining(9 * SECOND + 1, &vec![query("alice"), query("bob")], &mut transfers);

    for output in &account_creation_outputs {
        assert!(output.message().contains("Created account"));
    }
    assert!(before_block[0].message().contains("Will add this transaction in the next block"));
    assert!(before_block[1].message().contains(&format!(" {}", initial_accounts[0].1)));
    assert!(before_block[2].message().contains(&format!(" {}", initial_accounts[1].1)));
    assert!(after_block[1].message().contains(&format!(" {}", initial_accounts[1].1 + transfer_amount)));
    assert!(after_block[0].message().contains(&format!(" {}", initial_accounts[0].1 - transfer_amount)));
    assert_eq!(before_block[1], Reply::Balance { name: name("alice"), balance: 1000 });
    assert_eq!(before_block[2], Reply::Balance { name: name("bob"), balance: 9000 });
    assert_eq!(after_block[0], Reply::Balance { name: name("alice"), balance: 0 });
    assert_eq!(after_block[1], Reply::Balance { name: name("bob"), balance: 10000 });
    assert!(transfers.is_empty());
}

#[test]
fn account_creation_and_already_being_created() {
    let balance: u64 = 1000;
    let mut chain = BlockChain::new(1);
    let mut transfers = Vec::new();

    let balance_output = chain.try_mining(SECOND, &vec![query("bob")], &mut transfers);
    let creation = chain.try_mining(SECOND + 1, &vec![create("bob", balance)], &mut transfers);
    let balance_output2 = chain.try_mining(2 * SECOND, &vec![query("bob")], &mut transfers);

    assert!(balance_output[0].message().contains("No account found"));
    assert_eq!(creation, vec![Reply::Created { name: name("bob"), balance }]);
    assert!(balance_output2[0].message().contains(&balance.to_string()));
    assert!(!balance_output2[0].message().contains("created"));
    assert!(!balance_output2[0].message().contains("Already existing account"));
}

#[test]
fn transfer_waits_for_the_block_and_then_moves() {
    let mut chain = BlockChain::new(1);
    let mut transfers = Vec::new();
    let replies = chain.try_mining(
        SECOND / 2,
        &vec![create("alice", 1000), create("bob", 9000), send("alice", "bob", 1000), query("alice"), query("bob")],
        &mut transfers,
    );
    assert_eq!(
        replies,
        vec![
            Reply::Created { name: name("alice"), balance: 1000 },
            Reply::Created { name: name("bob"), balance: 9000 },
            Reply::Accepted { transfer: transfer("alice", "bob", 1000) },
            Reply::Balance { name: name("alice"), balance: 1000 },
            Reply::Balance { name: name("bob"), balance: 9000 },
        ]
    );
    assert_eq!(chain.blocks().len(), 0);
    assert_eq!(transfers, vec![transfer("alice", "bob", 1000)]);

    let replies = chain.try_mining(SECOND, &vec![], &mut transfers);
    assert!(replies.is_empty());
    assert_eq!(chain.blocks().len(), 1);
    assert_eq!(chain.blocks()[0].current_block_num, 0);
    assert_eq!(chain.blocks()[0].transactions, vec![transfer("alice", "bob", 1000)]);
    assert_eq!(chain.balance_of(&name("alice")), Some(0));
    assert_eq!(chain.balance_of(&name("bob")), Some(10000));
    assert!(transfers.is_empty());

    chain.try_mining(2 * SECOND, &vec![], &mut transfers);
    assert_eq!(chain.blocks().len(), 2);
    assert!(chain.blocks()[1].transactions.is_empty());
    assert_eq!(chain.balance_of(&name("alice")), Some(0));
    assert_eq!(chain.balance_of(&name("bob")), Some(10000));
}

#[test]
fn unknown_account_is_found_once_created() {
    let mut chain = BlockChain::new(1);
    let mut transfers = Vec::new();
    let first = chain.process(&query("ghost"), &mut transfers);
    assert_eq!(first, Reply::NotFound { name: name("ghost") });
    assert_eq!(
        chain.process(&create("ghost", 1000), &mut transfers),
        Reply::Created { name: name("ghost"), balance: 1000 }
    );
    assert_eq!(
        chain.process(&query("ghost"), &mut transfers),
        Reply::Balance { name: name("ghost"), balance: 1000 }
    );
    assert_eq!(first, Reply::NotFound { name: name("ghost") });
    assert!(transfers.is_empty());
}

#[test]
fn second_of_two_admitted_transfers_is_dropped_when_the_first_drains_the_sender() {
    let mut chain = BlockChain::new(1);
    let mut transfers = Vec::new();
    let replies = chain.try_mining(
        1,
        &vec![
            create("alice", 1000),
            create("bob", 0),
            create("carol", 0),
            send("alice", "bob", 600),
            send("alice", "carol", 600),
        ],
        &mut transfers,
    );
    assert_eq!(replies[3], Reply::Accepted { transfer: transfer("alice", "bob", 600) });
    assert_eq!(replies[4], Reply::Accepted { transfer: transfer("alice", "carol", 600) });
    assert_eq!(transfers.len(), 2);

    chain.try_mining(SECOND, &vec![], &mut transfers);
    assert_eq!(chain.blocks().len(), 1);
    assert_eq!(chain.blocks()[0].transactions, vec![transfer("alice", "bob", 600)]);
    assert_eq!(chain.balance_of(&name("alice")), Some(400));
    assert_eq!(chain.balance_of(&name("bob")), Some(600));
    assert_eq!(chain.balance_of(&name("carol")), Some(0));
    assert!(transfers.is_empty());

    chain.try_mining(2 * SECOND, &vec![], &mut transfers);
    assert!(chain.blocks()[1].transactions.is_empty());
    assert_eq!(chain.balance_of(&name("alice")), Some(400));
    assert_eq!(chain.balance_of(&name("carol")), Some(0));
}

#[test]
fn unfunded_transfer_is_rejected_and_never_mined() {
    let mut chain = BlockChain::new(1);
    let mut transfers = Vec::new();
    chain.process(&create("alice", 10), &mut transfers);
    chain.process(&create("bob", 0), &mut transfers);
    assert_eq!(
        chain.process(&send("alice", "bob", 11), &mut transfers),
        Reply::Rejected {
            transfer: transfer("alice", "bob", 11),
            reason: TransferError::InsufficientFunds
        }
    );
    assert!(transfers.is_empty());
    assert!(chain.mine(SECOND, &mut transfers));
    assert!(chain.mine(2 * SECOND, &mut transfers));
    for block in chain.blocks() {
        assert!(block.transactions.is_empty());
    }
    assert_eq!(chain.balance_of(&name("alice")), Some(10));
    assert_eq!(chain.balance_of(&name("bob")), Some(0));
}

#[test]
fn transfers_between_strangers_are_rejected() {
    let mut chain = BlockChain::new(1);
    let mut transfers = Vec::new();
    chain.process(&create("alice", 10), &mut transfers);
    assert_eq!(
        chain.process(&send("ghost", "alice", 1), &mut transfers),
        Reply::Rejected {
            transfer: transfer("ghost", "alice", 1),
            reason: TransferError::UnknownSender
        }
    );
    assert_eq!(
        chain.process(&send("alice", "ghost", 1), &mut transfers),
        Reply::Rejected {
            transfer: transfer("alice", "ghost", 1),
            reason: TransferError::UnknownReceiver
        }
    );
    assert!(transfers.is_empty());
}

#[test]
fn admitted_transfer_is_mined_once() {
    let mut chain = BlockChain::new(1);
    let mut transfers = Vec::new();
    chain.process(&create("alice", 5000), &mut transfers);
    chain.process(&create("bob", 0), &mut transfers);
    chain.process(&send("alice", "bob", 1000), &mut transfers);
    let mut now = 0;
    for _ in 0..5 {
        now += SECOND;
        assert!(chain.mine(now, &mut transfers));
    }
    let holding: Vec<usize> = chain.blocks().iter().map(|block| block.transactions.len()).collect();
    assert_eq!(holding, vec![1, 0, 0, 0, 0]);
    assert_eq!(chain.balance_of(&name("alice")), Some(4000));
    assert_eq!(chain.balance_of(&name("bob")), Some(1000));
}

#[test]
fn balances_are_opening_plus_incoming_minus_outgoing() {
    let mut chain = BlockChain::new(1);
    let mut transfers = Vec::new();
    let opening = [("alice", 1000u64), ("bob", 500u64), ("carol", 0u64)];
    for (holder, balance) in opening {
        chain.process(&create(holder, balance), &mut transfers);
    }
    let rounds = [
        vec![send("alice", "bob", 300), send("bob", "carol", 500), send("carol", "alice", 50)],
        vec![send("carol", "carol", 10), send("bob", "alice", 100), send("alice", "carol", 2000)],
        vec![send("alice", "bob", 800), send("alice", "bob", 1)],
    ];
    let mut now = 0;
    for round in rounds {
        now += SECOND;
        chain.try_mining(now, &round, &mut transfers);
    }
    for (holder, balance) in opening {
        let mut expected = balance as i128;
        for block in chain.blocks() {
            for t in &block.transactions {
                if t.receiver == holder {
                    expected += t.balance as i128;
                }
                if t.sender == holder {
                    expected -= t.balance as i128;
                }
            }
        }
        assert_eq!(chain.balance_of(&name(holder)).map(|b| b as i128), Some(expected));
    }
    assert_eq!(chain.balance_of(&name("alice")), Some(0));
    assert_eq!(chain.balance_of(&name("bob")), Some(1000));
    assert_eq!(chain.balance_of(&name("carol")), Some(500));
    let committed: Vec<usize> =
        chain.blocks().iter().map(|block| block.transactions.len()).collect();
    assert_eq!(committed, vec![2, 2, 1]);
}

#[test]
fn block_is_due_when_the_interval_has_passed() {
    let mut chain = BlockChain::new(2);
    let mut transfers = Vec::new();
    assert!(!chain.mine(0, &mut transfers));
    assert!(!chain.mine(2 * SECOND - 1, &mut transfers));
    assert!(chain.mine(2 * SECOND, &mut transfers));
    assert_eq!(chain.last_mining_time(), 2 * SECOND);
    assert!(!chain.mine(4 * SECOND - 1, &mut transfers));
    assert_eq!(chain.last_mining_time(), 2 * SECOND);
    assert!(chain.mine(4 * SECOND + 7, &mut transfers));
    assert_eq!(chain.last_mining_time(), 4 * SECOND + 7);
    assert!(!chain.mine(6 * SECOND + 6, &mut transfers));
    assert!(chain.mine(6 * SECOND + 7, &mut transfers));
    assert_eq!(numbers(&chain), vec![0, 1, 2]);
}

#[test]
fn clock_that_went_backwards_mines_nothing() {
    let mut chain = BlockChain::new(1);
    let mut transfers = Vec::new();
    assert!(chain.mine(10 * SECOND, &mut transfers));
    assert!(!chain.mine(3 * SECOND, &mut transfers));
    assert!(!chain.mine(0, &mut transfers));
    assert_eq!(chain.last_mining_time(), 10 * SECOND);
    assert_eq!(chain.blocks().len(), 1);
}

#[test]
fn longest_block_time_does_not_overflow() {
    let mut chain = BlockChain::new(u64::MAX);
    let mut transfers = Vec::new();
    let interval = (u64::MAX as u128) * SECOND;
    assert!(!chain.mine(interval - 1, &mut transfers));
    assert!(chain.mine(interval, &mut transfers));
    assert!(chain.mine(u128::MAX, &mut transfers));
    assert_eq!(chain.last_mining_time(), u128::MAX);
}

#[test]
fn pending_transfers_stay_when_no_block_is_due() {
    let mut chain = BlockChain::new(5);
    let mut transfers = Vec::new();
    chain.process(&create("alice", 100), &mut transfers);
    chain.process(&create("bob", 100), &mut transfers);
    chain.process(&send("alice", "bob", 30), &mut transfers);
    assert!(!chain.mine(SECOND, &mut transfers));
    assert_eq!(transfers, vec![transfer("alice", "bob", 30)]);
    assert_eq!(chain.balance_of(&name("alice")), Some(100));
    chain.process(&send("bob", "alice", 100), &mut transfers);
    assert_eq!(transfers, vec![transfer("alice", "bob", 30), transfer("bob", "alice", 100)]);
    assert!(chain.mine(5 * SECOND, &mut transfers));
    assert_eq!(
        chain.blocks()[0].transactions,
        vec![transfer("alice", "bob", 30), transfer("bob", "alice", 100)]
    );
    assert_eq!(chain.balance_of(&name("alice")), Some(170));
    assert_eq!(chain.balance_of(&name("bob")), Some(30));
}

#[test]
fn transfer_settles_into_the_given_block() {
    let mut chain = BlockChain::new(1);
    let mut transfers = Vec::new();
    chain.process(&create("alice", 100), &mut transfers);
    chain.process(&create("bob", 1), &mut transfers);
    let mut block = Block { current_block_num: 0, transactions: Vec::new() };

    let done = chain.transfer(&mut block, &transfer("alice", "bob", 60));
    assert_eq!(done, Reply::Transferred { transfer: transfer("alice", "bob", 60) });
    assert_eq!(block.transactions, vec![transfer("alice", "bob", 60)]);
    assert_eq!(chain.balance_of(&name("alice")), Some(40));
    assert_eq!(chain.balance_of(&name("bob")), Some(61));

    let failed = chain.transfer(&mut block, &transfer("alice", "bob", 60));
    assert_eq!(
        failed,
        Reply::Rejected {
            transfer: transfer("alice", "bob", 60),
            reason: TransferError::InsufficientFunds
        }
    );
    assert_eq!(block.transactions, vec![transfer("alice", "bob", 60)]);
    assert_eq!(block.current_block_num, 0);
    assert_eq!(chain.balance_of(&name("alice")), Some(40));
    assert_eq!(chain.balance_of(&name("bob")), Some(61));
    assert_eq!(chain.blocks().len(), 0);
}

#[test]
fn transfer_that_would_overflow_is_dropped_from_the_block() {
    let mut chain = BlockChain::new(1);
    let mut transfers = Vec::new();
    chain.process(&create("alice", 100), &mut transfers);
    chain.process(&create("rich", u64::MAX - 10), &mut transfers);
    assert_eq!(
        chain.process(&send("alice", "rich", 11), &mut transfers),
        Reply::Accepted { transfer: transfer("alice", "rich", 11) }
    );
    chain.process(&send("alice", "rich", 10), &mut transfers);
    assert!(chain.mine(SECOND, &mut transfers));
    assert_eq!(chain.blocks()[0].transactions, vec![transfer("alice", "rich", 10)]);
    assert_eq!(chain.balance_of(&name("alice")), Some(90));
    assert_eq!(chain.balance_of(&name("rich")), Some(u64::MAX));

    let mut block = Block { current_block_num: 1, transactions: Vec::new() };
    assert_eq!(
        chain.transfer(&mut block, &transfer("alice", "rich", 1)),
        Reply::Rejected {
            transfer: transfer("alice", "rich", 1),
            reason: TransferError::BalanceOverflow
        }
    );
    assert!(block.transactions.is_empty());
}

#[test]
fn cloned_operation_equals_its_source() {
    for op in [create("alice", 3), query("bob"), send("alice", "bob", 9)] {
        assert_eq!(op.clone(), op);
    }
}
