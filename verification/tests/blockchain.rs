use blockchainlib::blockchain::BlockValidationErr;
use blockchainlib::transaction::Output;
use blockchainlib::{Block, Blockchain, Transaction};

const DIFFICULTY: u128 = 0x000fffffffffffffffffffffffffffff;

fn out(receiver: &str, value: u64) -> Output {
    Output {
        receiver: receiver.to_owned(),
        value,
    }
}

fn coinbase(outputs: Vec<Output>) -> Transaction {
    Transaction {
        inputs: vec![],
        outputs,
    }
}

/// A mined genesis block crediting Alice 50, and the chain holding it.
fn chain_with_genesis() -> Blockchain {
    let mut genesis = Block::new(0, 1, vec![0; 32], vec![coinbase(vec![out("Alice", 50)])], DIFFICULTY);
    genesis.mine().unwrap();
    let mut chain = Blockchain::new();
    chain.update_with_block(genesis).unwrap();
    chain
}

fn mined(
    index: u32,
    timestamp: u128,
    prev: Vec<u8>,
    transactions: Vec<Transaction>,
) -> Block {
    let mut b = Block::new(index, timestamp, prev, transactions, DIFFICULTY);
    b.mine().unwrap();
    b
}

#[test]
fn test_genesis_acceptance() {
    // a freshly mined genesis block is accepted on an empty ledger
    let mut genesis = Block::new(0, 1, vec![0; 32], vec![coinbase(vec![out("Alice", 50)])], DIFFICULTY);
    genesis.mine().unwrap();
    let mut chain = Blockchain::new();
    assert_eq!(chain.update_with_block(genesis), Ok(()));
    assert_eq!(chain.blocks.len(), 1);
    assert_eq!(chain.unspent_output_count(), 1);
}

#[test]
fn test_invalid_hash() {
    // an unmined candidate whose recomputed digest misses the threshold:
    // threshold 0 is unsatisfiable
    let genesis = Block::new(0, 1, vec![0; 32], vec![], 0);
    let mut chain = Blockchain::new();
    assert_eq!(
        chain.update_with_block(genesis),
        Err(BlockValidationErr::InvalidHash)
    );
}

#[test]
fn test_no_mutation_on_rejection() {
    let mut chain = chain_with_genesis();
    let blocks_before = chain.blocks.len();
    let unspent_before = chain.unspent_output_count();

    // wrong index
    let bad = mined(7, 2, chain.blocks[0].hash.clone(), vec![]);
    assert_eq!(
        chain.update_with_block(bad),
        Err(BlockValidationErr::MismatchedIndex)
    );
    assert_eq!(chain.blocks.len(), blocks_before);
    assert_eq!(chain.unspent_output_count(), unspent_before);

    // double spend inside one block
    let spend_twice = Transaction {
        inputs: vec![out("Alice", 50), out("Alice", 50)],
        outputs: vec![out("Bob", 1)],
    };
    let bad = mined(
        1,
        2,
        chain.blocks[0].hash.clone(),
        vec![coinbase(vec![out("Miner", 1)]), spend_twice],
    );
    assert!(chain.update_with_block(bad).is_err());
    assert_eq!(chain.blocks.len(), blocks_before);
    assert_eq!(chain.unspent_output_count(), unspent_before);
}

#[test]
fn test_double_spend_rejection() {
    // a ledger holding exactly one unspent output
    let mut chain = chain_with_genesis();
    assert_eq!(chain.unspent_output_count(), 1);

    // a block spending it is accepted
    let spend = Transaction {
        inputs: vec![out("Alice", 50)],
        outputs: vec![out("Bob", 50)],
    };
    let b1 = mined(
        1,
        2,
        chain.blocks[0].hash.clone(),
        vec![coinbase(vec![]), spend],
    );
    assert_eq!(chain.update_with_block(b1), Ok(()));

    // a later block spending it again must fail with InvalidInput
    let spend_again = Transaction {
        inputs: vec![out("Alice", 50)],
        outputs: vec![out("Carol", 50)],
    };
    let b2 = mined(
        2,
        3,
        chain.blocks[1].hash.clone(),
        vec![coinbase(vec![]), spend_again],
    );
    assert_eq!(
        chain.update_with_block(b2),
        Err(BlockValidationErr::InvalidInput)
    );
}

#[test]
fn test_fee_boundary_accept() {
    // fee sum F = 50 - 43 = 7; coinbase value C = 7: accepted
    let mut chain = chain_with_genesis();
    let spend = Transaction {
        inputs: vec![out("Alice", 50)],
        outputs: vec![out("Bob", 43)],
    };
    let b = mined(
        1,
        2,
        chain.blocks[0].hash.clone(),
        vec![coinbase(vec![out("Miner", 7)]), spend],
    );
    assert_eq!(chain.update_with_block(b), Ok(()));
}

#[test]
fn test_fee_boundary_reject() {
    // fee sum F = 7; coinbase value C = F - 1 = 6: rejected
    let mut chain = chain_with_genesis();
    let spend = Transaction {
        inputs: vec![out("Alice", 50)],
        outputs: vec![out("Bob", 43)],
    };
    let b = mined(
        1,
        2,
        chain.blocks[0].hash.clone(),
        vec![coinbase(vec![out("Miner", 6)]), spend],
    );
    assert_eq!(
        chain.update_with_block(b),
        Err(BlockValidationErr::InvalidCoinbaseTransaction)
    );
}

#[test]
fn test_chronology() {
    // equal timestamp: rejected even though index, hash and linkage are right
    let mut chain = chain_with_genesis();
    let b = mined(1, 1, chain.blocks[0].hash.clone(), vec![]);
    assert_eq!(
        chain.update_with_block(b),
        Err(BlockValidationErr::AchronologicalTimestamp)
    );
}

#[test]
fn test_linkage_mismatch() {
    // correctly mined but pointing at the wrong previous hash
    let mut chain = chain_with_genesis();
    let mut wrong_prev = chain.blocks[0].hash.clone();
    wrong_prev[0] = wrong_prev[0].wrapping_add(1);
    let b = mined(1, 2, wrong_prev, vec![]);
    assert_eq!(
        chain.update_with_block(b),
        Err(BlockValidationErr::MismatchedPreviousHash)
    );
}

#[test]
fn test_mismatched_index() {
    let mut chain = Blockchain::new();
    let b = mined(1, 1, vec![0; 32], vec![]);
    assert_eq!(
        chain.update_with_block(b),
        Err(BlockValidationErr::MismatchedIndex)
    );
}

#[test]
fn test_invalid_genesis_format() {
    // a mined first block whose previous hash is not all zero
    let mut chain = Blockchain::new();
    let b = mined(0, 1, vec![1; 32], vec![]);
    assert_eq!(
        chain.update_with_block(b),
        Err(BlockValidationErr::InvalidGenesisBlockFormat)
    );
}

#[test]
fn test_invalid_coinbase_with_inputs() {
    // the first transaction of a block must have no inputs
    let mut chain = chain_with_genesis();
    let not_coinbase = Transaction {
        inputs: vec![out("Alice", 50)],
        outputs: vec![out("Bob", 50)],
    };
    let b = mined(1, 2, chain.blocks[0].hash.clone(), vec![not_coinbase]);
    assert_eq!(
        chain.update_with_block(b),
        Err(BlockValidationErr::InvalidCoinbaseTransaction)
    );
}

#[test]
fn test_insufficient_input_value() {
    // a transaction creating more value than it consumes
    let mut chain = chain_with_genesis();
    let bad = Transaction {
        inputs: vec![out("Alice", 50)],
        outputs: vec![out("Bob", 51)],
    };
    let b = mined(
        1,
        2,
        chain.blocks[0].hash.clone(),
        vec![coinbase(vec![]), bad],
    );
    assert_eq!(
        chain.update_with_block(b),
        Err(BlockValidationErr::InsufficientInputValue)
    );
}

#[test]
fn test_invalid_input_unknown() {
    // spending an output the ledger never saw
    let mut chain = chain_with_genesis();
    let bad = Transaction {
        inputs: vec![out("Nobody", 9)],
        outputs: vec![out("Bob", 9)],
    };
    let b = mined(
        1,
        2,
        chain.blocks[0].hash.clone(),
        vec![coinbase(vec![]), bad],
    );
    assert_eq!(
        chain.update_with_block(b),
        Err(BlockValidationErr::InvalidInput)
    );
}

#[test]
fn test_empty_transactions_block_accepted() {
    // a block with no transactions skips straight to commit, no UTXO effect
    let mut chain = chain_with_genesis();
    let unspent_before = chain.unspent_output_count();
    let b = mined(1, 2, chain.blocks[0].hash.clone(), vec![]);
    assert_eq!(chain.update_with_block(b), Ok(()));
    assert_eq!(chain.blocks.len(), 2);
    assert_eq!(chain.unspent_output_count(), unspent_before);
}

#[test]
fn test_three_block_chain() {
    let mut chain = Blockchain::new();

    let g = mined(
        0,
        1,
        vec![0; 32],
        vec![coinbase(vec![out("Alice", 50), out("Bob", 7)])],
    );
    let g_hash = g.hash.clone();
    assert_eq!(chain.update_with_block(g), Ok(()));
    assert_eq!(chain.unspent_output_count(), 2);

    // spends Alice's 50 into 37 + 12, fee 1, covered by the coinbase
    let b1 = mined(
        1,
        2,
        g_hash,
        vec![
            coinbase(vec![out("Chris", 536)]),
            Transaction {
                inputs: vec![out("Alice", 50)],
                outputs: vec![out("Alice", 37), out("Bob", 12)],
            },
        ],
    );
    let b1_hash = b1.hash.clone();
    assert_eq!(chain.update_with_block(b1), Ok(()));
    // {Bob 7, Chris 536, Alice 37, Bob 12}
    assert_eq!(chain.unspent_output_count(), 4);

    // creates Alice 3 and Bob 12; Bob 12 already exists and collapses
    let b2 = mined(2, 3, b1_hash, vec![coinbase(vec![out("Alice", 3), out("Bob", 12)])]);
    assert_eq!(chain.update_with_block(b2), Ok(()));
    assert_eq!(chain.blocks.len(), 3);
    assert_eq!(chain.unspent_output_count(), 5);
}

#[test]
fn test_stored_hash_not_trusted_for_pow() {
    // proof of work is recomputed from the block's bytes; the stored hash
    // field is only the linkage target for the next block
    let mut g = mined(0, 1, vec![0; 32], vec![]);
    let real_hash = g.hash.clone();
    g.hash = vec![9; 32];
    let mut chain = Blockchain::new();
    assert_eq!(chain.update_with_block(g), Ok(()));

    // linking to the recomputed digest fails: the stored field is what counts
    let b_real = mined(1, 2, real_hash, vec![]);
    assert_eq!(
        chain.update_with_block(b_real),
        Err(BlockValidationErr::MismatchedPreviousHash)
    );
    let b_stored = mined(1, 2, vec![9; 32], vec![]);
    assert_eq!(chain.update_with_block(b_stored), Ok(()));
}
