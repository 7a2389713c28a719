use blockchainlib::block::check_difficulty;
use blockchainlib::transaction::Output;
use blockchainlib::{Block, Blockchain, Hashable, Transaction};

#[test]
fn test_mine_block() {
    let mut block = Block::new(
        0,
        0,
        vec![0; 32],
        vec![],
        0x0000ffffffffffffffffffffffffffff,
    );

    let _ = block.mine();

    assert_eq!(block.hash.len(), 32);
    assert!(check_difficulty(&block.hash, block.difficulty));
}

#[test]
fn test_genesis_mining_example() {
    // difficulty 0x000fffffffffffffffffffffffffffff; genesis with one
    // coinbase paying Alice 50 and Bob 7
    let difficulty = 0x000fffffffffffffffffffffffffffff;
    let transactions = vec![Transaction {
        inputs: vec![],
        outputs: vec![
            Output {
                receiver: "Alice".to_owned(),
                value: 50,
            },
            Output {
                receiver: "Bob".to_owned(),
                value: 7,
            },
        ],
    }];
    let mut genesis = Block::new(0, 0, vec![0; 32], transactions, difficulty);
    genesis.mine().unwrap();

    // the found nonce is the smallest that satisfies the threshold
    assert_eq!(genesis.nonce, 5485);
    for m in 0..genesis.nonce {
        let mut attempt = Block::new(
            0,
            0,
            vec![0; 32],
            vec![Transaction {
                inputs: vec![],
                outputs: vec![
                    Output {
                        receiver: "Alice".to_owned(),
                        value: 50,
                    },
                    Output {
                        receiver: "Bob".to_owned(),
                        value: 7,
                    },
                ],
            }],
            difficulty,
        );
        attempt.nonce = m;
        let h = attempt.hash();
        assert!(!check_difficulty(&h, difficulty));
    }
    let expected =
        hex::decode("14e1447138b8d052b9c50bbaefa32b5f000ac63d6300b7fc6c62973737fb0fc2").unwrap();
    assert_eq!(genesis.hash, expected);

    // the ledger accepts it and then holds exactly the two created outputs
    let mut chain = Blockchain::new();
    chain.update_with_block(genesis).unwrap();
    assert_eq!(chain.blocks.len(), 1);
    assert_eq!(chain.unspent_output_count(), 2);
}

#[test]
fn test_new_block_fields() {
    let b = Block::new(3, 99, vec![1; 32], vec![], 42);
    assert_eq!(b.index, 3);
    assert_eq!(b.timestamp, 99);
    assert_eq!(b.hash, vec![0u8; 32]);
    assert_eq!(b.prev_block_hash, vec![1u8; 32]);
    assert_eq!(b.nonce, 0);
    assert_eq!(b.difficulty, 42);
}
