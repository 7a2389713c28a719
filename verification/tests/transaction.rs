use blockchainlib::transaction::Output;
use blockchainlib::{Address, Hashable, Transaction};

#[test]
fn test_transaction() {
    let output1 = Output {
        receiver: Address::new(),
        value: 100,
    };
    let output2 = Output {
        receiver: Address::new(),
        value: 200,
    };
    let transaction = Transaction {
        inputs: vec![output1.clone(), output2.clone()],
        outputs: vec![output1.clone(), output2.clone()],
    };

    assert_eq!(transaction.input_value(), 300);
    assert_eq!(transaction.output_value(), 300);
    assert_eq!(transaction.input_hashes().len(), 2);
    assert_eq!(transaction.output_hashes().len(), 2);
    assert_eq!(transaction.is_coinbase(), false);
}

#[test]
fn test_output_hash_known_vector() {
    // SHA-256 of b"Alice" followed by 50 as 8 little-endian bytes
    let o = Output {
        receiver: "Alice".to_owned(),
        value: 50,
    };
    let h = o.hash();
    let expected =
        hex::decode("0c10a99e5b15a601164d9cd2b8fc88ad6d43d2f98fd4c549b991178113516a25").unwrap();
    assert_eq!(h, expected);
}

#[test]
fn test_output_hashes_dedup() {
    // two outputs with the same receiver and value collapse to one entry
    let o = Output {
        receiver: "Alice".to_owned(),
        value: 7,
    };
    let t = Transaction {
        inputs: vec![],
        outputs: vec![o.clone(), o.clone()],
    };
    assert_eq!(t.output_hashes().len(), 1);
    assert!(t.is_coinbase());
}

