use blockchain_node::binary64::binary64_from_u64;
use blockchain_node::blockchain::transaction::Transaction;
use blockchain_node::blockchain::{
    check_difficulty, copy_list, do_proof_of_work, holds, list_total, stored_total,
    time_stamp_now, time_stamp_of, Block, BlockChain, BlockSearch, BlockSearchResult, Serialization, DIFFICULTY,
    MINING_REWARD,
};
use blockchain_node::error::AdmissionError;
use blockchain_node::wallet::{Transaction as SignedTransaction, Wallet};
use sha2::Digest;

fn unsigned(sender: &str, recipient: &str, amount: u64) -> SignedTransaction {
    SignedTransaction {
        sender: sender.to_string(),
        recipient: recipient.to_string(),
        amount,
        public_key: String::new(),
        signature: String::new(),
    }
}

fn ledger(sender: &str, recipient: &str, amount: u64) -> Transaction {
    Transaction::new(
        sender.as_bytes().to_vec(),
        recipient.as_bytes().to_vec(),
        (amount as f64).to_bits(),
    )
}

fn expected_hash(block: &Block) -> Vec<u8> {
    let mut bin: Vec<u8> = Vec::new();
    bin.extend_from_slice(&block.nonce().to_be_bytes());
    bin.extend_from_slice(block.previous_hash());
    bin.extend_from_slice(&block.time_stamps().to_be_bytes());
    for tx in block.transactions() {
        bin.extend_from_slice(tx);
    }
    sha2::Sha256::digest(&bin).to_vec()
}

fn assert_chain_invariants(chain: &BlockChain) {
    assert!(chain.len() >= 1);
    assert_eq!(chain.index(0).previous_hash(), &vec![0x00u8, 0x20]);
    for i in 1..chain.len() {
        assert_eq!(chain.index(i).previous_hash(), &chain.index(i - 1).hash());
        assert!(hex::encode(chain.index(i).hash()).starts_with(&"0".repeat(DIFFICULTY)));
    }
}

#[test]
fn constants() {
    assert_eq!(DIFFICULTY, 3);
    assert_eq!(MINING_REWARD, 1);
}

#[test]
fn block_new_has_no_transactions() {
    let before = time_stamp_now();
    let block = Block::new(7, vec![1, 2, 3]);
    let after = time_stamp_now();
    assert_eq!(block.nonce(), 7);
    assert_eq!(block.previous_hash(), &vec![1, 2, 3]);
    assert!(block.transactions().is_empty());
    assert!(before <= block.time_stamps() && block.time_stamps() <= after);
    assert!(block.time_stamps() > 1_600_000_000_000_000_000);
}

#[test]
fn a_clock_before_the_epoch_stamps_zero() {
    assert_eq!(time_stamp_of(Some(1_700_000_000_000_000_000)), 1_700_000_000_000_000_000);
    assert_eq!(time_stamp_of(Some(0)), 0);
    assert_eq!(time_stamp_of(Some(u128::MAX)), u128::MAX);
    assert_eq!(time_stamp_of(None), 0);
}

#[test]
fn block_hash_is_sha256_of_the_preimage() {
    let mut block = Block::with_time_stamp(-2, vec![0xab, 0xcd], 0x0102_0304_0506_0708_090a);
    assert_eq!(
        block.preimage(),
        vec![
            0xff, 0xff, 0xff, 0xfe, 0xab, 0xcd, 0, 0, 0, 0, 0, 0, 1, 2, 3, 4, 5, 6, 7, 8, 9, 10
        ]
    );
    assert_eq!(block.hash(), expected_hash(&block));
    assert_eq!(block.hash().len(), 32);
    block.add_transaction(&ledger("A", "B", 10));
    block.add_transaction(&ledger("C", "D", 20));
    assert_eq!(block.transactions().len(), 2);
    assert_eq!(block.transactions()[0], ledger("A", "B", 10).serialization());
    assert_eq!(block.hash(), expected_hash(&block));
    let mut expected = vec![0xff, 0xff, 0xff, 0xfe, 0xab, 0xcd];
    expected.extend_from_slice(&0x0102_0304_0506_0708_090au128.to_be_bytes());
    expected.extend_from_slice(&ledger("A", "B", 10).serialization());
    expected.extend_from_slice(&ledger("C", "D", 20).serialization());
    assert_eq!(block.preimage(), expected);
}

#[test]
fn block_hash_of_a_known_block() {
    let block = Block::with_time_stamp(0, vec![0, 32], 0);
    assert_eq!(
        hex::encode(block.hash()),
        hex::encode(sha2::Sha256::digest([0u8, 0, 0, 0, 0, 32, 0, 0, 0, 0, 0, 0, 0, 0, 0, 0, 0, 0, 0, 0, 0, 0]))
    );
}

#[test]
fn blocks_are_equal_where_their_hashes_are() {
    let a = Block::with_time_stamp(1, vec![1], 5);
    let b = Block::with_time_stamp(1, vec![1], 5);
    let c = Block::with_time_stamp(2, vec![1], 5);
    assert!(a == b);
    assert!(a != c);
    let d = a.clone();
    assert!(a == d);
    assert_eq!(d.nonce(), 1);
    assert_eq!(d.time_stamps(), 5);
}

#[test]
fn nonce_moves_only_within_its_range() {
    let mut block = Block::with_time_stamp(5, vec![], 0);
    assert!(block.add_assign(1));
    assert_eq!(block.nonce(), 6);
    assert!(block.add_assign(-10));
    assert_eq!(block.nonce(), -4);
    let mut top = Block::with_time_stamp(i32::MAX, vec![], 0);
    assert!(!top.add_assign(1));
    assert_eq!(top.nonce(), i32::MAX);
}

#[test]
fn difficulty_is_checked_on_hexadecimal_characters() {
    assert_eq!(check_difficulty(&[0x00, 0x0f, 0xff]), (true, "000fff".to_string()));
    assert_eq!(check_difficulty(&[0x00, 0x10, 0xff]), (false, "0010ff".to_string()));
    assert_eq!(check_difficulty(&[0x00]), (false, "00".to_string()));
    assert_eq!(check_difficulty(&[0x01, 0x00, 0x00]), (false, "010000".to_string()));
    assert_eq!(check_difficulty(&[0x00, 0x00]), (true, "0000".to_string()));
}

#[test]
fn proof_of_work_finds_the_first_nonce() {
    let mut block = Block::with_time_stamp(0, vec![9, 9], 12345);
    block.add_transaction(&ledger("A", "B", 10));
    let text = do_proof_of_work(&mut block).unwrap();
    assert!(text.starts_with("000"));
    assert_eq!(text, hex::encode(block.hash()));
    let found = block.nonce();
    let mut probe = Block::with_time_stamp(0, vec![9, 9], 12345);
    probe.add_transaction(&ledger("A", "B", 10));
    for _ in 0..found {
        assert!(!hex::encode(probe.hash()).starts_with("000"));
        assert!(probe.add_assign(1));
    }
    assert_eq!(probe.hash(), block.hash());
}

#[test]
fn proof_of_work_gives_up_at_the_largest_nonce() {
    let mut nonce = i32::MAX;
    let mut stamp: u128 = 0;
    // a block whose hash at the largest nonce does not start with the zeros
    loop {
        let probe = Block::with_time_stamp(nonce, vec![], stamp);
        if !hex::encode(probe.hash()).starts_with("000") {
            break;
        }
        stamp += 1;
    }
    let mut block = Block::with_time_stamp(nonce, vec![], stamp);
    assert_eq!(do_proof_of_work(&mut block), None);
    assert_eq!(block.nonce(), i32::MAX);
    nonce -= 1;
    let mut near = Block::with_time_stamp(nonce, vec![], stamp);
    let found = do_proof_of_work(&mut near);
    if let Some(text) = found {
        assert!(text.starts_with("000"));
        assert_eq!(near.nonce(), nonce);
    } else {
        assert_eq!(near.nonce(), i32::MAX);
    }
}

#[test]
fn genesis_and_first_mine() {
    let chain = BlockChain::new("MINER".to_string());
    assert_eq!(chain.len(), 2);
    assert_eq!(chain.index(0).nonce(), 0);
    assert_eq!(chain.index(0).previous_hash(), &vec![0x00u8, 0x20]);
    assert!(chain.index(0).transactions().is_empty());
    assert_eq!(chain.index(1).transactions().len(), 1);
    let tx = Transaction::deserialization(chain.index(1).transactions()[0].clone()).unwrap();
    assert_eq!(tx.sender_address, b"THE_BLOCKCHAIN".to_vec());
    assert_eq!(tx.recipient_address, b"MINER".to_vec());
    assert_eq!(f64::from_bits(tx.value_bits), 1.0);
    assert!(hex::encode(chain.index(1).hash()).starts_with("000"));
    assert!(chain.transaction_pool().is_empty());
    assert_eq!(chain.blockchain_address(), "MINER");
    assert_chain_invariants(&chain);
}

#[test]
fn new_at_is_a_function_of_its_arguments() {
    let a = BlockChain::new_at("MINER".to_string(), 10, 20);
    let b = BlockChain::new_at("MINER".to_string(), 10, 20);
    assert_eq!(a.len(), 2);
    assert_eq!(a.index(0).time_stamps(), 10);
    assert_eq!(a.index(1).time_stamps(), 20);
    assert_eq!(a.index(1).nonce(), b.index(1).nonce());
    assert_eq!(a.last_block().hash(), b.last_block().hash());
    assert_chain_invariants(&a);
}

#[test]
fn balance_after_sequence() {
    let mut chain = BlockChain::new("MINER".to_string());
    assert_eq!(chain.add_ledger_transaction(&ledger("A", "B", 10)), Ok(()));
    assert!(chain.mining());
    assert_eq!(chain.add_ledger_transaction(&ledger("C", "D", 10)), Ok(()));
    assert_eq!(chain.add_ledger_transaction(&ledger("X", "Y", 10)), Ok(()));
    assert!(chain.mining());
    assert_eq!(chain.len(), 4);
    assert_eq!(chain.calculate_total_amount("MINER".to_string()), 3);
    assert_eq!(chain.calculate_total_amount("A".to_string()), -10);
    assert_eq!(chain.calculate_total_amount("B".to_string()), 10);
    assert_eq!(chain.calculate_total_amount("C".to_string()), -10);
    assert_eq!(chain.calculate_total_amount("D".to_string()), 10);
    assert_eq!(chain.calculate_total_amount("X".to_string()), -10);
    assert_eq!(chain.calculate_total_amount("Y".to_string()), 10);
    assert_eq!(chain.calculate_total_amount("nobody".to_string()), 0);
    assert_eq!(chain.index(2).transactions().len(), 2);
    assert_eq!(chain.index(3).transactions().len(), 3);
    assert_eq!(chain.index(2).transactions()[0], ledger("A", "B", 10).serialization());
    assert_eq!(
        chain.index(2).transactions()[1],
        ledger("THE_BLOCKCHAIN", "MINER", 1).serialization()
    );
    assert_chain_invariants(&chain);
}

#[test]
fn mining_empties_the_pool() {
    let mut chain = BlockChain::new("MINER".to_string());
    assert!(chain.add_transaction(&unsigned("THE_BLOCKCHAIN", "W", 50)));
    assert_eq!(chain.transaction_pool().len(), 1);
    assert!(chain.mining());
    assert!(chain.transaction_pool().is_empty());
    assert!(chain.mining());
    assert!(chain.transaction_pool().is_empty());
    assert_eq!(chain.len(), 4);
    assert_eq!(chain.calculate_total_amount("MINER".to_string()), 3);
    assert_eq!(chain.calculate_total_amount("W".to_string()), 50);
    assert_eq!(chain.calculate_total_amount("THE_BLOCKCHAIN".to_string()), -53);
    assert_chain_invariants(&chain);
}

#[test]
fn duplicate_rejection() {
    let mut chain = BlockChain::new("MINER".to_string());
    let tx = unsigned("THE_BLOCKCHAIN", "W", 50);
    assert!(chain.add_transaction(&tx));
    assert_eq!(chain.transaction_pool().len(), 1);
    assert!(!chain.add_transaction(&tx));
    assert_eq!(chain.try_add_transaction(&tx), Err(AdmissionError::DuplicateTransaction));
    assert_eq!(chain.transaction_pool().len(), 1);
    assert_eq!(
        chain.add_ledger_transaction(&ledger("THE_BLOCKCHAIN", "W", 50)),
        Err(AdmissionError::DuplicateTransaction)
    );
    assert_eq!(chain.transaction_pool().len(), 1);
    // the same transfer is admitted again once it was mined
    assert!(chain.mining());
    assert!(chain.add_transaction(&tx));
}

#[test]
fn duplicate_of_a_signed_transaction_is_rejected() {
    let wallet = Wallet::new();
    let mut chain = BlockChain::new("MINER".to_string());
    assert!(chain.add_transaction(&unsigned("THE_BLOCKCHAIN", &wallet.get_adress(), 50)));
    assert!(chain.mining());
    let tx = wallet.sign_transaction(&"bob".to_string(), 5).unwrap();
    assert!(chain.add_transaction(&tx));
    assert!(!chain.add_transaction(&tx));
    assert_eq!(chain.transaction_pool().len(), 1);
}

#[test]
fn self_payment_rejection() {
    let miner = Wallet::new();
    let mut chain = BlockChain::new(miner.get_adress());
    let tx = miner.sign_transaction(&"bob".to_string(), 1).unwrap();
    assert!(Wallet::verify_transaction(&tx));
    assert!(!chain.add_transaction(&tx));
    assert_eq!(chain.try_add_transaction(&tx), Err(AdmissionError::SelfPayment));
    assert!(chain.transaction_pool().is_empty());
    let mut plain = BlockChain::new("M".to_string());
    assert_eq!(
        plain.try_add_transaction(&unsigned("M", "bob", 0)),
        Err(AdmissionError::SelfPayment)
    );
    assert!(plain.transaction_pool().is_empty());
}

#[test]
fn a_miner_named_as_the_chain_earns_nothing() {
    let mut chain = BlockChain::new("THE_BLOCKCHAIN".to_string());
    assert_eq!(chain.len(), 2);
    assert!(chain.index(1).transactions().is_empty());
    assert!(chain.mining());
    assert!(chain.index(2).transactions().is_empty());
    assert_eq!(chain.calculate_total_amount("THE_BLOCKCHAIN".to_string()), 0);
}

#[test]
fn admission_checks_the_signature() {
    let mut chain = BlockChain::new("MINER".to_string());
    assert_eq!(
        chain.try_add_transaction(&unsigned("A", "B", 10)),
        Err(AdmissionError::InvalidSignature)
    );
    let wallet = Wallet::new();
    let mut tx = wallet.sign_transaction(&"bob".to_string(), 0).unwrap();
    tx.amount = 1;
    assert_eq!(chain.try_add_transaction(&tx), Err(AdmissionError::InvalidSignature));
    assert!(!chain.add_transaction(&tx));
    assert!(chain.transaction_pool().is_empty());
}

#[test]
fn admission_checks_the_balance() {
    let wallet = Wallet::new();
    let mut chain = BlockChain::new("MINER".to_string());
    let poor = wallet.sign_transaction(&"bob".to_string(), 1).unwrap();
    assert_eq!(chain.try_add_transaction(&poor), Err(AdmissionError::InsufficientBalance));
    let nothing = wallet.sign_transaction(&"bob".to_string(), 0).unwrap();
    assert_eq!(chain.try_add_transaction(&nothing), Ok(()));
    assert!(chain.add_transaction(&unsigned("THE_BLOCKCHAIN", &wallet.get_adress(), 50)));
    // what is pending does not count yet
    assert_eq!(chain.try_add_transaction(&poor), Err(AdmissionError::InsufficientBalance));
    assert!(chain.mining());
    assert_eq!(chain.calculate_total_amount(wallet.get_adress()), 50);
    let all = wallet.sign_transaction(&"bob".to_string(), 50).unwrap();
    let more = wallet.sign_transaction(&"bob".to_string(), 51).unwrap();
    assert_eq!(chain.try_add_transaction(&more), Err(AdmissionError::InsufficientBalance));
    assert_eq!(chain.try_add_transaction(&all), Ok(()));
    assert_eq!(chain.try_add_transaction(&poor), Ok(()));
    assert_eq!(chain.transaction_pool().len(), 2);
    assert!(chain.mining());
    assert_eq!(chain.calculate_total_amount(wallet.get_adress()), -1);
    assert_eq!(chain.calculate_total_amount("bob".to_string()), 51);
    let again = wallet.sign_transaction(&"bob".to_string(), 0).unwrap();
    assert_eq!(chain.try_add_transaction(&again), Err(AdmissionError::InsufficientBalance));
    assert_chain_invariants(&chain);
}

#[test]
fn admitted_transaction_is_stored_in_ledger_form() {
    let mut chain = BlockChain::new("MINER".to_string());
    assert!(chain.add_transaction(&unsigned("THE_BLOCKCHAIN", "W\u{e9}", 50)));
    let stored = chain.transaction_pool()[0].clone();
    let expected = Transaction::new(
        b"THE_BLOCKCHAIN".to_vec(),
        "W\u{e9}".as_bytes().to_vec(),
        binary64_from_u64(50),
    );
    assert_eq!(stored, expected.serialization());
    let tx = Transaction::deserialization(stored).unwrap();
    assert_eq!(f64::from_bits(tx.value_bits), 50.0);
}

#[test]
fn large_amounts_lose_precision_as_floats_do() {
    let mut chain = BlockChain::new("MINER".to_string());
    let amount = (1u64 << 53) + 1;
    assert!(chain.add_transaction(&unsigned("THE_BLOCKCHAIN", "W", amount)));
    assert!(chain.mining());
    assert_eq!(chain.calculate_total_amount("W".to_string()), 1i64 << 53);
    assert!(chain.add_transaction(&unsigned("THE_BLOCKCHAIN", "V", u64::MAX)));
    assert!(chain.mining());
    assert_eq!(chain.calculate_total_amount("V".to_string()), i64::MAX);
}

#[test]
fn balance_wraps_around() {
    let mut chain = BlockChain::new("M".to_string());
    assert!(chain.add_transaction(&unsigned("THE_BLOCKCHAIN", "V", u64::MAX)));
    assert!(chain.add_transaction(&unsigned("THE_BLOCKCHAIN", "V", 1)));
    assert!(chain.mining());
    assert_eq!(chain.calculate_total_amount("V".to_string()), i64::MIN);
}

#[test]
fn create_block_wants_the_hash_of_the_last_block() {
    let mut chain = BlockChain::new("MINER".to_string());
    assert_eq!(chain.add_ledger_transaction(&ledger("A", "B", 10)), Ok(()));
    assert!(!chain.create_block(0, vec![1, 2, 3]));
    assert_eq!(chain.len(), 2);
    assert_eq!(chain.transaction_pool().len(), 1);
    let hash = chain.last_block().hash();
    assert!(chain.create_block(100, hash.clone()));
    assert_eq!(chain.len(), 3);
    assert!(chain.transaction_pool().is_empty());
    assert!(chain.last_block().nonce() >= 100);
    assert_eq!(chain.last_block().previous_hash(), &hash);
    assert_eq!(chain.last_block().transactions().len(), 1);
    assert!(chain.create_block_at(0, chain.last_block().hash(), 77));
    assert_eq!(chain.last_block().time_stamps(), 77);
    assert!(chain.last_block().transactions().is_empty());
    assert_chain_invariants(&chain);
}

#[test]
fn blocks_are_had_by_index() {
    let chain = BlockChain::new_at("MINER".to_string(), 1, 2);
    assert!(chain.get(0).unwrap() == chain.index(0));
    assert!(chain.get(1).unwrap() == chain.last_block());
    assert!(chain.get(2).is_none());
    assert!(chain.get(usize::MAX).is_none());
}

#[test]
fn last_block_is_the_newest() {
    let mut chain = BlockChain::new_at("MINER".to_string(), 1, 2);
    assert_eq!(chain.last_block().time_stamps(), 2);
    assert!(chain.mining_at(3));
    assert_eq!(chain.last_block().time_stamps(), 3);
    assert!(chain.last_block() == chain.index(2));
}

fn found<'a>(result: BlockSearchResult<'a>) -> &'a Block {
    match result {
        BlockSearchResult::Success(block) => block,
        _ => panic!("no block was found"),
    }
}

#[test]
fn search_finds_the_first_match() {
    let mut chain = BlockChain::new_at("MINER".to_string(), 10, 20);
    assert_eq!(chain.add_ledger_transaction(&ledger("A", "B", 10)), Ok(()));
    assert!(chain.mining_at(20));
    assert_eq!(chain.len(), 3);

    assert_eq!(found(chain.search_block(BlockSearch::SearchByIndex(0))).time_stamps(), 10);
    assert!(found(chain.search_block(BlockSearch::SearchByIndex(2))) == chain.index(2));
    assert!(
        found(chain.search_block(BlockSearch::SearchByPreviousHash(vec![0, 32])))
            == chain.index(0)
    );
    assert!(
        found(chain.search_block(BlockSearch::SearchByPreviousHash(chain.index(1).hash())))
            == chain.index(2)
    );
    assert!(
        found(chain.search_block(BlockSearch::SearchByBlockHash(chain.index(1).hash())))
            == chain.index(1)
    );
    // two blocks carry the time stamp 20: the first is found
    assert!(found(chain.search_block(BlockSearch::SearchByTimeStamp(20))) == chain.index(1));
    assert!(found(chain.search_block(BlockSearch::SearchByNonce(0))) == chain.index(0));
    let reward = ledger("THE_BLOCKCHAIN", "MINER", 1).serialization();
    assert!(found(chain.search_block(BlockSearch::SearchByTransaction(reward))) == chain.index(1));
    let transfer = ledger("A", "B", 10).serialization();
    assert!(
        found(chain.search_block(BlockSearch::SearchByTransaction(transfer))) == chain.index(2)
    );
}

#[test]
fn search_hands_back_what_was_looked_for() {
    let chain = BlockChain::new_at("MINER".to_string(), 10, 20);
    assert!(matches!(
        chain.search_block(BlockSearch::SearchByIndex(2)),
        BlockSearchResult::FailOfIndex(2)
    ));
    match chain.search_block(BlockSearch::SearchByPreviousHash(vec![7, 7])) {
        BlockSearchResult::FailOfPreviousHash(h) => assert_eq!(h, vec![7, 7]),
        _ => panic!("a failure was expected"),
    }
    match chain.search_block(BlockSearch::SearchByBlockHash(vec![8])) {
        BlockSearchResult::FailOfBlockHash(h) => assert_eq!(h, vec![8]),
        _ => panic!("a failure was expected"),
    }
    assert!(matches!(
        chain.search_block(BlockSearch::SearchByTimeStamp(5)),
        BlockSearchResult::FailOfTimeStamp(5)
    ));
    match chain.search_block(BlockSearch::SearchByTransaction(vec![1, 2])) {
        BlockSearchResult::FailOfTransaction(t) => assert_eq!(t, vec![1, 2]),
        _ => panic!("a failure was expected"),
    }
    assert!(matches!(
        chain.search_block(BlockSearch::SearchByNonce(-1)),
        BlockSearchResult::FailOfNonce(-1)
    ));
}

#[test]
fn a_copy_of_a_chain_is_its_own() {
    let mut chain = BlockChain::new_at("MINER".to_string(), 1, 2);
    let copy = chain.clone();
    assert!(chain.mining_at(3));
    assert_eq!(copy.len(), 2);
    assert_eq!(chain.len(), 3);
    assert!(copy.last_block() == chain.index(1));
    assert_eq!(copy.blockchain_address(), "MINER");
}

#[test]
fn list_helpers() {
    let list = vec![vec![1u8, 2], vec![], vec![3]];
    assert!(holds(&list, &[3]));
    assert!(holds(&list, &[]));
    assert!(!holds(&list, &[2]));
    assert_eq!(copy_list(&list), list);
    let a_to_b = ledger("A", "B", 10).serialization();
    let b_to_b = ledger("B", "B", 4).serialization();
    assert_eq!(stored_total(&a_to_b, b"A"), -10);
    assert_eq!(stored_total(&a_to_b, b"B"), 10);
    assert_eq!(stored_total(&a_to_b, b"C"), 0);
    assert_eq!(stored_total(&b_to_b, b"B"), 0);
    assert_eq!(stored_total(&[1, 2, 3], b"B"), 0);
    let half = Transaction::new(b"A".to_vec(), b"B".to_vec(), 2.5f64.to_bits()).serialization();
    assert_eq!(stored_total(&half, b"B"), 2);
    assert_eq!(stored_total(&half, b"A"), -2);
    assert_eq!(list_total(&vec![a_to_b, b_to_b, half], b"B"), 12);
}
