use blockchain::block::{Block, Transaction, PREFIX};

fn block(
    number: u64,
    timestamp: i64,
    nonce: u64,
    transactions: Vec<Transaction>,
    previous_hash: &str,
) -> Block {
    Block {
        block_number: number,
        block_timestamp: timestamp,
        block_nonce: nonce,
        transaction_list: transactions,
        previous_block_hash: previous_hash.to_string(),
    }
}

fn transaction(id: &str, timestamp: i64, details: &str) -> Transaction {
    Transaction {
        transaction_id: id.to_string(),
        transaction_timestamp: timestamp,
        transaction_details: details.to_string(),
    }
}

#[test]
fn test_genesis_block() {
    let p2p_bc: Vec<Block> = vec![Block::genesis()];
    assert_eq!(p2p_bc[0].block_number, 1);
    assert_eq!(
        p2p_bc[0].transaction_list[0].transaction_details,
        "Transaction from the genesis method"
    );
}

#[test]
fn test_new_block() {
    let mut p2p_bc: Vec<Block> = vec![Block::genesis()];
    let new_transaction = Transaction {
        transaction_id: String::from("1"),
        transaction_timestamp: 0,
        transaction_details: String::from("new transaction block"),
    };

    let mut new_block = Block::new(vec![new_transaction], &p2p_bc[p2p_bc.len() - 1]);
    Block::mine_new_block(&mut new_block, &PREFIX);
    p2p_bc.push(new_block);
    assert_eq!(p2p_bc.len(), 2);
    assert_eq!(
        p2p_bc[p2p_bc.len() - 1].transaction_list[0].transaction_details,
        "new transaction block"
    );
}

#[test]
fn appended_block_links_and_meets_difficulty() {
    let mut chain: Vec<Block> = vec![Block::genesis()];
    let t = transaction("1", 0, "new transaction block");
    let mut b = Block::new(vec![t], &chain[0]);
    Block::mine_new_block(&mut b, "00");
    chain.push(b);
    assert_eq!(chain.len(), 2);
    assert_eq!(chain[1].block_number, chain[0].block_number + 1);
    assert!(Block::generate_hash(&chain[1]).starts_with("00"));
    assert_eq!(chain[1].previous_block_hash, Block::generate_hash(&chain[0]));
}

#[test]
fn tampering_breaks_the_link() {
    let mut chain: Vec<Block> = vec![Block::genesis()];
    let t = transaction("1", 0, "new transaction block");
    let mut b = Block::new(vec![t], &chain[0]);
    Block::mine_new_block(&mut b, "00");
    chain.push(b);

    chain[0].transaction_list[0].transaction_details = String::from("tampered");
    let recomputed = Block::generate_hash(&chain[0]);
    assert_ne!(recomputed, chain[1].previous_block_hash);
}

#[test]
fn mining_reaches_each_difficulty() {
    let mut easy = block(2, 7, 0, vec![transaction("a", 1, "x")], "1");
    Block::mine_new_block(&mut easy, "0");
    assert!(Block::generate_hash(&easy).starts_with("0"));

    let mut harder = block(2, 7, 0, vec![transaction("a", 1, "x")], "1");
    Block::mine_new_block(&mut harder, "000");
    assert!(Block::generate_hash(&harder).starts_with("000"));
}

#[test]
fn identical_fields_hash_identically() {
    let a = block(9, -45, 123, vec![transaction("id-7", 1600000000, "pay rent")], "00ff");
    let b = block(9, -45, 123, vec![transaction("id-7", 1600000000, "pay rent")], "00ff");
    assert_eq!(Block::generate_hash(&a), Block::generate_hash(&b));
}

#[test]
fn mining_is_idempotent_and_touches_only_the_nonce() {
    let mut b = block(3, 11, 0, vec![transaction("t", 5, "d")], "00");
    Block::mine_new_block(&mut b, "00");
    let number = b.block_number;
    let timestamp = b.block_timestamp;
    let nonce = b.block_nonce;
    let details = b.transaction_list[0].transaction_details.clone();
    let previous = b.previous_block_hash.clone();

    Block::mine_new_block(&mut b, "00");
    assert_eq!(b.block_nonce, nonce);
    assert_eq!(b.block_number, number);
    assert_eq!(b.block_timestamp, timestamp);
    assert_eq!(b.transaction_list.len(), 1);
    assert_eq!(b.transaction_list[0].transaction_details, details);
    assert_eq!(b.previous_block_hash, previous);
}

#[test]
fn empty_transaction_block_mines_and_links() {
    let tip = Block::genesis();
    let tip_hash = Block::generate_hash(&tip);
    let mut b = Block::new(vec![], &tip);
    Block::mine_new_block(&mut b, "00");
    assert!(Block::generate_hash(&b).starts_with("00"));
    assert_eq!(b.previous_block_hash, tip_hash);
    assert_eq!(b.block_number, tip.block_number + 1);

    let parsed: serde_json::Value = serde_json::from_str(&b.serialize_block()).unwrap();
    let list = parsed["transaction_list"].as_array().unwrap();
    assert!(list.is_empty());
}

#[test]
fn serialization_has_the_exact_canonical_form() {
    let b = block(2, -5, 31, vec![transaction("7", 12, "coffee")], "00ab");
    let expected = "{\"block_number\":2,\"block_timestamp\":-5,\"block_nonce\":31,\"transaction_list\":[{\"transaction_id\":\"7\",\"transaction_timestamp\":12,\"transaction_details\":\"coffee\"}],\"previous_block_hash\":\"00ab\"}";
    assert_eq!(b.serialize_block(), expected);
}

#[test]
fn hash_is_the_digest_of_the_serialization() {
    let b = block(2, -5, 31, vec![transaction("7", 12, "coffee")], "00ab");
    let expected = "{\"block_number\":2,\"block_timestamp\":-5,\"block_nonce\":31,\"transaction_list\":[{\"transaction_id\":\"7\",\"transaction_timestamp\":12,\"transaction_details\":\"coffee\"}],\"previous_block_hash\":\"00ab\"}";
    let digest = crypto_hash::hex_digest(crypto_hash::Algorithm::SHA256, expected.as_bytes());
    let hash = Block::generate_hash(&b);
    assert_eq!(hash, digest);
    assert_eq!(hash.len(), 64);
}

#[test]
fn serialization_round_trips_through_a_json_decoder() {
    let tricky = "quote \" backslash \\ newline \n tab \t unit \u{1} snowman ☃";
    let b = block(
        u64::MAX,
        i64::MIN,
        u64::MAX - 1,
        vec![
            transaction("", -1, tricky),
            transaction("dup", 0, ""),
            transaction("dup", 0, ""),
        ],
        "1",
    );
    let encoded = b.serialize_block();
    let parsed: serde_json::Value = serde_json::from_str(&encoded).unwrap();

    assert_eq!(parsed["block_number"].as_u64(), Some(u64::MAX));
    assert_eq!(parsed["block_timestamp"].as_i64(), Some(i64::MIN));
    assert_eq!(parsed["block_nonce"].as_u64(), Some(u64::MAX - 1));
    assert_eq!(parsed["previous_block_hash"].as_str(), Some("1"));
    let list = parsed["transaction_list"].as_array().unwrap();
    assert_eq!(list.len(), 3);
    assert_eq!(list[0]["transaction_id"].as_str(), Some(""));
    assert_eq!(list[0]["transaction_timestamp"].as_i64(), Some(-1));
    assert_eq!(list[0]["transaction_details"].as_str(), Some(tricky));
    assert_eq!(list[1]["transaction_id"].as_str(), Some("dup"));
    assert_eq!(list[1]["transaction_details"].as_str(), Some(""));
    assert_eq!(list[2]["transaction_id"].as_str(), Some("dup"));
}

#[test]
fn control_characters_escape_as_serde_json_does() {
    let b = block(0, 0, 0, vec![], "\u{1f}\u{8}\u{c}\r");
    let encoded = b.serialize_block();
    assert!(encoded.ends_with("\"previous_block_hash\":\"\\u001f\\b\\f\\r\"}"));
    let parsed: serde_json::Value = serde_json::from_str(&encoded).unwrap();
    assert_eq!(parsed["previous_block_hash"].as_str(), Some("\u{1f}\u{8}\u{c}\r"));
}

#[test]
fn prefix_test_is_exact() {
    assert!(Block::is_block_valid("00ab", "00"));
    assert!(Block::is_block_valid("anything", ""));
    assert!(!Block::is_block_valid("0a00", "00"));
    assert!(!Block::is_block_valid("0", "00"));
    assert!(Block::is_block_valid("00", "00"));
}
