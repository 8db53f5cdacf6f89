use base64ct::{Base64, Encoding};
use dag_ledger::codec::{push_decimal, push_quoted};
use dag_ledger::digest::content_hash;
use dag_ledger::state::{ApplyError, WorldState};
use dag_ledger::transaction::{
    DecodeError, SchemeShape, SignedTransaction, Transaction, Verification,
};

fn quoted(s: &str) -> String {
    let mut out = Vec::new();
    push_quoted(&mut out, s);
    String::from_utf8(out).unwrap()
}

fn signed(sender: &[u8], receiver: &[u8], amount: u64, parents: &[SignedTransaction]) -> SignedTransaction {
    Transaction::new(parents, sender, amount, receiver, 1_700_000_000_000).sign(&[9, 8, 7, 6])
}

fn key(bytes: &[u8]) -> String {
    Base64::encode_string(bytes)
}

#[test]
fn payload_encoding_is_compact_json_in_field_order() {
    let t = Transaction::from_parts(
        vec!["p1".to_string(), "p2".to_string()],
        "AAEC".to_string(),
        1234,
        100,
        "AwQF".to_string(),
    );
    let text = String::from_utf8(t.encode()).unwrap();
    assert_eq!(
        text,
        "{\"parents\":[\"p1\",\"p2\"],\"sender\":\"AAEC\",\"timestamp\":1234,\"amount\":100,\"receiver\":\"AwQF\"}"
    );
}

#[test]
fn payload_encoding_without_parents() {
    let t = Transaction::from_parts(vec![], "a".to_string(), 0, 0, "b".to_string());
    let text = String::from_utf8(t.encode()).unwrap();
    assert_eq!(
        text,
        "{\"parents\":[],\"sender\":\"a\",\"timestamp\":0,\"amount\":0,\"receiver\":\"b\"}"
    );
}

#[test]
fn signed_encoding_wraps_payload_and_signature() {
    let t = Transaction::from_parts(vec!["h".to_string()], "s".to_string(), 5, 7, "r".to_string());
    let st = SignedTransaction::from_parts(t, "c2ln".to_string());
    let text = String::from_utf8(st.encode()).unwrap();
    assert_eq!(
        text,
        "{\"transaction\":{\"parents\":[\"h\"],\"sender\":\"s\",\"timestamp\":5,\"amount\":7,\"receiver\":\"r\"},\"signature\":\"c2ln\"}"
    );
}

#[test]
fn strings_are_escaped_like_json() {
    assert_eq!(quoted("a\"b\\c"), "\"a\\\"b\\\\c\"");
    assert_eq!(quoted("\n\t\r\u{8}\u{c}"), "\"\\n\\t\\r\\b\\f\"");
    assert_eq!(quoted("\u{1}\u{1f}"), "\"\\u0001\\u001f\"");
    assert_eq!(quoted("é/\u{7f}"), "\"é/\u{7f}\"");
    assert_eq!(quoted(""), "\"\"");
}

#[test]
fn strings_are_escaped_as_serde_json_does() {
    let s = "tab\there \"q\" \\ \u{0} \u{1b} ü";
    assert_eq!(quoted(s), serde_json::to_string(s).unwrap());
}

#[test]
fn decimals_have_no_leading_zeros() {
    for (n, text) in [(0u64, "0"), (9, "9"), (10, "10"), (1000, "1000"), (u64::MAX, "18446744073709551615")] {
        let mut out = Vec::new();
        push_decimal(&mut out, n);
        assert_eq!(String::from_utf8(out).unwrap(), text);
    }
}

#[test]
fn content_hash_is_base64_of_blake3() {
    let data = b"hello ledger";
    let expected = Base64::encode_string(blake3::hash(data).as_bytes());
    assert_eq!(content_hash(data), expected);
    assert_eq!(content_hash(data).len(), 44);
    assert_ne!(content_hash(data), content_hash(b"hello ledgeR"));
}

#[test]
fn hash_covers_the_signed_encoding() {
    let st = signed(&[1, 2, 3], &[4, 5, 6], 10, &[]);
    let expected = Base64::encode_string(blake3::hash(&st.encode()).as_bytes());
    assert_eq!(st.hash(), expected);
    assert_eq!(st.hash(), st.hash());
}

#[test]
fn hash_changes_with_the_signature() {
    let t1 = Transaction::from_parts(vec![], "s".to_string(), 1, 1, "r".to_string());
    let t2 = Transaction::from_parts(vec![], "s".to_string(), 1, 1, "r".to_string());
    let a = SignedTransaction::from_parts(t1, "AAAA".to_string());
    let b = SignedTransaction::from_parts(t2, "AAAB".to_string());
    assert_eq!(a.transaction().encode(), b.transaction().encode());
    assert_ne!(a.hash(), b.hash());
}

#[test]
fn new_stores_keys_as_base64_and_parents_by_hash() {
    let p1 = signed(&[1], &[2], 3, &[]);
    let p2 = signed(&[4], &[5], 6, &[]);
    let t = Transaction::new(&[p1.clone(), p2.clone()], &[0, 1, 2], 77, &[255, 254], 42);
    assert_eq!(t.sender(), "AAEC");
    assert_eq!(t.receiver(), "//4=");
    assert_eq!(t.amount(), 77);
    assert_eq!(t.timestamp(), 42);
    assert_eq!(t.parents(), &vec![p1.hash(), p2.hash()]);
}

#[test]
fn sign_stores_the_signature_as_base64() {
    let t = Transaction::from_parts(vec![], "s".to_string(), 1, 2, "r".to_string());
    let st = t.sign(&[0xde, 0xad, 0xbe, 0xef]);
    assert_eq!(st.signature(), "3q2+7w==");
    assert_eq!(st.transaction().amount(), 2);
}

#[test]
fn verification_input_decodes_key_and_signature() {
    let st = signed(&[1, 2, 3, 4], &[5], 10, &[]);
    let shape = SchemeShape { public_key_len: 4, max_signature_len: 8 };
    let m = st.verification_input(&shape).unwrap();
    assert_eq!(m.public_key, vec![1, 2, 3, 4]);
    assert_eq!(m.signature, vec![9, 8, 7, 6]);
    assert_eq!(m.message, st.transaction().encode());
}

#[test]
fn verification_input_rejects_a_key_of_the_wrong_length() {
    let st = signed(&[1, 2, 3], &[5], 10, &[]);
    let shape = SchemeShape { public_key_len: 4, max_signature_len: 8 };
    assert_eq!(st.verification_input(&shape).err(), Some(DecodeError::Key));
}

#[test]
fn verification_input_rejects_a_key_that_is_not_base64() {
    let t = Transaction::from_parts(vec![], "not base64!".to_string(), 0, 1, "r".to_string());
    let st = SignedTransaction::from_parts(t, "CQgHBg==".to_string());
    let shape = SchemeShape { public_key_len: 4, max_signature_len: 8 };
    assert_eq!(st.verification_input(&shape).err(), Some(DecodeError::Key));
}

#[test]
fn verification_input_rejects_a_malformed_signature() {
    let t = Transaction::from_parts(vec![], "AQIDBA==".to_string(), 0, 1, "r".to_string());
    let st = SignedTransaction::from_parts(t, "CQgHBg=".to_string());
    let shape = SchemeShape { public_key_len: 4, max_signature_len: 8 };
    assert_eq!(st.verification_input(&shape).err(), Some(DecodeError::Signature));
}

#[test]
fn verification_input_rejects_a_long_signature() {
    let st = signed(&[1, 2, 3, 4], &[5], 10, &[]);
    let shape = SchemeShape { public_key_len: 4, max_signature_len: 3 };
    assert_eq!(st.verification_input(&shape).err(), Some(DecodeError::Signature));
}

#[test]
fn decide_gives_three_outcomes() {
    let st = signed(&[1, 2, 3, 4], &[5], 10, &[]);
    let shape = SchemeShape { public_key_len: 4, max_signature_len: 8 };
    let good = st.verification_input(&shape);
    assert_eq!(Verification::decide(&good, true), Verification::Valid);
    assert_eq!(Verification::decide(&good, false), Verification::Invalid);
    let bad = st.verification_input(&SchemeShape { public_key_len: 5, max_signature_len: 8 });
    assert_eq!(Verification::decide(&bad, true), Verification::Malformed(DecodeError::Key));
}

#[test]
fn apply_moves_value_and_rejects_a_second_apply() {
    let sender = key(&[1, 1]);
    let receiver = key(&[2, 2]);
    let mut w = WorldState::new();
    w.set_balance(&sender, 1000);
    let tx = signed(&[1, 1], &[2, 2], 100, &[]);
    let h = tx.hash();
    assert_eq!(w.apply(&tx, Verification::Valid), Ok(()));
    assert_eq!(w.balance(&sender), Some(900));
    assert_eq!(w.balance(&receiver), Some(100));
    assert!(w.history_contains(&sender, &h));
    assert!(w.history_contains(&receiver, &h));
    assert!(w.is_applied(&h));
    assert_eq!(w.apply(&tx, Verification::Valid), Err(ApplyError::DuplicateTransaction));
    assert_eq!(w.balance(&sender), Some(900));
    assert_eq!(w.balance(&receiver), Some(100));
}

#[test]
fn apply_conserves_the_total() {
    let a = key(&[1]);
    let b = key(&[2]);
    let c = key(&[3]);
    let mut w = WorldState::new();
    w.set_balance(&a, 500);
    w.set_balance(&b, 300);
    let total = |w: &WorldState| {
        [&a, &b, &c].iter().map(|k| w.balance(k).unwrap_or(0)).sum::<u64>()
    };
    assert_eq!(total(&w), 800);
    let t1 = signed(&[1], &[3], 200, &[]);
    let t2 = signed(&[2], &[1], 300, &[t1.clone()]);
    let t3 = signed(&[3], &[3], 50, &[t2.clone()]);
    let t4 = signed(&[2], &[1], 1, &[]);
    assert_eq!(w.apply(&t1, Verification::Valid), Ok(()));
    assert_eq!(w.apply(&t2, Verification::Valid), Ok(()));
    assert_eq!(w.apply(&t3, Verification::Valid), Ok(()));
    assert_eq!(w.apply(&t4, Verification::Valid), Err(ApplyError::InsufficientFunds));
    assert_eq!(total(&w), 800);
    assert_eq!(w.balance(&a), Some(600));
    assert_eq!(w.balance(&b), Some(0));
    assert_eq!(w.balance(&c), Some(200));
}

#[test]
fn apply_rejects_a_bad_signature_first() {
    let mut w = WorldState::new();
    w.set_balance(&key(&[1]), 10);
    let tx = signed(&[1], &[2], 5, &[]);
    assert_eq!(w.apply(&tx, Verification::Invalid), Err(ApplyError::InvalidSignature));
    assert_eq!(
        w.apply(&tx, Verification::Malformed(DecodeError::Signature)),
        Err(ApplyError::InvalidSignature)
    );
    assert_eq!(w.balance(&key(&[1])), Some(10));
    assert_eq!(w.balance(&key(&[2])), None);
}

#[test]
fn apply_rejects_an_unknown_sender_or_low_balance() {
    let mut w = WorldState::new();
    let tx = signed(&[1], &[2], 5, &[]);
    assert_eq!(w.apply(&tx, Verification::Valid), Err(ApplyError::InsufficientFunds));
    w.set_balance(&key(&[1]), 4);
    assert_eq!(w.apply(&tx, Verification::Valid), Err(ApplyError::InsufficientFunds));
    w.set_balance(&key(&[1]), 5);
    assert_eq!(w.apply(&tx, Verification::Valid), Ok(()));
    assert_eq!(w.balance(&key(&[1])), Some(0));
}

#[test]
fn apply_rejects_unknown_parents() {
    let mut w = WorldState::new();
    w.set_balance(&key(&[1]), 100);
    let never_applied = signed(&[7], &[8], 1, &[]);
    let tx = signed(&[1], &[2], 5, &[never_applied]);
    assert_eq!(w.apply(&tx, Verification::Valid), Err(ApplyError::UnknownParent));
    assert_eq!(w.balance(&key(&[1])), Some(100));
}

#[test]
fn apply_accepts_known_parents() {
    let mut w = WorldState::new();
    w.set_balance(&key(&[1]), 100);
    let root = signed(&[1], &[2], 10, &[]);
    assert_eq!(w.apply(&root, Verification::Valid), Ok(()));
    let child = signed(&[2], &[1], 4, &[root]);
    assert_eq!(w.apply(&child, Verification::Valid), Ok(()));
    assert_eq!(w.balance(&key(&[1])), Some(94));
    assert_eq!(w.balance(&key(&[2])), Some(6));
}

#[test]
fn apply_rejects_a_receiver_overflow() {
    let mut w = WorldState::new();
    w.set_balance(&key(&[1]), 10);
    w.set_balance(&key(&[2]), u64::MAX - 5);
    let tx = signed(&[1], &[2], 6, &[]);
    assert_eq!(w.apply(&tx, Verification::Valid), Err(ApplyError::BalanceOverflow));
    let ok = signed(&[1], &[2], 5, &[]);
    assert_eq!(w.apply(&ok, Verification::Valid), Ok(()));
    assert_eq!(w.balance(&key(&[2])), Some(u64::MAX));
}

#[test]
fn transfer_to_self_keeps_the_balance() {
    let mut w = WorldState::new();
    w.set_balance(&key(&[1]), 50);
    let tx = signed(&[1], &[1], 20, &[]);
    assert_eq!(w.apply(&tx, Verification::Valid), Ok(()));
    assert_eq!(w.balance(&key(&[1])), Some(50));
    assert!(w.history_contains(&key(&[1]), &tx.hash()));
    assert_eq!(w.apply(&tx, Verification::Valid), Err(ApplyError::DuplicateTransaction));
}

#[test]
fn set_balance_keeps_history() {
    let mut w = WorldState::new();
    w.set_balance(&key(&[1]), 50);
    let tx = signed(&[1], &[2], 20, &[]);
    assert_eq!(w.apply(&tx, Verification::Valid), Ok(()));
    w.set_balance(&key(&[1]), 7);
    assert_eq!(w.balance(&key(&[1])), Some(7));
    assert!(w.history_contains(&key(&[1]), &tx.hash()));
    assert!(!w.history_contains(&key(&[3]), &tx.hash()));
}

#[test]
fn encoding_reads_back_to_the_same_payload() {
    let parents = vec!["x\"y".to_string(), "\\\n".to_string(), "ünï".to_string()];
    let t = Transaction::from_parts(parents.clone(), "se\u{1}nder".to_string(), 17, 42, "r".to_string());
    let v: serde_json::Value = serde_json::from_slice(&t.encode()).unwrap();
    let back: Vec<String> = v["parents"]
        .as_array()
        .unwrap()
        .iter()
        .map(|p| p.as_str().unwrap().to_string())
        .collect();
    assert_eq!(back, parents);
    assert_eq!(v["sender"].as_str(), Some("se\u{1}nder"));
    assert_eq!(v["timestamp"].as_u64(), Some(17));
    assert_eq!(v["amount"].as_u64(), Some(42));
    assert_eq!(v["receiver"].as_str(), Some("r"));
}

#[test]
fn distinct_payloads_encode_differently() {
    let joined = Transaction::from_parts(vec!["a\",\"b".to_string()], "s".to_string(), 1, 1, "r".to_string());
    let split = Transaction::from_parts(
        vec!["a".to_string(), "b".to_string()],
        "s".to_string(),
        1,
        1,
        "r".to_string(),
    );
    assert_ne!(joined.encode(), split.encode());
    let t1 = Transaction::from_parts(vec![], "s".to_string(), 11, 1, "r".to_string());
    let t2 = Transaction::from_parts(vec![], "s".to_string(), 1, 11, "r".to_string());
    assert_ne!(t1.encode(), t2.encode());
}
