use rustr_core::error::CoreError;
use rustr_core::signer::{signed_event_from_json, InternalSigner, SignedEvent, UnsignedEvent};
use rustr_core::storage::stored_event_from_json;
use rustr_core::text::{hex_encode, int_to_text};

fn signer(byte: u8) -> InternalSigner {
    InternalSigner::from_secret_key(&[byte; 32]).unwrap()
}

#[test]
fn secret_key_must_be_valid() {
    assert!(matches!(InternalSigner::from_secret_key(&[0u8; 32]), Err(CoreError::SignerError(_))));
    assert!(matches!(InternalSigner::from_secret_key(&[1u8; 3]), Err(CoreError::SignerError(_))));
    let s = signer(1);
    assert_eq!(s.secret_key_hex(), "01".repeat(32));
}

#[test]
fn public_key_is_x_only_hex() {
    let s = signer(1);
    let pk = s.get_public_key();
    let keys = nostr::key::Keys::parse(&"01".repeat(32)).unwrap();
    assert_eq!(pk, keys.public_key().to_hex());
    assert_eq!(pk.len(), 64);
}

#[test]
fn signed_event_verifies_under_nostr() {
    let s = signer(7);
    let unsigned = UnsignedEvent {
        kind: 42,
        content: "hi \"there\"\n".to_string(),
        tags: vec![vec!["e".to_string(), "ch_abc".to_string()]],
        created_at: 1_700_000_000,
    };
    let e = s.sign_event(unsigned).unwrap();
    assert_eq!(e.kind, 42);
    assert_eq!(e.created_at, 1_700_000_000);
    assert_eq!(e.tags, vec![vec!["e".to_string(), "ch_abc".to_string()]]);
    let json = e.to_json();
    let parsed = nostr::event::Event::from_json(&json).unwrap();
    assert!(parsed.verify().is_ok());
    assert_eq!(parsed.id.to_hex(), e.id);
    assert_eq!(parsed.content, "hi \"there\"\n");
}

#[test]
fn sign_accepts_negative_time_and_empty_tag() {
    let s = signer(7);
    let neg = UnsignedEvent { kind: 1, content: String::new(), tags: vec![], created_at: -1 };
    let e = s.sign_event(neg).unwrap();
    assert_eq!(e.created_at, -1);
    assert_eq!(e.id.len(), 64);
    assert!(e.to_json().contains(r#""created_at":-1"#));
    let empty_tag = UnsignedEvent { kind: 1, content: String::new(), tags: vec![vec![]], created_at: 1 };
    let e = s.sign_event(empty_tag).unwrap();
    assert_eq!(e.tags, vec![Vec::<String>::new()]);
}

#[test]
fn nip04_round_trip() {
    let alice = signer(3);
    let bob = signer(4);
    let ct = alice.nip04_encrypt(&bob.get_public_key(), "secret message").unwrap();
    assert!(ct.contains("?iv="));
    assert_ne!(ct, "secret message");
    let pt = bob.nip04_decrypt(&alice.get_public_key(), &ct).unwrap();
    assert_eq!(pt, "secret message");
    assert!(matches!(bob.nip04_decrypt(&alice.get_public_key(), "garbage"), Err(CoreError::SignerError(_))));
    assert!(matches!(alice.nip04_encrypt("not a key", "x"), Err(CoreError::SignerError(_))));
}

#[test]
fn generated_signer_works() {
    let s = InternalSigner::generate("pass").unwrap();
    assert_eq!(s.get_public_key().len(), 64);
}

#[test]
fn signed_event_json_is_canonical() {
    let e = SignedEvent {
        id: "aa".to_string(),
        pubkey: "bb".to_string(),
        created_at: 5,
        kind: 1,
        tags: vec![vec!["e".to_string(), "x".to_string()], vec!["p".to_string()]],
        content: "c".to_string(),
        sig: "ss".to_string(),
    };
    assert_eq!(
        e.to_json(),
        r#"{"content":"c","created_at":5,"id":"aa","kind":1,"pubkey":"bb","sig":"ss","tags":[["e","x"],["p"]]}"#
    );
    let none = SignedEvent { tags: vec![], ..e };
    assert!(none.to_json().ends_with(r#""tags":[]}"#));
}

#[test]
fn text_helpers() {
    let s = InternalSigner::from_secret_key(&[0x00, 0xab, 0x10, 0x01].repeat(8)).unwrap();
    assert_eq!(s.secret_key_hex(), "00ab1001".repeat(8));
    assert_eq!(hex_encode(&[0x00, 0xab, 0x10, 0xff]), "00ab10ff");
    assert_eq!(hex_encode(&[]), "");
    assert_eq!(int_to_text(-3200), "-3200");
    assert_eq!(int_to_text(i64::MIN), "-9223372036854775808");
    assert_eq!(int_to_text(0), "0");
    let e = SignedEvent {
        id: "i".to_string(),
        pubkey: "p".to_string(),
        created_at: 1,
        kind: 1,
        tags: vec![],
        content: "a\"b\\".to_string(),
        sig: "s".to_string(),
    };
    assert!(e.to_json().starts_with(r#"{"content":"a\"b\\","#));
    let f = stored_event_from_json("z", r#"{"id":"x","kind":42,"created_at":-5,"content":"hi"}"#, 0).unwrap();
    assert_eq!(f.id, "x");
    assert_eq!(f.kind, 42);
    assert_eq!(f.created_at, -5);
    assert_eq!(f.content, "hi");
    assert_eq!(f.pubkey, "");
}

#[test]
fn signed_event_json_reads_back() {
    let s = signer(7);
    let unsigned = UnsignedEvent { kind: 42, content: "x".to_string(), tags: vec![vec!["e".to_string(), "c".to_string()]], created_at: 10 };
    let e = s.sign_event(unsigned).unwrap();
    let back = signed_event_from_json(&e.to_json()).unwrap();
    assert_eq!(back.id, e.id);
    assert_eq!(back.sig, e.sig);
    assert_eq!(back.tags, e.tags);
    assert_eq!(back.kind, 42);
    assert_eq!(back.created_at, 10);
    assert!(signed_event_from_json(r#"{"id":"a","pubkey":"b","created_at":1,"kind":1,"tags":[[1]],"content":"","sig":"s"}"#)
        .unwrap_err()
        .is_parse_error());
    assert!(signed_event_from_json(r#"{"id":"a","pubkey":"b","created_at":1,"kind":70000,"tags":[],"content":"","sig":"s"}"#).is_err());
    assert!(signed_event_from_json(r#"{"id":"a"}"#).is_err());
}
