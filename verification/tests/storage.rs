use ciphermq::config::DatabaseConfig;
use ciphermq::storage::{
    connection_string, open_key, open_public_key, retries_connection, seal_public_key,
    MessageMetadata, PublicKeyData, SealedKey, StorageAction, StorageCommand, StorageError,
    StorageWorker,
};

fn data(key: &str) -> PublicKeyData {
    PublicKeyData { client_id: "r".to_string(), public_key: key.to_string() }
}

fn text(e: StorageError) -> String {
    e.text()
}

#[test]
fn a_known_key_is_sealed_as_expected() {
    let row = seal_public_key(&[0u8; 32], &[0u8; 12], &data("")).ok().unwrap();
    assert_eq!(row.client_id, "r");
    assert_eq!(row.public_key_ciphertext, "");
    assert_eq!(row.nonce, "AAAAAAAAAAAAAAAA");
    assert_eq!(row.tag, "Uw+K+8dFNrmpY7TxxMtziw==");
}

#[test]
fn sealed_keys_are_read_back() {
    let key = [9u8; 32];
    let row = seal_public_key(&key, &[3u8; 12], &data("aGVsbG8=")).ok().unwrap();
    assert_ne!(row.public_key_ciphertext, "aGVsbG8=");
    assert_eq!(open_public_key(&key, &row).unwrap().ok().unwrap(), "aGVsbG8=");
    let other = [8u8; 32];
    assert_eq!(
        text(open_public_key(&other, &row).unwrap().err().unwrap()),
        "Encryption error: Decryption failed: aead::Error"
    );
}

#[test]
fn parts_of_a_row_must_be_base64() {
    let key = [9u8; 32];
    let row = seal_public_key(&key, &[3u8; 12], &data("aGVsbG8=")).ok().unwrap();
    let with = |c: &str, n: &str, t: &str| SealedKey {
        client_id: "r".to_string(),
        public_key_ciphertext: c.to_string(),
        nonce: n.to_string(),
        tag: t.to_string(),
    };
    let bad = with("*", &row.nonce, &row.tag);
    assert_eq!(
        text(open_public_key(&key, &bad).unwrap().err().unwrap()),
        "Encryption error: Invalid ciphertext: Invalid symbol 42, offset 0."
    );
    let bad = with(&row.public_key_ciphertext, "A", &row.tag);
    assert!(text(open_public_key(&key, &bad).unwrap().err().unwrap())
        .starts_with("Encryption error: Invalid nonce: "));
    let bad = with(&row.public_key_ciphertext, &row.nonce, "=");
    assert!(text(open_public_key(&key, &bad).unwrap().err().unwrap())
        .starts_with("Encryption error: Invalid tag: "));
    let short = with(&row.public_key_ciphertext, "AAAA", &row.tag);
    assert!(open_public_key(&key, &short).is_none());
}

#[test]
fn a_key_opens_from_its_parts() {
    let key = [1u8; 32];
    assert_eq!(
        text(open_key(&key, &[], &[0u8; 12], &[0u8; 16]).err().unwrap()),
        "Encryption error: Decryption failed: aead::Error"
    );
}

#[test]
fn what_is_no_base64_is_not_sealed() {
    let e = seal_public_key(&[0u8; 32], &[0u8; 12], &data("not base64")).err().unwrap();
    assert_eq!(text(e), "Encryption error: Invalid public key: Invalid symbol 32, offset 3.");
}

#[test]
fn errors_have_texts() {
    assert_eq!(text(StorageError::Postgres("x".to_string())), "PostgreSQL error: x");
    assert_eq!(text(StorageError::ChannelSend("x".to_string())), "Channel send error: x");
    assert_eq!(text(StorageError::ChannelReceive), "Channel receive error");
    assert_eq!(text(StorageError::EncryptionError("x".to_string())), "Encryption error: x");
    assert_eq!(
        StorageError::ChannelReceive.save_key_text(),
        "Failed to save public key: Channel receive error"
    );
    assert_eq!(
        StorageError::ChannelReceive.get_key_text(),
        "Failed to get public key: Channel receive error"
    );
}

#[test]
fn the_database_is_found() {
    let config = DatabaseConfig {
        host: "db.local".to_string(),
        port: 5432,
        user: "mq".to_string(),
        password: "pw".to_string(),
        dbname: "ciphermq".to_string(),
    };
    assert_eq!(connection_string(&config), "postgres://mq:pw@db.local:5432/ciphermq");
    assert!(retries_connection(1));
    assert!(retries_connection(4));
    assert!(!retries_connection(5));
}

#[test]
fn updates_are_written_in_batches() {
    let mut w = StorageWorker::new(vec![7u8; 32]);
    for i in 0..49 {
        let c = StorageCommand::UpdateDeliveredTimeAsync(format!("m{}", i), format!("t{}", i));
        assert!(matches!(w.handle(c), StorageAction::Wait));
    }
    // The same message again does not fill the batch.
    let c = StorageCommand::UpdateDeliveredTimeAsync("m0".to_string(), "late".to_string());
    assert!(matches!(w.handle(c), StorageAction::Wait));
    let c = StorageCommand::UpdateAcknowledgedTimeAsync("a".to_string(), "t".to_string());
    assert!(matches!(w.handle(c), StorageAction::Wait));
    let c = StorageCommand::UpdateDeliveredTimeAsync("m49".to_string(), "t49".to_string());
    match w.handle(c) {
        StorageAction::Flush { delivered, acknowledged } => {
            assert_eq!(delivered.message_ids.len(), 50);
            assert_eq!(delivered.times.len(), 50);
            let at = delivered.message_ids.iter().position(|m| m == "m0").unwrap();
            assert_eq!(delivered.times[at], "late");
            let at = delivered.message_ids.iter().position(|m| m == "m17").unwrap();
            assert_eq!(delivered.times[at], "t17");
            assert!(acknowledged.message_ids.is_empty());
        }
        _ => panic!("not written"),
    }
    match w.handle(StorageCommand::FlushUpdates) {
        StorageAction::Flush { delivered, acknowledged } => {
            assert!(delivered.message_ids.is_empty());
            assert_eq!(acknowledged.message_ids, vec!["a".to_string()]);
            assert_eq!(acknowledged.times, vec!["t".to_string()]);
        }
        _ => panic!("not written"),
    }
    assert!(matches!(w.flush(), StorageAction::Wait));
}

#[test]
fn acknowledgements_are_written_in_batches_too() {
    let mut w = StorageWorker::new(vec![7u8; 32]);
    for i in 0..49 {
        let c = StorageCommand::UpdateAcknowledgedTimeAsync(format!("m{}", i), "t".to_string());
        assert!(matches!(w.handle(c), StorageAction::Wait));
    }
    let c = StorageCommand::UpdateAcknowledgedTimeAsync("m49".to_string(), "t".to_string());
    assert!(matches!(
        w.handle(c),
        StorageAction::Flush { acknowledged, .. } if acknowledged.message_ids.len() == 50
    ));
}

#[test]
fn requests_lead_to_statements() {
    let mut w = StorageWorker::new(vec![7u8; 32]);
    let m = MessageMetadata {
        message_id: "m".to_string(),
        client_id: "s".to_string(),
        exchange_name: "e".to_string(),
        routing_key: "k".to_string(),
        sent_time: None,
        delivered_time: None,
        acknowledged_time: None,
    };
    assert!(matches!(
        w.handle(StorageCommand::SaveMetadata(m)),
        StorageAction::InsertMetadata(m) if m.message_id == "m" && m.routing_key == "k"
    ));
    let s = |t: &str| t.to_string();
    assert!(matches!(
        w.handle(StorageCommand::UpdateDeliveredTime(s("m"), s("t"))),
        StorageAction::SetDelivered(a, b) if a == "m" && b == "t"
    ));
    assert!(matches!(
        w.handle(StorageCommand::UpdateAcknowledgedTime(s("m"), s("t"))),
        StorageAction::SetAcknowledged(a, b) if a == "m" && b == "t"
    ));
    assert!(matches!(
        w.handle(StorageCommand::LoadUnacknowledgedMetadata),
        StorageAction::SelectUnacknowledged
    ));
    assert!(matches!(
        w.handle(StorageCommand::GetClientIdForMessage(s("m"))),
        StorageAction::SelectClientId(a) if a == "m"
    ));
    assert!(matches!(
        w.handle(StorageCommand::GetPublicKey(s("r"))),
        StorageAction::SelectKey(a) if a == "r"
    ));
    assert!(matches!(
        w.handle(StorageCommand::SavePublicKey(data("*"))),
        StorageAction::Refuse(StorageError::EncryptionError(_))
    ));
}

#[test]
fn a_registered_key_is_found_again() {
    let mut w = StorageWorker::new(vec![7u8; 32]);
    let mut nonces = Vec::new();
    for _ in 0..2 {
        match w.handle(StorageCommand::SavePublicKey(data("aGVsbG8="))) {
            StorageAction::UpsertKey(row) => {
                assert_eq!(w.read_key(&row).unwrap().ok().unwrap(), "aGVsbG8=");
                nonces.push(row.nonce);
            }
            _ => panic!("not stored"),
        }
    }
    assert_ne!(nonces[0], nonces[1]);
}

#[test]
fn the_key_saved_last_is_found() {
    let mut w = StorageWorker::new(vec![7u8; 32]);
    let mut table: Vec<SealedKey> = Vec::new();
    for (client, key) in [("a", "AAAA"), ("b", "AQID"), ("a", "BAUG"), ("a", "*")] {
        let data = PublicKeyData { client_id: client.to_string(), public_key: key.to_string() };
        if let StorageAction::UpsertKey(row) = w.handle(StorageCommand::SavePublicKey(data)) {
            table.retain(|r| r.client_id != row.client_id);
            table.push(row);
        }
    }
    let mut found = |client: &str| {
        let at = table.iter().position(|r| r.client_id == client);
        w.find_key(&at.map(|i| table.remove(i))).unwrap().ok().unwrap()
    };
    assert_eq!(found("a"), Some("BAUG".to_string()));
    assert_eq!(found("b"), Some("AQID".to_string()));
    assert_eq!(found("c"), None);
}
