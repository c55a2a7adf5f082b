use nft_market::events::{EventLog, EventLogVariant, NftMintLog, NftTransferLog};

#[test]
fn nep_format_vector() {
    let expected = r#"EVENT_JSON:{"standard":"nep177","version":"2.0.0","event":"nft_mint","data":[{"owner_id":"bdrv7.testnet","token_ids":["test_token","abc"]},{"owner_id":"bdrv7.testnet","token_ids":["test_token_1"]}]}"#;
    let log = EventLog {
        standard: "nep177".to_string(),
        version: "2.0.0".to_string(),
        event: EventLogVariant::NftMint(vec![
            NftMintLog {
                owner_id: "bdrv7.testnet".to_owned(),
                token_ids: vec!["test_token".to_string(), "abc".to_string()],
                memo: None,
            },
            NftMintLog {
                owner_id: "bdrv7.testnet".to_owned(),
                token_ids: vec!["test_token_1".to_string()],
                memo: None,
            },
        ]),
    };
    assert_eq!(expected, log.to_string());
}

#[test]
fn nep_format_mint() {
    let expected = r#"EVENT_JSON:{"standard":"nep177","version":"2.0.0","event":"nft_mint","data":[{"owner_id":"bdrv7.testnet","token_ids":["test_token","abc"]}]}"#;
    let log = EventLog {
        standard: "nep177".to_string(),
        version: "2.0.0".to_string(),
        event: EventLogVariant::NftMint(vec![NftMintLog {
            owner_id: "bdrv7.testnet".to_owned(),
            token_ids: vec!["test_token".to_string(), "abc".to_string()],
            memo: None,
        }]),
    };
    assert_eq!(expected, log.to_string());
}

#[test]
fn nep_format_transfer_all_fields() {
    let expected = r#"EVENT_JSON:{"standard":"nep177","version":"2.0.0","event":"nft_transfer","data":[{"authorized_id":"market.bdrv7.testnet","old_owner_id":"old.bdrv7.testnet","new_owner_id":"new.bdrv7.testnet","token_ids":["test_token"],"memo":"test_memo"}]}"#;
    let log = EventLog {
        standard: "nep177".to_string(),
        version: "2.0.0".to_string(),
        event: EventLogVariant::NftTransfer(vec![NftTransferLog {
            authorized_id: Some("market.bdrv7.testnet".to_string()),
            old_owner_id: "old.bdrv7.testnet".to_string(),
            new_owner_id: "new.bdrv7.testnet".to_string(),
            token_ids: vec!["test_token".to_string()],
            memo: Some("test_memo".to_owned()),
        }]),
    };
    assert_eq!(expected, log.to_string());
}

#[test]
fn event_strings_are_escaped() {
    let log = EventLog {
        standard: "a\"b".to_string(),
        version: "1\\0".to_string(),
        event: EventLogVariant::NftMint(vec![]),
    };
    assert_eq!(
        r#"EVENT_JSON:{"standard":"a\"b","version":"1\\0","event":"nft_mint","data":[]}"#,
        log.to_string()
    );
}

#[test]
fn transfer_without_authorized_id_or_memo() {
    let log = EventLog {
        standard: "nep171".to_string(),
        version: "nft-1.0.0".to_string(),
        event: EventLogVariant::NftTransfer(vec![NftTransferLog {
            authorized_id: None,
            old_owner_id: "a".to_string(),
            new_owner_id: "b".to_string(),
            token_ids: vec![],
            memo: None,
        }]),
    };
    assert_eq!(
        r#"EVENT_JSON:{"standard":"nep171","version":"nft-1.0.0","event":"nft_transfer","data":[{"old_owner_id":"a","new_owner_id":"b","token_ids":[]}]}"#,
        log.to_string()
    );
}
