use chainwatch_indexer::amount::Amount;
use chainwatch_indexer::config::ManualLabelConfig;
use chainwatch_indexer::entity::label_store::{EntityLabel, EntityLabelStore};
use chainwatch_indexer::entity::matcher::attribute_entities;
use chainwatch_indexer::entity::ofac::{
    ofac_entries_from_rows, parse_ofac_csv, seed_manual_labels, seed_ofac_entries, OfacEntry,
};
use chainwatch_indexer::indexer::types::StablecoinTransfer;
use chainwatch_indexer::onramp::matcher::attribute_onramp_transfers;
use chainwatch_indexer::onramp::registry::{ProviderWallet, ProviderWalletIndex, ProviderWalletInfo};

fn label(id: i32, address: u8, chain_id: Option<i64>, name: &str, kind: &str, source: &str) -> EntityLabel {
    EntityLabel {
        id,
        address: vec![address; 20],
        chain_id,
        entity_name: name.to_string(),
        entity_type: kind.to_string(),
        label_source: source.to_string(),
        confidence: 100,
    }
}

fn transfer(chain_id: i64, from: u8, to: u8, tx: u8) -> StablecoinTransfer {
    StablecoinTransfer {
        chain_id,
        block_number: 1,
        block_hash: vec![0xbb; 32],
        tx_hash: vec![tx; 32],
        log_index: tx as i32,
        token_address: vec![0xcc; 20],
        from_address: vec![from; 20],
        to_address: vec![to; 20],
        amount: Amount::from_u64(1),
        token_symbol: "USDC".to_string(),
        token_decimals: 6,
        block_timestamp: 100,
    }
}

fn ids(store: &EntityLabelStore) -> Vec<(i32, String)> {
    store.labels.iter().map(|l| (l.id, l.entity_type.clone())).collect()
}

#[test]
fn lookup_returns_all_labels_of_an_address_in_order() {
    let store = EntityLabelStore::from_rows(vec![
        label(1, 10, None, "Binance", "exchange", "config"),
        label(2, 20, Some(1), "Mixer", "mixer", "config"),
        label(3, 10, Some(5), "Binance 5", "exchange", "heuristic"),
    ]);
    let found: Vec<i32> = store.lookup(&[10; 20]).unwrap().iter().map(|l| l.id).collect();
    assert_eq!(found, [1, 3]);
    assert!(store.lookup(&[30; 20]).is_none());
    assert!(EntityLabelStore::new().lookup(&[10; 20]).is_none());
}

#[test]
fn sanctioned_goes_by_type_or_source() {
    let store = EntityLabelStore::from_rows(vec![
        label(1, 10, None, "A", "exchange", "config"),
        label(2, 10, None, "B", "sanctioned", "config"),
        label(3, 20, Some(7), "C", "mixer", "ofac_sdn"),
        label(4, 30, None, "D", "Sanctioned", "ofac"),
    ]);
    assert!(store.is_sanctioned(&[10; 20]));
    assert!(store.is_sanctioned(&[20; 20]));
    assert!(!store.is_sanctioned(&[30; 20]));
    assert!(!store.is_sanctioned(&[40; 20]));
    assert!(store.labels[1].marks_sanctioned() && !store.labels[0].marks_sanctioned());
    assert!(store.labels[2].applies_on(7) && !store.labels[2].applies_on(1));
    assert!(store.labels[0].applies_on(1) && store.labels[0].applies_on(7));
}

#[test]
fn seeding_twice_changes_nothing_more() {
    let mut once = EntityLabelStore::new();
    let mut twice = EntityLabelStore::new();
    for store in [&mut once, &mut twice] {
        store.seed_label(1, &[10; 20], None, "Lazarus", "sanctioned", "ofac_sdn", 100);
        store.seed_label(2, &[20; 20], Some(1), "Binance", "exchange", "seed_data", 100);
    }
    assert_eq!(twice.seed_label(1, &[10; 20], None, "Lazarus", "sanctioned", "ofac_sdn", 100), 1);
    twice.seed_label(2, &[20; 20], Some(1), "Binance", "exchange", "seed_data", 100);
    assert_eq!(format!("{:?}", once), format!("{:?}", twice));
    assert_eq!(twice.labels.len(), 2);
}

#[test]
fn seeding_replaces_by_identity_and_appends_otherwise() {
    let mut store = EntityLabelStore::new();
    store.seed_label(1, &[10; 20], None, "X", "exchange", "config", 50);
    store.seed_label(2, &[10; 20], Some(1), "X", "exchange", "config", 50);
    store.seed_label(3, &[10; 20], None, "X", "exchange", "other", 50);
    store.seed_label(4, &[10; 20], None, "Y", "exchange", "config", 50);
    store.seed_label(5, &[11; 20], None, "X", "exchange", "config", 50);
    assert_eq!(store.labels.len(), 5);
    store.seed_label(9, &[10; 20], Some(1), "X", "sanctioned", "config", 70);
    assert_eq!(
        ids(&store),
        [
            (1, "exchange".to_string()),
            (9, "sanctioned".to_string()),
            (3, "exchange".to_string()),
            (4, "exchange".to_string()),
            (5, "exchange".to_string()),
        ]
    );
    assert_eq!(store.labels[1].confidence, 70);
    store.insert_memory(label(7, 12, None, "Z", "bridge", "config"));
    assert_eq!(store.labels.len(), 6);
}

#[test]
fn attribution_honours_the_chain_scope() {
    let store = EntityLabelStore::from_rows(vec![
        label(1, 10, None, "Global", "exchange", "config"),
        label(2, 10, Some(1), "On one", "exchange", "config"),
        label(3, 10, Some(2), "On two", "exchange", "config"),
        label(4, 20, Some(2), "Receiver on two", "bridge", "config"),
    ]);
    let batch = [transfer(1, 10, 20, 1), transfer(2, 20, 10, 2), transfer(1, 30, 40, 3)];
    let flags = attribute_entities(&batch, &store);
    let got: Vec<_> = flags
        .iter()
        .map(|f| (f.tx_hash[0], f.log_index, f.chain_id, f.entity_label_id, f.side.clone()))
        .collect();
    assert_eq!(
        got,
        [
            (1, 1, 1, 1, "from".to_string()),
            (1, 1, 1, 2, "from".to_string()),
            (2, 2, 2, 4, "from".to_string()),
            (2, 2, 2, 1, "to".to_string()),
            (2, 2, 2, 3, "to".to_string()),
        ]
    );
    assert!(attribute_entities(&[], &store).is_empty());
    assert!(attribute_entities(&batch, &EntityLabelStore::new()).is_empty());
}

const ADDR_A: &str = "0x098B716B8Aaf21512996dC57EB0615e2383E2f96";
const ADDR_B: &str = "0xa0e1c89Ef1a489c9C7dE96311eD5Ce5D32c20E4B";
const ADDR_C: &str = "0x3Cffd56B47B7b41c56258D9C7731ABaDc360E073";

fn brief(entries: &[OfacEntry]) -> Vec<(String, String, String, Vec<String>)> {
    entries
        .iter()
        .map(|e| (e.sdn_id.clone(), e.entity_name.clone(), e.program.clone(), e.addresses.clone()))
        .collect()
}

#[test]
fn ofac_csv_groups_rows_by_sdn_id() {
    let text = format!(
        "sdn_id,entity_name,program,address\n\
         1001, Lazarus Group ,DPRK3, {a} \n\
         1002,Tornado Cash,CYBER2,{b}\n\
         1001,Other Name,OTHER,{c}\n\
         1003,No Address,SDGT\n\
         1004,Bitcoin Only,SDGT,bc1qxyz\n\
         1005,Empty,SDGT,\n\
         1002,\"Tornado, again\",CYBER2,0xshort,extra,columns\n",
        a = ADDR_A,
        b = ADDR_B,
        c = ADDR_C
    );
    let entries = parse_ofac_csv(&text).unwrap();
    assert_eq!(
        brief(&entries),
        [
            (
                "1001".to_string(),
                "Lazarus Group".to_string(),
                "DPRK3".to_string(),
                vec![ADDR_A.to_string(), ADDR_C.to_string()]
            ),
            (
                "1002".to_string(),
                "Tornado Cash".to_string(),
                "CYBER2".to_string(),
                vec![ADDR_B.to_string(), "0xshort".to_string()]
            ),
        ]
    );
    assert!(parse_ofac_csv("sdn_id,entity_name,program,address\n").unwrap().is_empty());
    assert!(parse_ofac_csv("").unwrap().is_empty());
    let header_only_is_skipped = format!("1,A,P,{}\n", ADDR_A);
    assert!(parse_ofac_csv(&header_only_is_skipped).unwrap().is_empty());
}

#[test]
fn ofac_rows_are_trimmed_and_filtered() {
    let rows = vec![
        vec![" 7 ".to_string(), "\tName\n".to_string(), "P".to_string(), format!("  {}", ADDR_A)],
        vec!["7".to_string()],
        vec!["8".to_string(), "N".to_string(), "P".to_string(), "0X00".to_string()],
        vec!["8".to_string(), "N".to_string(), "P".to_string(), "0x".to_string()],
    ];
    let entries = ofac_entries_from_rows(&rows);
    assert_eq!(
        brief(&entries),
        [
            ("7".to_string(), "Name".to_string(), "P".to_string(), vec![ADDR_A.to_string()]),
            ("8".to_string(), "N".to_string(), "P".to_string(), vec!["0x".to_string()]),
        ]
    );
}

#[test]
fn ofac_entries_seed_sanctions_labels_for_valid_addresses() {
    let entries = vec![
        OfacEntry {
            sdn_id: "1001".to_string(),
            entity_name: "Lazarus Group".to_string(),
            program: "DPRK3".to_string(),
            addresses: vec![ADDR_A.to_string(), "0xshort".to_string(), ADDR_C.to_string()],
        },
        OfacEntry {
            sdn_id: "1002".to_string(),
            entity_name: "Nobody".to_string(),
            program: "X".to_string(),
            addresses: vec![],
        },
    ];
    let seeds = seed_ofac_entries(&entries);
    assert_eq!(seeds.len(), 2);
    assert_eq!(seeds[0].address, chainwatch_indexer::bytes::hex_to_bytes(ADDR_A).unwrap());
    assert_eq!(seeds[1].address, chainwatch_indexer::bytes::hex_to_bytes(ADDR_C).unwrap());
    for s in &seeds {
        assert_eq!(s.chain_id, None);
        assert_eq!(s.entity_name, "Lazarus Group");
        assert_eq!(s.entity_type, "sanctioned");
        assert_eq!(s.label_source, "ofac_sdn");
        assert_eq!(s.confidence, 100);
        assert_eq!(s.sdn, Some(("1001".to_string(), "DPRK3".to_string())));
    }
    let mut once = EntityLabelStore::new();
    let mut twice = EntityLabelStore::new();
    for (i, s) in seeds.iter().enumerate() {
        for store in [&mut once, &mut twice] {
            store.seed_label(i as i32, &s.address, s.chain_id, &s.entity_name, &s.entity_type, &s.label_source, s.confidence);
        }
    }
    for (i, s) in seed_ofac_entries(&entries).iter().enumerate() {
        twice.seed_label(i as i32, &s.address, s.chain_id, &s.entity_name, &s.entity_type, &s.label_source, s.confidence);
    }
    assert_eq!(format!("{:?}", once), format!("{:?}", twice));
    assert!(once.is_sanctioned(&seeds[0].address));
}

#[test]
fn manual_labels_skip_bad_addresses() {
    let labels = vec![
        ManualLabelConfig {
            address: ADDR_B.to_string(),
            chain_id: Some(1),
            entity_name: "Binance".to_string(),
            entity_type: "exchange".to_string(),
            confidence: 90,
            source: "config".to_string(),
        },
        ManualLabelConfig {
            address: "nonsense".to_string(),
            chain_id: None,
            entity_name: "Bad".to_string(),
            entity_type: "exchange".to_string(),
            confidence: 100,
            source: "config".to_string(),
        },
    ];
    let seeds = seed_manual_labels(&labels);
    assert_eq!(seeds.len(), 1);
    assert_eq!(seeds[0].address, chainwatch_indexer::bytes::hex_to_bytes(ADDR_B).unwrap());
    assert_eq!(seeds[0].chain_id, Some(1));
    assert_eq!(seeds[0].entity_name, "Binance");
    assert_eq!(seeds[0].entity_type, "exchange");
    assert_eq!(seeds[0].label_source, "config");
    assert_eq!(seeds[0].confidence, 90);
    assert_eq!(seeds[0].sdn, None);
}

fn provider_wallet(chain: &str, address: u8, provider_id: i32) -> ProviderWallet {
    ProviderWallet {
        chain_name: chain.to_string(),
        address: vec![address; 20],
        info: ProviderWalletInfo {
            provider_id,
            provider_name: format!("provider {}", provider_id),
            label: None,
        },
    }
}

#[test]
fn onramp_attribution_prefers_the_sender() {
    let index = ProviderWalletIndex::load_provider_wallet_index(vec![
        provider_wallet("ethereum", 10, 1),
        provider_wallet("ethereum", 20, 2),
        provider_wallet("polygon", 30, 3),
        provider_wallet("ethereum", 10, 4),
    ]);
    assert_eq!(index.get("ethereum", &[10; 20]).unwrap().provider_id, 1);
    assert!(index.get("polygon", &[10; 20]).is_none());
    let batch = [
        transfer(1, 10, 99, 1),
        transfer(1, 98, 20, 2),
        transfer(1, 10, 20, 3),
        transfer(1, 30, 31, 4),
        transfer(1, 20, 10, 5),
    ];
    let got: Vec<_> = attribute_onramp_transfers("ethereum", &batch, &index)
        .iter()
        .map(|a| (a.tx_hash[0], a.log_index, a.provider_id, a.direction.clone()))
        .collect();
    assert_eq!(
        got,
        [
            (1, 1, 1, "withdrawal".to_string()),
            (2, 2, 2, "deposit".to_string()),
            (3, 3, 1, "withdrawal".to_string()),
            (5, 5, 2, "withdrawal".to_string()),
        ]
    );
    let got = attribute_onramp_transfers("polygon", &batch, &index);
    assert_eq!(got.len(), 1);
    assert_eq!((got[0].provider_id, got[0].direction.as_str()), (3, "withdrawal"));
}
