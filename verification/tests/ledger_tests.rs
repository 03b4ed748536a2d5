use many::error::CODE_SYMBOL_NOT_FOUND;
use many::identity::Identity;
use many::ledger::{get_token_id, has_attribute, LedgerInfoReturns, LEDGER_MODULE_ATTRIBUTE_ID};

fn identity(n: u8) -> Identity {
    Identity::from_hash(vec![n; 28])
}

#[test]
fn get_token_id_resolves_symbol() {
    let info = LedgerInfoReturns { local_names: vec![(identity(100), b"XYZ".to_vec())] };
    let id = get_token_id(&info, "XYZ").unwrap();
    assert_eq!(id, identity(100));
}

#[test]
fn get_token_id_unknown_symbol() {
    let info = LedgerInfoReturns { local_names: vec![(identity(100), b"XYZ".to_vec())] };
    let err = get_token_id(&info, "ABC").unwrap_err();
    assert_eq!(err.code, CODE_SYMBOL_NOT_FOUND);
}

#[test]
fn ledger_attribute_check() {
    let attrs = vec![0u32, LEDGER_MODULE_ATTRIBUTE_ID];
    assert!(has_attribute(&attrs, LEDGER_MODULE_ATTRIBUTE_ID));
    assert!(!has_attribute(&vec![0u32], LEDGER_MODULE_ATTRIBUTE_ID));
}
