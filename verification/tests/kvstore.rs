use many::error::ManyError;
use many::identity::Identity;
use many::kvstore::{kv_store_module, GetArgs, GetReturns, InfoArg, InfoReturns,
    KvStoreModuleBackend};
use many::message::RequestMessage;
use many::module::{CallResult, ManyModule, ModuleBackend};

fn identity(n: u8) -> Identity {
    Identity::from_hash(vec![n; 28])
}

struct MockKvStore {
    expect_sender: Identity,
    expect_info: Option<InfoArg>,
    expect_get: Option<GetArgs>,
    info_result: Option<InfoReturns>,
    get_result: Option<GetReturns>,
    calls: usize,
}

impl KvStoreModuleBackend for MockKvStore {
    fn info(&mut self, sender: &Identity, args: InfoArg) -> Result<InfoReturns, ManyError> {
        assert_eq!(*sender, self.expect_sender);
        assert_eq!(Some(args), self.expect_info.take());
        self.calls += 1;
        Ok(self.info_result.take().unwrap())
    }

    fn get(&mut self, sender: &Identity, args: GetArgs) -> Result<GetReturns, ManyError> {
        assert_eq!(*sender, self.expect_sender);
        assert_eq!(Some(args), self.expect_get.take());
        self.calls += 1;
        Ok(self.get_result.take().unwrap())
    }
}

fn call_module(
    sender: u8,
    module: &mut ManyModule<many::kvstore::KvStoreModule<MockKvStore>>,
    method: &str,
    data: Vec<u8>,
) -> Result<Vec<u8>, ManyError> {
    let msg = RequestMessage {
        version: 1,
        from: identity(sender),
        to: Identity::anonymous(),
        method: method.as_bytes().to_vec(),
        data,
        timestamp: 0,
        id: None,
        nonce: None,
        attributes: vec![],
    };
    module.validate(&msg, false)?;
    match module.execute(&msg)? {
        CallResult::Bytes(b) => Ok(b),
        CallResult::Async(_) => panic!("unexpected async result"),
    }
}

fn diag_null() -> Vec<u8> {
    // The CBOR encoding of the diagnostic value `null`.
    vec![0xF6]
}

#[test]
fn info() {
    let mock = MockKvStore {
        expect_sender: identity(1),
        expect_info: Some(InfoArg {}),
        expect_get: None,
        info_result: Some(InfoReturns { hash: vec![9u8; 8] }),
        get_result: None,
        calls: 0,
    };
    let mut module = kv_store_module(mock);
    let payload = call_module(1, &mut module, "kvstore.info", diag_null()).unwrap();
    let info_returns = InfoReturns::from_bytes(&payload).unwrap();
    assert_eq!(info_returns.hash, vec![9u8; 8]);
    assert_eq!(module.backend.backend.calls, 1);
}

#[test]
fn get() {
    let data = GetArgs { key: vec![5, 6, 7] };
    let mock = MockKvStore {
        expect_sender: identity(1),
        expect_info: None,
        expect_get: Some(data.clone()),
        info_result: None,
        get_result: Some(GetReturns { value: Some(vec![1, 2, 3, 4]) }),
        calls: 0,
    };
    let mut module = kv_store_module(mock);
    // Encode GetArgs as the {0: key} argument map.
    let mut arg = Vec::new();
    many::cbor::write_map_head(&mut arg, 1);
    many::cbor::write_uint(&mut arg, 0);
    many::cbor::write_bytes(&mut arg, &data.key);
    let payload = call_module(1, &mut module, "kvstore.get", arg).unwrap();
    let get_returns = GetReturns::from_bytes(&payload).unwrap();
    assert_eq!(get_returns.value, Some(vec![1, 2, 3, 4]));
    assert_eq!(module.backend.backend.calls, 1);
}
