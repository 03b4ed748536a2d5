use many::client::{async_token_of, AsyncPoll, ManyClient, PollOutcome};
use many::cose::CoseKeyIdentity;
use many::error::{CODE_NON_WEBAUTHN_REQUEST_DENIED, CODE_SENDER_CANNOT_BE_ANONYMOUS,
    CODE_UNKNOWN_METHOD};
use many::identity::Identity;
use many::module::{ArgShape, CallResult, EndpointDecl, EndpointManyAttribute, ManyModule,
    ManyModuleInfo, ModuleBackend};
use many::server::{simple_server, ManyServer, Status};

fn server_key() -> CoseKeyIdentity {
    CoseKeyIdentity::from_secret_key(vec![2u8; 32]).unwrap()
}

fn anonymous_client(server_identity: Identity) -> ManyClient {
    ManyClient::new(server_identity, CoseKeyIdentity::anonymous())
}

/// A backend that records whether it was reached and answers each call
/// with fixed bytes or the async marker.
struct TestBackend {
    reached: bool,
    go_async: bool,
}

impl ModuleBackend for TestBackend {
    fn call(
        &mut self,
        _index: usize,
        _sender: &Identity,
        _data: &Vec<u8>,
    ) -> Result<CallResult, many::error::ManyError> {
        self.reached = true;
        if self.go_async {
            Ok(CallResult::Async(vec![0x63, b'y', b'e', b's']))
        } else {
            Ok(CallResult::Bytes(vec![0x01]))
        }
    }
}

fn test_module(deny_anonymous: bool, check_webauthn: bool, go_async: bool) -> ManyModule<
    TestBackend,
> {
    let flags = EndpointManyAttribute {
        deny_anonymous: if deny_anonymous { Some(true) } else { None },
        check_webauthn: if check_webauthn { Some(true) } else { None },
    };
    let method = b"compute".to_vec();
    let mut endpoints = Vec::new();
    endpoints.push(EndpointDecl::new(None, &method, &flags, ArgShape::Raw));
    ManyModule {
        info: ManyModuleInfo { name: b"Test".to_vec(), attribute: None, endpoints },
        backend: TestBackend { reached: false, go_async },
    }
}

#[test]
fn status_of_simple_server() {
    let key = server_key();
    let server_identity = key.identity.dup();
    let mut server = simple_server(b"test".to_vec(), key, b"1".to_vec());
    let client = anonymous_client(server_identity);
    let env = client.call_envelope("status", Vec::new(), 10, Some(1));
    let resp_bytes = server.handle(&env, 10);
    let resp = client.process_response(&resp_bytes).unwrap();
    let payload = resp.data.unwrap();
    // The status answer names the server and advertises the base
    // attribute only.
    let status = server.status();
    assert_eq!(status.name, b"test".to_vec());
    assert_eq!(status.attributes, vec![0u32]);
    let expected = Status {
        name: b"test".to_vec(),
        public_key: status.public_key.clone(),
        identity: status.identity.dup(),
        attributes: vec![0u32],
        server_version: b"1".to_vec(),
        protocol_version: 1,
    };
    assert_eq!(payload, expected.to_bytes());
    assert_eq!(resp.id, Some(1));
}

#[test]
fn echo_returns_payload() {
    let key = server_key();
    let server_identity = key.identity.dup();
    let mut server = simple_server(b"test".to_vec(), key, b"1".to_vec());
    let client = anonymous_client(server_identity);
    let payload = vec![0x63, b'f', b'o', b'o'];
    let env = client.call_envelope("echo", payload.clone(), 11, Some(2));
    let resp_bytes = server.handle(&env, 11);
    let resp = client.process_response(&resp_bytes).unwrap();
    assert_eq!(resp.data.unwrap(), payload);
}

#[test]
fn unknown_method_never_reaches_backend() {
    let key = server_key();
    let server_identity = key.identity.dup();
    let module = test_module(false, false, false);
    let mut server =
        ManyServer::new(b"test".to_vec(), key, b"1".to_vec(), Some(module), false).unwrap();
    let client = anonymous_client(server_identity);
    let env = client.call_envelope("nothing.here", Vec::new(), 12, None);
    let resp_bytes = server.handle(&env, 12);
    let resp = client.process_response(&resp_bytes).unwrap();
    let err = resp.data.unwrap_err();
    assert_eq!(err.code, CODE_UNKNOWN_METHOD);
    assert!(!server.module.as_ref().unwrap().backend.reached);
}

#[test]
fn anonymous_request_denied_without_backend() {
    let key = server_key();
    let server_identity = key.identity.dup();
    let module = test_module(true, false, false);
    let mut server =
        ManyServer::new(b"test".to_vec(), key, b"1".to_vec(), Some(module), false).unwrap();
    let client = anonymous_client(server_identity);
    let env = client.call_envelope("compute", Vec::new(), 13, None);
    let resp_bytes = server.handle(&env, 13);
    let resp = client.process_response(&resp_bytes).unwrap();
    let err = resp.data.unwrap_err();
    assert_eq!(err.code, CODE_SENDER_CANNOT_BE_ANONYMOUS);
    assert!(!server.module.as_ref().unwrap().backend.reached);
}

#[test]
fn signed_request_passes_anonymity_policy() {
    let server_key = server_key();
    let server_identity = server_key.identity.dup();
    let module = test_module(true, false, false);
    let mut server =
        ManyServer::new(b"test".to_vec(), server_key, b"1".to_vec(), Some(module), false).unwrap();
    let user = CoseKeyIdentity::from_secret_key(vec![3u8; 32]).unwrap();
    let client = ManyClient::new(server_identity, user);
    let env = client.call_envelope("compute", Vec::new(), 14, None);
    let resp_bytes = server.handle(&env, 14);
    let resp = client.process_response(&resp_bytes).unwrap();
    assert_eq!(resp.data.unwrap(), vec![0x01]);
    assert!(server.module.as_ref().unwrap().backend.reached);
}

#[test]
fn webauthn_policy() {
    let key = server_key();
    let module = test_module(false, true, false);
    let mut server =
        ManyServer::new(b"test".to_vec(), key, b"1".to_vec(), Some(module), false).unwrap();
    let msg = many::message::RequestMessage {
        version: 1,
        from: Identity::anonymous(),
        to: server.key.identity.dup(),
        method: b"compute".to_vec(),
        data: Vec::new(),
        timestamp: 15,
        id: None,
        nonce: None,
        attributes: vec![],
    };
    // Without the webauthn label the call is denied before the backend.
    let resp = server.handle_message(&msg, false, 15);
    assert_eq!(resp.data.unwrap_err().code, CODE_NON_WEBAUTHN_REQUEST_DENIED);
    assert!(!server.module.as_ref().unwrap().backend.reached);
    // With the label present the call is admitted.
    let resp = server.handle_message(&msg, true, 15);
    assert_eq!(resp.data.unwrap(), vec![0x01]);
    assert!(server.module.as_ref().unwrap().backend.reached);
}

#[test]
fn async_roundtrip() {
    let key = server_key();
    let server_identity = key.identity.dup();
    let module = test_module(false, false, true);
    let mut server =
        ManyServer::new(b"test".to_vec(), key, b"1".to_vec(), Some(module), true).unwrap();
    let client = anonymous_client(server_identity);
    let env = client.call_envelope("compute", Vec::new(), 20, Some(5));
    let resp_bytes = server.handle(&env, 20);
    let resp = client.process_response(&resp_bytes).unwrap();
    // The response carries an async token and an empty payload.
    let token = async_token_of(&resp).expect("async token expected");
    // Poll the async.status endpoint.
    let mut arg = Vec::new();
    many::cbor::write_map_head(&mut arg, 1);
    many::cbor::write_uint(&mut arg, 0);
    many::cbor::write_bytes(&mut arg, &token);
    let env2 = client.call_envelope("async.status", arg, 21, Some(6));
    let resp2_bytes = server.handle(&env2, 21);
    let resp2 = client.process_response(&resp2_bytes).unwrap();
    let status_payload = resp2.data.unwrap();
    let mut poll = AsyncPoll::new(token, 60);
    match poll.step(&status_payload) {
        PollOutcome::Done(inner) => {
            assert_eq!(inner.data.unwrap(), vec![0x63, b'y', b'e', b's']);
            assert_eq!(inner.id, Some(5));
        },
        _ => panic!("expected the eventual response"),
    }
}

#[test]
fn async_token_expires() {
    let key = server_key();
    let server_identity = key.identity.dup();
    let module = test_module(false, false, true);
    let mut server =
        ManyServer::new(b"test".to_vec(), key, b"1".to_vec(), Some(module), true).unwrap();
    let client = anonymous_client(server_identity);
    let env = client.call_envelope("compute", Vec::new(), 30, None);
    let resp_bytes = server.handle(&env, 30);
    let resp = client.process_response(&resp_bytes).unwrap();
    let token = async_token_of(&resp).unwrap();
    let mut arg = Vec::new();
    many::cbor::write_map_head(&mut arg, 1);
    many::cbor::write_uint(&mut arg, 0);
    many::cbor::write_bytes(&mut arg, &token);
    // Query far past the time to live: the token expires.
    let env2 = client.call_envelope("async.status", arg, 1000, None);
    let resp2_bytes = server.handle(&env2, 1000);
    let resp2 = client.process_response(&resp2_bytes).unwrap();
    let status_payload = resp2.data.unwrap();
    let mut poll = AsyncPoll::new(token, 60);
    match poll.step(&status_payload) {
        PollOutcome::Expired => {},
        _ => panic!("expected expiry"),
    }
}

#[test]
fn poll_budget_exhausts() {
    // A queued answer decrements the budget; at zero the poll times out.
    let queued = {
        let mut b = Vec::new();
        many::cbor::write_map_head(&mut b, 1);
        many::cbor::write_uint(&mut b, 0);
        many::cbor::write_uint(&mut b, 1);
        b
    };
    let mut poll = AsyncPoll::new(vec![1, 2, 3], 2);
    assert!(matches!(poll.step(&queued), PollOutcome::Continue));
    assert!(matches!(poll.step(&queued), PollOutcome::Continue));
    assert!(matches!(poll.step(&queued), PollOutcome::TimedOut));
}

#[test]
fn endpoints_sorted() {
    let key = server_key();
    let module = test_module(false, false, false);
    let server =
        ManyServer::new(b"test".to_vec(), key, b"1".to_vec(), Some(module), true).unwrap();
    let names = server.endpoints();
    let expected: Vec<Vec<u8>> = vec![
        b"async.status".to_vec(),
        b"compute".to_vec(),
        b"echo".to_vec(),
        b"endpoints".to_vec(),
        b"status".to_vec(),
    ];
    assert_eq!(names, expected);
}
