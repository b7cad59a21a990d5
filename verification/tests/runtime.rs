use balius::json::{render_reply, reply_to_json};
use balius::protocol::{copy_bytes, same_bytes};
use balius::runtime::request_response;
use balius::{
    Block, Event, EventPattern, Response, Runtime, RuntimeError, Target, Tx, TxOutput,
    UtxoPattern,
};

fn address(fill: u8) -> Vec<u8> {
    let mut address = vec![0x61];
    address.extend(vec![fill; 28]);
    address
}

fn output(fill: u8, encoded: Vec<u8>) -> TxOutput {
    TxOutput { address: address(fill), encoded }
}

fn subscribe(runtime: &mut Runtime, worker: &str, channel: u32, fill: u8) {
    let pattern = EventPattern::Utxo(UtxoPattern { address: Some(address(fill)), token: None });
    runtime.register_channel(worker, channel, &pattern);
}

fn target(worker: &str, channel: u32) -> Target {
    Target { channel, worker: worker.to_string() }
}

fn object(field: &str, value: serde_json::Value) -> serde_json::Value {
    let mut object = serde_json::Map::new();
    object.insert(field.to_string(), value);
    serde_json::Value::Object(object)
}

fn numbers(bytes: &[u8]) -> serde_json::Value {
    serde_json::Value::Array(bytes.iter().map(|b| serde_json::Value::from(*b)).collect())
}

#[test]
fn block_with_one_output_for_one_subscriber() {
    let mut runtime = Runtime::new();
    subscribe(&mut runtime, "worker", 4, 0x10);
    let block = Block { txs: vec![Tx { outputs: vec![output(0x10, vec![1, 2, 3])] }] };

    let run = runtime.apply_block(&block, 0);
    let (to, event) = run.pending().unwrap();
    assert_eq!(to, &target("worker", 4));
    assert_eq!(event, &Event::Utxo(vec![1, 2, 3]));

    let run = run.fire_and_forget(Ok(Response::Acknowledge)).unwrap();
    assert!(run.pending().is_none());
    assert!(run.finish().is_ok());
}

#[test]
fn component_failure_does_not_stop_the_other_target() {
    let mut runtime = Runtime::new();
    subscribe(&mut runtime, "alice", 1, 0x20);
    subscribe(&mut runtime, "bob", 2, 0x20);
    let block = Block { txs: vec![Tx { outputs: vec![output(0x20, vec![9])] }] };

    let run = runtime.apply_block(&block, 7);
    let first = run.pending().unwrap().0.clone();
    let run = run.fire_and_forget(Err(RuntimeError::Handle(3, "cannot".to_string()))).unwrap();

    let (second, event) = run.pending().unwrap();
    assert_eq!(event, &Event::Utxo(vec![9]));
    assert_ne!(second, &first);
    let mut seen = vec![first, second.clone()];
    seen.sort_by(|a, b| a.worker.cmp(&b.worker));
    assert_eq!(seen, vec![target("alice", 1), target("bob", 2)]);

    let run = run.fire_and_forget(Ok(Response::Acknowledge)).unwrap();
    assert!(run.pending().is_none());
    assert!(run.finish().is_ok());
}

#[test]
fn unexpected_data_does_not_stop_the_block() {
    let mut runtime = Runtime::new();
    subscribe(&mut runtime, "alice", 1, 0x21);
    let block = Block {
        txs: vec![Tx { outputs: vec![output(0x21, vec![1]), output(0x21, vec![2])] }],
    };
    let run = runtime.apply_block(&block, 0);
    let run = run.fire_and_forget(Ok(Response::Json(vec![b'1']))).unwrap();
    assert_eq!(run.pending().unwrap().1, &Event::Utxo(vec![2]));
    let run = run.fire_and_forget(Ok(Response::Cbor(vec![1]))).unwrap();
    let run = match run.pending() {
        Some(_) => panic!("both outputs were delivered"),
        None => run,
    };
    assert!(run.finish().is_ok());
}

#[test]
fn host_failure_stops_the_block() {
    let mut runtime = Runtime::new();
    subscribe(&mut runtime, "alice", 1, 0x22);
    subscribe(&mut runtime, "bob", 2, 0x22);
    let block = Block { txs: vec![Tx { outputs: vec![output(0x22, vec![9])] }] };

    let run = runtime.apply_block(&block, 0);
    let outcome = run.fire_and_forget(Err(RuntimeError::WorkerNotFound("alice".to_string())));
    match outcome {
        Err(RuntimeError::WorkerNotFound(id)) => assert_eq!(id, "alice"),
        other => panic!("the failure must come back as it went in, got {:?}", other),
    }

    let run = runtime.apply_block(&block, 0);
    let outcome = run.fire_and_forget(Err(RuntimeError::Ledger("down".to_string())));
    match outcome {
        Err(RuntimeError::Ledger(message)) => assert_eq!(message, "down"),
        other => panic!("the failure must come back as it went in, got {:?}", other),
    }

    let run = runtime.apply_block(&block, 0);
    let outcome = run.fire_and_forget(Err(RuntimeError::Wasm(wasmtime::Error::msg("trap"))));
    match outcome {
        Err(RuntimeError::Wasm(inner)) => assert_eq!(inner.to_string(), "trap"),
        other => panic!("the failure must come back as it went in, got {:?}", other),
    }
}

#[test]
fn outputs_are_delivered_in_their_order() {
    let mut runtime = Runtime::new();
    subscribe(&mut runtime, "alice", 1, 0x30);
    subscribe(&mut runtime, "bob", 2, 0x31);
    let block = Block {
        txs: vec![
            Tx { outputs: vec![output(0x31, vec![1]), output(0x99, vec![2])] },
            Tx { outputs: vec![] },
            Tx { outputs: vec![output(0x30, vec![3]), output(0x31, vec![4])] },
        ],
    };
    let mut run = runtime.apply_block(&block, 0);
    let mut seen = Vec::new();
    loop {
        let next = match run.pending() {
            Some((to, event)) => (to.clone(), event.clone()),
            None => break,
        };
        seen.push(next);
        run = run.fire_and_forget(Ok(Response::Acknowledge)).unwrap();
    }
    assert_eq!(
        seen,
        vec![
            (target("bob", 2), Event::Utxo(vec![1])),
            (target("alice", 1), Event::Utxo(vec![3])),
            (target("bob", 2), Event::Utxo(vec![4])),
        ]
    );
    assert!(run.finish().is_ok());
}

#[test]
fn block_without_subscribers_delivers_nothing() {
    let runtime = Runtime::new();
    let block = Block { txs: vec![Tx { outputs: vec![output(0x40, vec![1])] }] };
    let run = runtime.apply_block(&block, 0);
    assert!(run.pending().is_none());
    assert!(run.finish().is_ok());

    let run = runtime.apply_block(&Block { txs: vec![] }, 0);
    assert!(run.pending().is_none());
    assert!(run.finish().is_ok());
}

#[test]
fn bad_address_fails_the_block() {
    let mut runtime = Runtime::new();
    subscribe(&mut runtime, "alice", 1, 0x50);
    let bad = TxOutput { address: vec![0x90], encoded: vec![7] };
    let block = Block {
        txs: vec![Tx { outputs: vec![output(0x50, vec![1]), bad, output(0x50, vec![3])] }],
    };
    let run = runtime.apply_block(&block, 0);
    // the output before the bad one is still delivered
    assert_eq!(run.pending().unwrap().1, &Event::Utxo(vec![1]));
    let run = run.fire_and_forget(Ok(Response::Acknowledge)).unwrap();
    // nothing behind it is
    assert!(run.pending().is_none());
    assert!(matches!(run.finish(), Err(RuntimeError::BadAddress(_))));
}

#[test]
fn bad_address_fails_a_block_that_nobody_subscribed_to() {
    let runtime = Runtime::new();
    let bad = TxOutput { address: vec![], encoded: vec![7] };
    let block = Block { txs: vec![Tx { outputs: vec![bad] }] };
    let run = runtime.apply_block(&block, 0);
    assert!(run.pending().is_none());
    assert!(matches!(run.finish(), Err(RuntimeError::BadAddress(_))));
}

#[test]
fn undo_block_does_nothing() {
    let mut runtime = Runtime::new();
    subscribe(&mut runtime, "alice", 1, 0x60);
    let block = Block { txs: vec![Tx { outputs: vec![output(0x60, vec![1])] }] };
    assert!(runtime.undo_block(&block, 3).is_ok());
}

#[test]
fn cursor_hands_on_what_the_store_says() {
    let runtime = Runtime::new();
    assert!(matches!(runtime.cursor(Ok(Some(42))), Ok(Some(42))));
    assert!(matches!(runtime.cursor(Ok(None)), Ok(None)));
    match runtime.cursor(Err(RuntimeError::Ledger("gone".to_string()))) {
        Err(RuntimeError::Ledger(message)) => assert_eq!(message, "gone"),
        other => panic!("the failure must come back as it went in, got {:?}", other),
    }
}

#[test]
fn request_is_built_for_its_one_target() {
    let mut runtime = Runtime::new();
    runtime.register_channel("worker", 9, &EventPattern::Request("balance".to_string()));
    let params = object("account", serde_json::Value::from(12));
    let delivery = runtime.handle_request("worker", "balance", params).unwrap();
    assert_eq!(delivery.target, target("worker", 9));
    assert_eq!(delivery.event, Event::Request(b"{\"account\":12}".to_vec()));
}

#[test]
fn request_without_target_fails() {
    let mut runtime = Runtime::new();
    let found = runtime.handle_request("worker", "balance", serde_json::Value::Null);
    assert!(matches!(found, Err(RuntimeError::NoTarget)));

    runtime.register_channel("worker", 1, &EventPattern::Request("balance".to_string()));
    runtime.register_channel("worker", 2, &EventPattern::Request("balance".to_string()));
    let found = runtime.handle_request("worker", "balance", serde_json::Value::Null);
    assert!(matches!(found, Err(RuntimeError::AmbiguousTarget)));
}

#[test]
fn request_failure_reaches_the_caller_as_it_came() {
    let reply = Err(RuntimeError::Handle(17, "insufficient funds".to_string()));
    match request_response(reply) {
        Err(RuntimeError::Handle(code, message)) => {
            assert_eq!(code, 17);
            assert_eq!(message, "insufficient funds");
        }
        other => panic!("the failure must come back as it went in, got {:?}", other),
    }
    match request_response(Err(RuntimeError::WorkerNotFound("w".to_string()))) {
        Err(RuntimeError::WorkerNotFound(id)) => assert_eq!(id, "w"),
        other => panic!("the failure must come back as it went in, got {:?}", other),
    }
}

#[test]
fn replies_become_json() {
    let empty = serde_json::Value::Object(serde_json::Map::new());
    assert_eq!(request_response(Ok(Response::Acknowledge)).unwrap(), Some(empty));

    let document = b" {\"balance\": [1, 2.5, \"x\"]} ".to_vec();
    let expected: serde_json::Value = serde_json::from_slice(&document).unwrap();
    assert_eq!(request_response(Ok(Response::Json(document))).unwrap(), Some(expected));

    let bytes = vec![0, 7, 10, 99, 100, 255];
    assert_eq!(
        request_response(Ok(Response::Cbor(bytes.clone()))).unwrap(),
        Some(object("cbor", numbers(&bytes)))
    );
    assert_eq!(
        request_response(Ok(Response::PartialTx(bytes.clone()))).unwrap(),
        Some(object("tx", numbers(&bytes)))
    );
    assert_eq!(
        request_response(Ok(Response::Cbor(vec![]))).unwrap(),
        Some(object("cbor", numbers(&[])))
    );
}

#[test]
fn reply_that_is_no_json_has_no_value() {
    assert_eq!(request_response(Ok(Response::Json(b"{oops".to_vec()))).unwrap(), None);
    assert_eq!(reply_to_json(&Response::Json(vec![])), None);
    assert_eq!(
        reply_to_json(&Response::Json(b"true".to_vec())),
        Some(serde_json::Value::Bool(true))
    );
}

#[test]
fn reply_documents() {
    assert_eq!(render_reply(&Response::Acknowledge), b"{}".to_vec());
    assert_eq!(render_reply(&Response::Json(b"[1, 2]".to_vec())), b"[1, 2]".to_vec());
    assert_eq!(
        render_reply(&Response::Cbor(vec![0, 9, 10, 99, 100, 199, 200, 255])),
        b"{\"cbor\":[0,9,10,99,100,199,200,255]}".to_vec()
    );
    assert_eq!(render_reply(&Response::Cbor(vec![])), b"{\"cbor\":[]}".to_vec());
    assert_eq!(render_reply(&Response::PartialTx(vec![42])), b"{\"tx\":[42]}".to_vec());
    assert_eq!(
        render_reply(&Response::PartialTx(vec![1, 20, 101])),
        b"{\"tx\":[1,20,101]}".to_vec()
    );
}

#[test]
fn every_byte_is_written_as_its_number() {
    for byte in 0..=255u8 {
        let text = render_reply(&Response::Cbor(vec![byte]));
        assert_eq!(text, format!("{{\"cbor\":[{}]}}", byte).into_bytes());
    }
}

#[test]
fn outside_failures_become_runtime_failures() {
    let failure = RuntimeError::from(wasmtime::Error::msg("trap"));
    assert!(matches!(failure, RuntimeError::Wasm(_)));
    let failure = RuntimeError::from(redb::Error::TableDoesNotExist("cursors".to_string()));
    assert!(matches!(failure, RuntimeError::Store(redb::Error::TableDoesNotExist(_))));
    let failure = RuntimeError::from(pallas::ledger::addresses::Error::MissingHeader);
    assert!(matches!(
        failure,
        RuntimeError::BadAddress(pallas::ledger::addresses::Error::MissingHeader)
    ));
}

#[test]
fn bad_address_comes_with_its_cause() {
    let runtime = Runtime::new();
    let bad = TxOutput { address: vec![0x90, 0x01], encoded: vec![] };
    let found = runtime.router().find_utxo_targets(&bad);
    assert!(matches!(
        found,
        Err(RuntimeError::BadAddress(pallas::ledger::addresses::Error::InvalidHeader(0x90)))
    ));
    let block = Block { txs: vec![Tx { outputs: vec![bad] }] };
    assert!(matches!(
        runtime.apply_block(&block, 0).finish(),
        Err(RuntimeError::BadAddress(pallas::ledger::addresses::Error::InvalidHeader(0x90)))
    ));
}

#[test]
fn chain_point_holds_slot_and_hash() {
    let hash = pallas::crypto::hash::Hash::<32>::new([7u8; 32]);
    let point = balius::ChainPoint(42, hash);
    assert_eq!(point, balius::ChainPoint(42, hash));
    assert_ne!(point, balius::ChainPoint(43, hash));
    assert_eq!(point.0, 42);
}

#[test]
fn registration_through_the_runtime_reaches_its_router() {
    let mut runtime = Runtime::new();
    runtime.register_channel("worker", 3, &EventPattern::Request("m".to_string()));
    let found = runtime.router().find_request_target("worker", "m").unwrap();
    assert_eq!(found, target("worker", 3));
}

#[test]
fn events_and_bytes_are_copied_as_they_are() {
    assert_eq!(copy_bytes(&vec![1, 2, 3]), vec![1, 2, 3]);
    assert_eq!(copy_bytes(&vec![]), Vec::<u8>::new());
    assert!(same_bytes(&vec![1, 2], &vec![1, 2]));
    assert!(same_bytes(&vec![], &vec![]));
    assert!(!same_bytes(&vec![1, 2], &vec![1, 3]));
    assert!(!same_bytes(&vec![1, 2], &vec![1]));
    for event in [
        Event::Utxo(vec![1]),
        Event::UtxoUndo(vec![2, 3]),
        Event::Timer(9),
        Event::Request(vec![]),
        Event::Message(vec![4]),
    ] {
        assert_eq!(event.duplicate(), event);
    }
}
