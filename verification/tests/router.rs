use balius::router::{infer_match_keys, MatchKey, Router, Target};
use balius::{EventPattern, RuntimeError, TokenPattern, TxOutput, UtxoPattern};

fn enterprise_address(fill: u8) -> Vec<u8> {
    let mut address = vec![0x61];
    address.extend(vec![fill; 28]);
    address
}

fn output_to(address: Vec<u8>) -> TxOutput {
    TxOutput { address, encoded: vec![0x82, 0x00] }
}

fn utxo_pattern(address: Vec<u8>) -> EventPattern {
    EventPattern::Utxo(UtxoPattern { address: Some(address), token: None })
}

#[test]
fn test_request_channel() {
    let mut router = Router::new();
    let worker = "test_worker";
    let method = "test_method";
    let channel = 1;

    router.register_channel(worker, channel, &EventPattern::Request(method.to_string()));

    let target = router.find_request_target(worker, method).unwrap();
    assert_eq!(target.worker, worker);
    assert_eq!(target.channel, channel);
}

#[test]
fn request_without_registration_has_no_target() {
    let router = Router::new();
    let found = router.find_request_target("worker", "method");
    assert!(matches!(found, Err(RuntimeError::NoTarget)));
}

#[test]
fn request_for_other_method_has_no_target() {
    let mut router = Router::new();
    router.register_channel("worker", 1, &EventPattern::Request("balance".to_string()));
    assert!(matches!(
        router.find_request_target("worker", "transfer"),
        Err(RuntimeError::NoTarget)
    ));
    assert!(matches!(
        router.find_request_target("other", "balance"),
        Err(RuntimeError::NoTarget)
    ));
}

#[test]
fn two_channels_for_one_request_are_ambiguous() {
    let mut router = Router::new();
    router.register_channel("worker", 1, &EventPattern::Request("balance".to_string()));
    router.register_channel("worker", 2, &EventPattern::Request("balance".to_string()));
    let found = router.find_request_target("worker", "balance");
    assert!(matches!(found, Err(RuntimeError::AmbiguousTarget)));
}

#[test]
fn registering_twice_keeps_one_target() {
    let mut router = Router::new();
    router.register_channel("worker", 7, &EventPattern::Request("balance".to_string()));
    router.register_channel("worker", 7, &EventPattern::Request("balance".to_string()));
    let target = router.find_request_target("worker", "balance").unwrap();
    assert_eq!(target, Target { channel: 7, worker: "worker".to_string() });

    let address = enterprise_address(0x11);
    router.register_channel("worker", 3, &utxo_pattern(address.clone()));
    router.register_channel("worker", 3, &utxo_pattern(address.clone()));
    let targets = router.find_utxo_targets(&output_to(address)).unwrap();
    assert_eq!(targets, vec![Target { channel: 3, worker: "worker".to_string() }]);
}

#[test]
fn workers_keep_their_own_request_routes() {
    let mut router = Router::new();
    router.register_channel("alice", 1, &EventPattern::Request("balance".to_string()));
    router.register_channel("bob", 2, &EventPattern::Request("balance".to_string()));
    let alice = router.find_request_target("alice", "balance").unwrap();
    let bob = router.find_request_target("bob", "balance").unwrap();
    assert_eq!(alice, Target { channel: 1, worker: "alice".to_string() });
    assert_eq!(bob, Target { channel: 2, worker: "bob".to_string() });
}

#[test]
fn utxo_without_subscribers_has_no_targets() {
    let mut router = Router::new();
    let found = router.find_utxo_targets(&output_to(enterprise_address(0x22)));
    assert_eq!(found.unwrap(), Vec::<Target>::new());

    router.register_channel("worker", 1, &utxo_pattern(enterprise_address(0x33)));
    let found = router.find_utxo_targets(&output_to(enterprise_address(0x22)));
    assert_eq!(found.unwrap(), Vec::<Target>::new());
}

#[test]
fn utxo_targets_are_all_subscribers_of_the_address() {
    let mut router = Router::new();
    let address = enterprise_address(0x44);
    router.register_channel("alice", 1, &utxo_pattern(address.clone()));
    router.register_channel("bob", 1, &utxo_pattern(address.clone()));
    router.register_channel("bob", 2, &utxo_pattern(enterprise_address(0x55)));
    let mut targets = router.find_utxo_targets(&output_to(address)).unwrap();
    targets.sort_by(|a, b| a.worker.cmp(&b.worker));
    assert_eq!(
        targets,
        vec![
            Target { channel: 1, worker: "alice".to_string() },
            Target { channel: 1, worker: "bob".to_string() },
        ]
    );
}

#[test]
fn utxo_with_bad_address_fails() {
    let mut router = Router::new();
    router.register_channel("worker", 1, &utxo_pattern(enterprise_address(0x66)));
    // no header byte at all
    let found = router.find_utxo_targets(&output_to(vec![]));
    assert!(matches!(found, Err(RuntimeError::BadAddress(_))));
    // a header that names no kind of address
    let found = router.find_utxo_targets(&output_to(vec![0x90, 1, 2, 3]));
    assert!(matches!(found, Err(RuntimeError::BadAddress(_))));
    // a payload too short for its kind
    let found = router.find_utxo_targets(&output_to(vec![0x61, 1, 2, 3]));
    assert!(matches!(found, Err(RuntimeError::BadAddress(_))));
}

#[test]
fn utxo_address_is_matched_in_its_canonical_bytes() {
    let mut router = Router::new();
    let address = enterprise_address(0x77);
    router.register_channel("worker", 5, &utxo_pattern(address.clone()));
    // the same address with bytes behind it that the decoder drops
    let mut padded = address.clone();
    padded.push(0xAA);
    padded.push(0xBB);
    let targets = router.find_utxo_targets(&output_to(padded)).unwrap();
    assert_eq!(targets, vec![Target { channel: 5, worker: "worker".to_string() }]);
}

#[test]
fn request_and_utxo_routes_do_not_mix() {
    let mut router = Router::new();
    let address = enterprise_address(0x01);
    router.register_channel("worker", 1, &EventPattern::Request("m".to_string()));
    router.register_channel("worker", 2, &utxo_pattern(address.clone()));
    assert_eq!(router.find_request_target("worker", "m").unwrap().channel, 1);
    let targets = router.find_utxo_targets(&output_to(address)).unwrap();
    assert_eq!(targets, vec![Target { channel: 2, worker: "worker".to_string() }]);
}

#[test]
fn match_keys_of_supported_patterns() {
    let keys = infer_match_keys("worker", &EventPattern::Request("balance".to_string()));
    assert_eq!(keys.len(), 1);
    match &keys[0] {
        MatchKey::RequestMethod(worker, method) => {
            assert_eq!(worker, "worker");
            assert_eq!(method, "balance");
        }
        MatchKey::UtxoAddress(_) => panic!("a request gives a request key"),
    }
    let keys = infer_match_keys("worker", &utxo_pattern(vec![1, 2, 3]));
    assert_eq!(keys.len(), 1);
    match &keys[0] {
        MatchKey::UtxoAddress(address) => assert_eq!(address, &vec![1, 2, 3]),
        MatchKey::RequestMethod(_, _) => panic!("an address gives an address key"),
    }
}

#[test]
fn match_key_comparison_and_copy() {
    let a = MatchKey::RequestMethod("w".to_string(), "m".to_string());
    let b = MatchKey::RequestMethod("w".to_string(), "n".to_string());
    let c = MatchKey::UtxoAddress(vec![1, 2]);
    assert!(a.same(&a.duplicate()));
    assert!(!a.same(&b));
    assert!(!a.same(&c));
    assert!(c.same(&MatchKey::UtxoAddress(vec![1, 2])));
    assert!(!c.same(&MatchKey::UtxoAddress(vec![1, 2, 3])));
    assert!(!c.same(&MatchKey::UtxoAddress(vec![1, 3])));
}

#[test]
fn target_comparison_and_copy() {
    let a = Target { channel: 1, worker: "w".to_string() };
    assert!(a.same(&a.duplicate()));
    assert_eq!(a.duplicate(), a);
    assert!(!a.same(&Target { channel: 2, worker: "w".to_string() }));
    assert!(!a.same(&Target { channel: 1, worker: "v".to_string() }));
}

#[test]
fn supported_patterns() {
    assert!(EventPattern::Request("m".to_string()).supported());
    assert!(utxo_pattern(vec![1]).supported());
    assert!(!EventPattern::Utxo(UtxoPattern { address: None, token: None }).supported());
    let token = TokenPattern { policy: vec![1], name: None };
    assert!(!EventPattern::Utxo(UtxoPattern { address: Some(vec![1]), token: Some(token) })
        .supported());
    assert!(!EventPattern::UtxoUndo(UtxoPattern { address: Some(vec![1]), token: None })
        .supported());
    assert!(!EventPattern::Timer(5).supported());
    assert!(!EventPattern::Message("topic".to_string()).supported());
}

#[test]
fn many_routes_are_all_found() {
    let mut router = Router::new();
    for n in 0..2000u32 {
        let method = format!("method-{}", n);
        router.register_channel("worker", n, &EventPattern::Request(method));
        let mut address = vec![0x61];
        address.extend(n.to_be_bytes());
        address.extend(vec![0u8; 24]);
        router.register_channel("worker", n, &utxo_pattern(address));
    }
    for n in 0..2000u32 {
        let method = format!("method-{}", n);
        let target = router.find_request_target("worker", &method).unwrap();
        assert_eq!(target, Target { channel: n, worker: "worker".to_string() });
        let mut address = vec![0x61];
        address.extend(n.to_be_bytes());
        address.extend(vec![0u8; 24]);
        let targets = router.find_utxo_targets(&output_to(address)).unwrap();
        assert_eq!(targets, vec![Target { channel: n, worker: "worker".to_string() }]);
    }
    assert!(matches!(
        router.find_request_target("worker", "method-2000"),
        Err(RuntimeError::NoTarget)
    ));
}

#[test]
fn worker_and_method_are_not_run_together() {
    let mut router = Router::new();
    router.register_channel("ab", 1, &EventPattern::Request("c".to_string()));
    assert!(matches!(router.find_request_target("a", "bc"), Err(RuntimeError::NoTarget)));
    assert!(matches!(router.find_request_target("abc", ""), Err(RuntimeError::NoTarget)));
    assert_eq!(router.find_request_target("ab", "c").unwrap().channel, 1);
}

#[test]
fn default_router_has_no_routes() {
    let router = Router::default();
    assert!(matches!(router.find_request_target("w", "m"), Err(RuntimeError::NoTarget)));
    assert!(router.find_utxo_targets(&output_to(enterprise_address(1))).unwrap().is_empty());
}
