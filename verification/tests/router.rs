use xcc_bridge::error::BridgeError;
use xcc_bridge::promise::{PromiseCreate, PromiseSpec};
use xcc_bridge::router::{into_action, OutboundAction, OutboundCall, RouterAccount, Scheduled};

const MAX_GAS: u64 = 300_000_000_000_000;

fn create(tag: u8) -> PromiseCreate {
    PromiseCreate {
        target_account: format!("target{}.near", tag),
        method: format!("method_{}", tag),
        args: vec![tag, tag + 1],
        attached_balance: tag as u128 * 1_000,
        attached_gas: tag as u64 * 10,
    }
}

fn call(tag: u8) -> OutboundCall {
    OutboundCall {
        receiver_id: format!("target{}.near", tag),
        method_name: format!("method_{}", tag),
        args: vec![tag, tag + 1],
        deposit: tag as u128 * 1_000,
        gas: tag as u64 * 10,
    }
}

fn initialized() -> RouterAccount {
    let mut router = RouterAccount::new();
    assert_eq!(router.initialize("wrap.near".to_string(), true), Ok(()));
    router
}

#[test]
fn a_new_account_is_uninitialized_and_empty() {
    let router = RouterAccount::new();
    assert!(!router.is_initialized());
    assert_eq!(router.next_nonce(), 0);
    assert_eq!(router.scheduled_len(), 0);
    assert_eq!(router.wnear_account(), "");
    assert!(!router.must_register());
}

#[test]
fn initialize_sets_the_configuration() {
    let mut router = RouterAccount::new();
    assert_eq!(router.initialize("wrap.near".to_string(), true), Ok(()));
    assert!(router.is_initialized());
    assert_eq!(router.wnear_account(), "wrap.near");
    assert!(router.must_register());
    assert_eq!(router.next_nonce(), 0);
    assert_eq!(router.scheduled_len(), 0);
}

#[test]
fn initialize_works_once() {
    let mut router = initialized();
    assert_eq!(
        router.initialize("other.near".to_string(), false),
        Err(BridgeError::AlreadyInitialized)
    );
    assert_eq!(router.wnear_account(), "wrap.near");
    assert!(router.must_register());
    assert_eq!(
        router.initialize("wrap.near".to_string(), true),
        Err(BridgeError::AlreadyInitialized)
    );
}

#[test]
fn nonces_start_at_zero_and_count_up() {
    let mut router = initialized();
    for expected in 0u64..25 {
        assert_eq!(router.next_nonce(), expected);
        let scheduled = router.schedule(PromiseSpec::Create(create(expected as u8)));
        assert_eq!(
            scheduled,
            Scheduled {
                nonce: expected,
                log: format!("Promise scheduled at nonce {}", expected),
            }
        );
        assert!(router.has_scheduled(expected));
        assert!(!router.has_scheduled(expected + 1));
        assert_eq!(router.scheduled_len(), expected as usize + 1);
    }
}

#[test]
fn nonces_are_not_reused_after_execution() {
    let mut router = initialized();
    assert_eq!(router.schedule(PromiseSpec::Create(create(1))).nonce, 0);
    assert!(router.execute_scheduled(0).is_ok());
    assert_eq!(router.schedule(PromiseSpec::Create(create(2))).nonce, 1);
    assert!(!router.has_scheduled(0));
    assert!(router.has_scheduled(1));
}

#[test]
fn execute_turns_a_create_into_one_call() {
    let router = initialized();
    let action = router.execute(PromiseSpec::Create(create(3)));
    assert_eq!(
        action,
        OutboundAction {
            call: call(3),
            callback: None
        }
    );
    assert_eq!(router.scheduled_len(), 0);
    assert_eq!(router.next_nonce(), 0);
}

#[test]
fn execute_chains_the_callback_behind_the_base() {
    let router = initialized();
    let action = router.execute(PromiseSpec::Callback {
        base: create(4),
        callback: create(5),
    });
    assert_eq!(
        action,
        OutboundAction {
            call: call(4),
            callback: Some(call(5))
        }
    );
    assert_eq!(
        into_action(PromiseSpec::Callback {
            base: create(4),
            callback: create(5),
        }),
        action
    );
}

#[test]
fn execute_scheduled_consumes_the_entry() {
    let mut router = initialized();
    router.schedule(PromiseSpec::Create(create(1)));
    router.schedule(PromiseSpec::Callback {
        base: create(2),
        callback: create(3),
    });
    router.schedule(PromiseSpec::Create(create(4)));

    assert_eq!(
        router.execute_scheduled(1),
        Ok(OutboundAction {
            call: call(2),
            callback: Some(call(3))
        })
    );
    assert_eq!(router.execute_scheduled(1), Err(BridgeError::NotFound));
    assert_eq!(router.scheduled_len(), 2);
    assert_eq!(router.next_nonce(), 3);

    assert_eq!(
        router.execute_scheduled(0),
        Ok(OutboundAction {
            call: call(1),
            callback: None
        })
    );
    assert_eq!(
        router.execute_scheduled(2),
        Ok(OutboundAction {
            call: call(4),
            callback: None
        })
    );
    assert_eq!(router.execute_scheduled(0), Err(BridgeError::NotFound));
    assert_eq!(router.execute_scheduled(2), Err(BridgeError::NotFound));
    assert_eq!(router.scheduled_len(), 0);
}

#[test]
fn execute_scheduled_of_an_unknown_nonce_is_not_found() {
    let mut router = initialized();
    assert_eq!(router.execute_scheduled(0), Err(BridgeError::NotFound));
    router.schedule(PromiseSpec::Create(create(1)));
    assert_eq!(router.execute_scheduled(1), Err(BridgeError::NotFound));
    assert_eq!(
        router.execute_scheduled(u64::MAX),
        Err(BridgeError::NotFound)
    );
    assert!(router.has_scheduled(0));
    assert_eq!(router.scheduled_len(), 1);
}

#[test]
fn execute_scheduled_text_reads_decimal_nonces() {
    let mut router = initialized();
    router.schedule(PromiseSpec::Create(create(1)));
    router.schedule(PromiseSpec::Create(create(2)));

    assert_eq!(
        router.execute_scheduled_text("nonce"),
        Err(BridgeError::MalformedInput)
    );
    assert_eq!(
        router.execute_scheduled_text(""),
        Err(BridgeError::MalformedInput)
    );
    assert_eq!(
        router.execute_scheduled_text("-1"),
        Err(BridgeError::MalformedInput)
    );
    assert_eq!(
        router.execute_scheduled_text("340282366920938463463374607431768211455"),
        Err(BridgeError::NotFound)
    );
    assert_eq!(router.scheduled_len(), 2);

    assert_eq!(
        router.execute_scheduled_text("1"),
        Ok(OutboundAction {
            call: call(2),
            callback: None
        })
    );
    assert_eq!(
        router.execute_scheduled_text("1"),
        Err(BridgeError::NotFound)
    );
    assert_eq!(
        router.execute_scheduled_text("000"),
        Ok(OutboundAction {
            call: call(1),
            callback: None
        })
    );
    assert_eq!(
        router.execute_scheduled_text("0"),
        Err(BridgeError::NotFound)
    );
}

#[test]
fn schedule_encoded_turns_down_malformed_input() {
    let mut router = initialized();
    let mut bytes = PromiseSpec::Create(create(1)).try_to_vec().unwrap();
    bytes.pop();
    assert_eq!(
        router.schedule_encoded(&bytes, MAX_GAS),
        Err(BridgeError::MalformedInput)
    );
    assert_eq!(router.next_nonce(), 0);
    assert_eq!(router.scheduled_len(), 0);

    let over = PromiseSpec::Create(create(9)).try_to_vec().unwrap();
    assert_eq!(
        router.schedule_encoded(&over, 89),
        Err(BridgeError::MalformedInput)
    );
    assert_eq!(router.next_nonce(), 0);
    assert_eq!(router.schedule_encoded(&over, 90).unwrap().nonce, 0);
    assert_eq!(router.next_nonce(), 1);
}

#[test]
fn execute_encoded_decodes_then_executes() {
    let router = initialized();
    let bytes = PromiseSpec::Callback {
        base: create(6),
        callback: create(7),
    }
    .try_to_vec()
    .unwrap();
    assert_eq!(
        router.execute_encoded(&bytes, MAX_GAS),
        Ok(OutboundAction {
            call: call(6),
            callback: Some(call(7))
        })
    );
    assert_eq!(
        router.execute_encoded(&bytes[1..], MAX_GAS),
        Err(BridgeError::MalformedInput)
    );
}

#[test]
fn scheduled_then_executed_is_what_execute_gives() {
    let mut router = initialized();
    let spec = PromiseSpec::Callback {
        base: create(8),
        callback: create(9),
    };
    let now = router.execute(spec.clone());
    let nonce = router.schedule(spec).nonce;
    assert_eq!(router.execute_scheduled(nonce), Ok(now));
}
