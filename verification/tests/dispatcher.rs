use xcc_bridge::costs::{CostModel, ROUTER_EXEC, ROUTER_SCHEDULE};
use xcc_bridge::dispatcher::{
    router_account_id, BridgeConfig, Dispatch, Dispatcher, Receipt, WrappedFunds,
    MAX_ATTACHED_GAS, STORAGE_AMOUNT,
};
use xcc_bridge::error::BridgeError;
use xcc_bridge::promise::{BridgeCall, PromiseCreate, PromiseSpec};
use xcc_bridge::router::{OutboundAction, OutboundCall};
use xcc_bridge::types::Address;

fn caller(tag: u8) -> Address {
    Address::from_array([tag; 20])
}

fn rich() -> WrappedFunds {
    WrappedFunds {
        balance: 10 * STORAGE_AMOUNT,
        allowance: 10 * STORAGE_AMOUNT,
    }
}

fn transfer() -> PromiseCreate {
    PromiseCreate {
        target_account: "token.X".to_string(),
        method: "transfer".to_string(),
        args: b"{\"to\":\"bob\",\"amount\":\"3\"}".to_vec(),
        attached_balance: 1,
        attached_gas: 100_000_000_000_000,
    }
}

fn transfer_call() -> OutboundCall {
    OutboundCall {
        receiver_id: "token.X".to_string(),
        method_name: "transfer".to_string(),
        args: b"{\"to\":\"bob\",\"amount\":\"3\"}".to_vec(),
        deposit: 1,
        gas: 100_000_000_000_000,
    }
}

fn bridge() -> Dispatcher {
    Dispatcher::new(BridgeConfig::standard("wrap.near".to_string()))
}

fn price(input: &[u8]) -> u128 {
    343_650 + 4_550 * input.len() as u128
}

#[test]
fn the_standard_configuration() {
    let config = BridgeConfig::standard("wrap.near".to_string());
    assert_eq!(config.costs, CostModel::configured());
    assert_eq!(config.max_attached_gas, MAX_ATTACHED_GAS);
    assert_eq!(config.max_attached_gas, 300_000_000_000_000);
    assert_eq!(config.storage_stake, 2_000_000_000_000_000_000_000_000);
    assert_eq!(config.router_exec_gas, ROUTER_EXEC);
    assert_eq!(config.router_schedule_gas, ROUTER_SCHEDULE);
    assert_eq!(config.wnear_account, "wrap.near");
    assert!(config.must_register);
    assert_eq!(bridge().config(), &config);
}

#[test]
fn eager_create_issues_one_action_and_charges_the_affine_price() {
    let mut bridge = bridge();
    let mut funds = rich();
    let input = BridgeCall::Eager(PromiseSpec::Create(transfer()))
        .try_to_vec()
        .unwrap();
    let done = bridge.dispatch(&caller(1), &input, &mut funds);
    assert_eq!(
        done,
        Dispatch {
            gas_charged: price(&input),
            outcome: Ok(Receipt {
                actions: vec![OutboundAction {
                    call: transfer_call(),
                    callback: None
                }],
                logs: vec![],
                router_created: true,
                router_gas: ROUTER_EXEC,
            }),
        }
    );
    assert_eq!(bridge.next_nonce_of(&caller(1)), Some(0));
    assert!(!bridge.has_scheduled(&caller(1), 0));
}

#[test]
fn delayed_create_schedules_and_can_be_executed_once() {
    let mut bridge = bridge();
    let mut funds = rich();
    let input = BridgeCall::Delayed(PromiseSpec::Create(transfer()))
        .try_to_vec()
        .unwrap();
    let done = bridge.dispatch(&caller(1), &input, &mut funds);
    assert_eq!(
        done,
        Dispatch {
            gas_charged: price(&input),
            outcome: Ok(Receipt {
                actions: vec![],
                logs: vec!["Promise scheduled at nonce 0".to_string()],
                router_created: true,
                router_gas: ROUTER_SCHEDULE,
            }),
        }
    );
    assert!(bridge.has_scheduled(&caller(1), 0));
    assert_eq!(bridge.next_nonce_of(&caller(1)), Some(1));

    assert_eq!(
        bridge.execute_scheduled(&caller(1), 0),
        Ok(OutboundAction {
            call: transfer_call(),
            callback: None
        })
    );
    assert!(!bridge.has_scheduled(&caller(1), 0));
    assert_eq!(
        bridge.execute_scheduled(&caller(1), 0),
        Err(BridgeError::NotFound)
    );
    assert_eq!(bridge.next_nonce_of(&caller(1)), Some(1));
}

#[test]
fn eager_callback_chains_the_callback() {
    let mut bridge = bridge();
    let mut funds = rich();
    let mut then = transfer();
    then.target_account = "caller.near".to_string();
    then.method = "on_transfer".to_string();
    let input = BridgeCall::Eager(PromiseSpec::Callback {
        base: transfer(),
        callback: then,
    })
    .try_to_vec()
    .unwrap();
    let done = bridge.dispatch(&caller(1), &input, &mut funds);
    let receipt = done.outcome.unwrap();
    assert_eq!(receipt.actions.len(), 1);
    assert_eq!(receipt.actions[0].call, transfer_call());
    let callback = receipt.actions[0].callback.clone().unwrap();
    assert_eq!(callback.receiver_id, "caller.near");
    assert_eq!(callback.method_name, "on_transfer");
}

#[test]
fn the_router_is_created_and_paid_for_on_first_use_only() {
    let mut bridge = bridge();
    let mut funds = rich();
    assert!(!bridge.has_router(&caller(1)));
    assert_eq!(bridge.next_nonce_of(&caller(1)), None);
    let input = BridgeCall::Delayed(PromiseSpec::Create(transfer()))
        .try_to_vec()
        .unwrap();

    let first = bridge.dispatch(&caller(1), &input, &mut funds);
    assert!(first.outcome.unwrap().router_created);
    assert!(bridge.has_router(&caller(1)));
    assert_eq!(
        funds,
        WrappedFunds {
            balance: 9 * STORAGE_AMOUNT,
            allowance: 9 * STORAGE_AMOUNT
        }
    );

    let second = bridge.dispatch(&caller(1), &input, &mut funds);
    let receipt = second.outcome.unwrap();
    assert!(!receipt.router_created);
    assert_eq!(receipt.logs, vec!["Promise scheduled at nonce 1".to_string()]);
    assert_eq!(
        funds,
        WrappedFunds {
            balance: 9 * STORAGE_AMOUNT,
            allowance: 9 * STORAGE_AMOUNT
        }
    );
}

#[test]
fn a_caller_with_a_router_needs_no_funds() {
    let mut bridge = bridge();
    let mut funds = WrappedFunds {
        balance: STORAGE_AMOUNT,
        allowance: STORAGE_AMOUNT,
    };
    let input = BridgeCall::Eager(PromiseSpec::Create(transfer()))
        .try_to_vec()
        .unwrap();
    assert!(bridge
        .dispatch(&caller(1), &input, &mut funds)
        .outcome
        .is_ok());
    assert_eq!(
        funds,
        WrappedFunds {
            balance: 0,
            allowance: 0
        }
    );
    assert!(bridge
        .dispatch(&caller(1), &input, &mut funds)
        .outcome
        .is_ok());
    assert_eq!(
        bridge.dispatch(&caller(2), &input, &mut funds).outcome,
        Err(BridgeError::InsufficientFunds)
    );
}

#[test]
fn insufficient_balance_or_allowance_reverts_the_call() {
    let input = BridgeCall::Delayed(PromiseSpec::Create(transfer()))
        .try_to_vec()
        .unwrap();
    for poor in [
        WrappedFunds {
            balance: STORAGE_AMOUNT - 1,
            allowance: STORAGE_AMOUNT,
        },
        WrappedFunds {
            balance: STORAGE_AMOUNT,
            allowance: STORAGE_AMOUNT - 1,
        },
        WrappedFunds {
            balance: 0,
            allowance: 0,
        },
    ] {
        let mut bridge = bridge();
        let mut funds = poor;
        let done = bridge.dispatch(&caller(1), &input, &mut funds);
        assert_eq!(
            done,
            Dispatch {
                gas_charged: price(&input),
                outcome: Err(BridgeError::InsufficientFunds),
            }
        );
        assert_eq!(funds, poor);
        assert!(!bridge.has_router(&caller(1)));
        assert_eq!(
            bridge.execute_scheduled(&caller(1), 0),
            Err(BridgeError::NotFound)
        );
    }
}

#[test]
fn malformed_input_reverts_the_call_but_is_charged() {
    let mut bridge = bridge();
    let mut funds = rich();
    let mut input = BridgeCall::Delayed(PromiseSpec::Create(transfer()))
        .try_to_vec()
        .unwrap();
    input.push(7);
    let done = bridge.dispatch(&caller(1), &input, &mut funds);
    assert_eq!(
        done,
        Dispatch {
            gas_charged: price(&input),
            outcome: Err(BridgeError::MalformedInput),
        }
    );
    assert_eq!(funds, rich());
    assert!(!bridge.has_router(&caller(1)));

    let empty = bridge.dispatch(&caller(1), &[], &mut funds);
    assert_eq!(
        empty,
        Dispatch {
            gas_charged: 343_650,
            outcome: Err(BridgeError::MalformedInput),
        }
    );
}

#[test]
fn malformed_input_comes_before_insufficient_funds() {
    let mut bridge = bridge();
    let mut funds = WrappedFunds {
        balance: 0,
        allowance: 0,
    };
    assert_eq!(
        bridge.dispatch(&caller(1), &[9, 9, 9], &mut funds).outcome,
        Err(BridgeError::MalformedInput)
    );
}

#[test]
fn gas_over_the_configured_ceiling_is_malformed() {
    let mut bridge = bridge();
    let mut funds = rich();
    let mut p = transfer();
    p.attached_gas = MAX_ATTACHED_GAS + 1;
    let over = BridgeCall::Eager(PromiseSpec::Create(p.clone()))
        .try_to_vec()
        .unwrap();
    assert_eq!(
        bridge.dispatch(&caller(1), &over, &mut funds).outcome,
        Err(BridgeError::MalformedInput)
    );
    p.attached_gas = MAX_ATTACHED_GAS;
    let at = BridgeCall::Eager(PromiseSpec::Create(p)).try_to_vec().unwrap();
    assert!(bridge.dispatch(&caller(1), &at, &mut funds).outcome.is_ok());
}

#[test]
fn each_caller_has_a_router_of_its_own() {
    let mut bridge = bridge();
    let mut funds_a = rich();
    let mut funds_b = rich();
    let input = BridgeCall::Delayed(PromiseSpec::Create(transfer()))
        .try_to_vec()
        .unwrap();
    for _ in 0..3 {
        assert!(bridge
            .dispatch(&caller(1), &input, &mut funds_a)
            .outcome
            .is_ok());
    }
    let done = bridge.dispatch(&caller(2), &input, &mut funds_b);
    assert_eq!(
        done.outcome.unwrap().logs,
        vec!["Promise scheduled at nonce 0".to_string()]
    );
    assert_eq!(bridge.next_nonce_of(&caller(1)), Some(3));
    assert_eq!(bridge.next_nonce_of(&caller(2)), Some(1));
    assert_eq!(bridge.next_nonce_of(&caller(3)), None);

    assert!(bridge.execute_scheduled(&caller(1), 1).is_ok());
    assert!(bridge.has_scheduled(&caller(1), 0));
    assert!(!bridge.has_scheduled(&caller(1), 1));
    assert!(bridge.has_scheduled(&caller(1), 2));
    assert!(bridge.has_scheduled(&caller(2), 0));
    assert_eq!(
        bridge.execute_scheduled(&caller(2), 1),
        Err(BridgeError::NotFound)
    );
    assert_eq!(
        bridge.execute_scheduled(&caller(3), 0),
        Err(BridgeError::NotFound)
    );
}

#[test]
fn a_custom_configuration_is_followed() {
    let mut config = BridgeConfig::standard("wnear.test".to_string());
    config.costs = CostModel {
        base: 10,
        per_byte: 3,
    };
    config.storage_stake = 5;
    config.max_attached_gas = 100;
    config.router_exec_gas = 11;
    config.router_schedule_gas = 12;
    let mut bridge = Dispatcher::new(config);
    let mut funds = WrappedFunds {
        balance: 7,
        allowance: 6,
    };
    let mut p = transfer();
    p.attached_gas = 100;
    let input = BridgeCall::Eager(PromiseSpec::Create(p)).try_to_vec().unwrap();
    let done = bridge.dispatch(&caller(1), &input, &mut funds);
    assert_eq!(done.gas_charged, 10 + 3 * input.len() as u128);
    assert_eq!(done.outcome.unwrap().router_gas, 11);
    assert_eq!(
        funds,
        WrappedFunds {
            balance: 2,
            allowance: 1
        }
    );
}

#[test]
fn router_accounts_are_named_after_the_caller_and_the_engine() {
    let mut raw = [0u8; 20];
    raw[0] = 0xab;
    raw[19] = 0x01;
    assert_eq!(
        router_account_id(&Address::from_array(raw), "aurora"),
        "ab00000000000000000000000000000000000001.aurora"
    );
    assert_ne!(
        router_account_id(&caller(1), "aurora"),
        router_account_id(&caller(2), "aurora")
    );
}
