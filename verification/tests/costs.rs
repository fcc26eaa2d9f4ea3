use xcc_bridge::costs::{
    calibrate, within_x_percent, CostModel, CROSS_CONTRACT_CALL_BASE, CROSS_CONTRACT_CALL_BYTE,
    CROSS_CONTRACT_CALL_NEAR_GAS, ROUTER_EXEC, ROUTER_SCHEDULE,
};

#[test]
fn the_configured_constants() {
    assert_eq!(CROSS_CONTRACT_CALL_BASE, 343_650);
    assert_eq!(CROSS_CONTRACT_CALL_BYTE, 4_550);
    assert_eq!(CROSS_CONTRACT_CALL_NEAR_GAS, 175_000_000);
    assert_eq!(ROUTER_EXEC, 7_000_000_000_000);
    assert_eq!(ROUTER_SCHEDULE, 5_000_000_000_000);
    assert_eq!(
        CostModel::configured(),
        CostModel {
            base: 343_650,
            per_byte: 4_550
        }
    );
}

#[test]
fn the_price_is_affine_in_the_input_length() {
    let model = CostModel::configured();
    assert_eq!(model.cost(0), 343_650);
    assert_eq!(model.cost(1), 348_200);
    assert_eq!(model.cost(77), 343_650 + 4_550 * 77);
    assert_eq!(model.cost(152), 1_035_250);
    let step = model.cost(1001) - model.cost(1000);
    assert_eq!(step, 4_550);
}

#[test]
fn the_price_never_overflows() {
    let model = CostModel {
        base: u64::MAX,
        per_byte: u64::MAX,
    };
    let len = usize::MAX;
    assert_eq!(
        model.cost(len),
        u64::MAX as u128 + (u64::MAX as u128) * (len as u128)
    );
}

#[test]
fn within_x_percent_on_the_edges() {
    assert!(within_x_percent(5, 100, 100));
    assert!(within_x_percent(5, 100, 95));
    assert!(within_x_percent(5, 95, 100));
    assert!(!within_x_percent(5, 100, 94));
    assert!(!within_x_percent(5, 94, 100));
    assert!(within_x_percent(20, 100, 80));
    assert!(!within_x_percent(20, 100, 79));
    assert!(within_x_percent(0, 7, 7));
    assert!(!within_x_percent(0, 7, 8));
    assert!(within_x_percent(100, 0, u64::MAX));
    assert!(within_x_percent(5, 0, 0));
    assert!(!within_x_percent(5, 0, 1));
    assert!(within_x_percent(u64::MAX, u64::MAX, 0));
}

#[test]
fn calibration_solves_the_two_point_system() {
    let model = calibrate(10, 1_000, 20, 1_500, 1).unwrap();
    assert_eq!(
        model,
        CostModel {
            base: 500,
            per_byte: 50
        }
    );
    let scaled = calibrate(10, 1_000, 20, 1_500, 10).unwrap();
    assert_eq!(
        scaled,
        CostModel {
            base: 50,
            per_byte: 5
        }
    );
    let rounded = calibrate(0, 7, 3, 17, 2).unwrap();
    assert_eq!(
        rounded,
        CostModel {
            base: 3,
            per_byte: 1
        }
    );
}

#[test]
fn calibration_needs_a_rising_line_from_above_zero() {
    assert_eq!(calibrate(10, 100, 10, 200, 1), None);
    assert_eq!(calibrate(20, 100, 10, 200, 1), None);
    assert_eq!(calibrate(10, 200, 20, 100, 1), None);
    assert_eq!(calibrate(10, 100, 20, 200, 0), None);
    assert_eq!(calibrate(10, 50, 11, 150, 1), None);
    assert_eq!(
        calibrate(10, 100, 20, 100, 1),
        Some(CostModel {
            base: 100,
            per_byte: 0
        })
    );
    assert_eq!(
        calibrate(u64::MAX - 1, u64::MAX, u64::MAX, u64::MAX, 1),
        Some(CostModel {
            base: u64::MAX,
            per_byte: 0
        })
    );
}

#[test]
fn calibration_recovers_the_constants_of_exact_samples() {
    let model = CostModel::configured();
    let ratio = CROSS_CONTRACT_CALL_NEAR_GAS;
    let (l1, l2) = (77u64, 152u64);
    let y1 = (model.cost(l1 as usize) * ratio as u128) as u64;
    let y2 = (model.cost(l2 as usize) * ratio as u128) as u64;
    assert_eq!(calibrate(l1, y1, l2, y2, ratio), Some(model));
    assert!(calibrate(l1, y1, l2, y2, ratio)
        .unwrap()
        .matches_within(&model, 0));
}

#[test]
fn matches_within_looks_at_both_constants() {
    let configured = CostModel {
        base: 1_000,
        per_byte: 100,
    };
    let near = CostModel {
        base: 960,
        per_byte: 104,
    };
    let base_off = CostModel {
        base: 900,
        per_byte: 100,
    };
    let slope_off = CostModel {
        base: 1_000,
        per_byte: 110,
    };
    assert!(near.matches_within(&configured, 5));
    assert!(!base_off.matches_within(&configured, 5));
    assert!(!slope_off.matches_within(&configured, 5));
    assert!(base_off.matches_within(&configured, 10));
}
