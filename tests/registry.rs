use shasper::registry::{process_registry_updates, EJECTION_BALANCE, MAX_EFFECTIVE_BALANCE};
use shasper::state::{Validator, FAR_FUTURE_EPOCH};

fn pending(eligibility: u64) -> Validator {
    Validator {
        pubkey: [0u8; 48],
        withdrawal_credentials: [0u8; 32],
        effective_balance: MAX_EFFECTIVE_BALANCE,
        slashed: false,
        activation_eligibility_epoch: eligibility,
        activation_epoch: FAR_FUTURE_EPOCH,
        exit_epoch: FAR_FUTURE_EPOCH,
        withdrawable_epoch: FAR_FUTURE_EPOCH,
    }
}

fn active(balance: u64) -> Validator {
    Validator { effective_balance: balance, activation_eligibility_epoch: 0, activation_epoch: 0, ..pending(0) }
}

#[test]
fn full_deposits_become_eligible() {
    let mut vals = vec![pending(FAR_FUTURE_EPOCH), Validator { effective_balance: 1, ..pending(FAR_FUTURE_EPOCH) }];
    process_registry_updates(&mut vals, 7);
    assert_eq!(vals[0].activation_eligibility_epoch, 7);
    assert_eq!(vals[1].activation_eligibility_epoch, FAR_FUTURE_EPOCH);
    // eligible this epoch, so activated in the same pass
    assert_eq!(vals[0].activation_epoch, 12);
}

#[test]
fn low_balance_is_ejected() {
    let mut vals = vec![active(EJECTION_BALANCE), active(EJECTION_BALANCE + 1)];
    process_registry_updates(&mut vals, 3);
    assert_eq!(vals[0].exit_epoch, 8);
    assert_eq!(vals[1].exit_epoch, FAR_FUTURE_EPOCH);
}

#[test]
fn activation_queue_follows_eligibility_up_to_churn() {
    let mut vals = vec![pending(5), pending(2), pending(9), pending(2), pending(4), pending(3), pending(20)];
    process_registry_updates(&mut vals, 10);
    let activated: Vec<usize> = (0..vals.len()).filter(|i| vals[*i].activation_epoch == 15).collect();
    assert_eq!(activated, vec![1, 3, 4, 5]);
    assert_eq!(vals[0].activation_epoch, FAR_FUTURE_EPOCH);
    assert_eq!(vals[6].activation_epoch, FAR_FUTURE_EPOCH);
    for v in &vals {
        assert!(v.activation_eligibility_epoch <= v.activation_epoch);
        assert!(v.activation_epoch <= v.exit_epoch && v.exit_epoch <= v.withdrawable_epoch);
    }
}
