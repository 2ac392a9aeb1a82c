use shasper::reward::{
    apply_rewards, beacon_rewards, casper_rewards, default_scheme_rewards, integer_sqrt, total_balance,
    BeaconAttestation, BeaconRewardType, CasperContext, CasperRewardType, DefaultSchemeConfig, RewardAction,
    RewardStore,
};
use shasper::state::{Validator, FAR_FUTURE_EPOCH};

const BALANCE: u64 = 32_000_000_000;

fn validator(activation: u64, exit: u64) -> Validator {
    Validator {
        pubkey: [0u8; 48],
        withdrawal_credentials: [0u8; 32],
        effective_balance: BALANCE,
        slashed: false,
        activation_eligibility_epoch: activation,
        activation_epoch: activation,
        exit_epoch: exit,
        withdrawable_epoch: exit,
    }
}

fn attestation(v: u64, source: u64, target: u64, canon: bool, head: bool, distance: u64) -> BeaconAttestation {
    BeaconAttestation {
        validator_id: v,
        source_epoch: source,
        target_epoch: target,
        is_casper_canon: canon,
        slot: target * 64,
        is_slot_canon: head,
        inclusion_distance: distance,
    }
}

fn config() -> DefaultSchemeConfig {
    DefaultSchemeConfig {
        base_reward_quotient: 32,
        inactivity_penalty_quotient: 1 << 24,
        includer_reward_quotient: 8,
        min_attestation_inclusion_delay: 1,
        leak_target_penalty_on_source: true,
    }
}

fn store(n: u64, epoch: u64, attestations: Vec<BeaconAttestation>) -> RewardStore {
    let mut validators = Vec::new();
    let mut balances = Vec::new();
    for _ in 0..n {
        validators.push(validator(0, FAR_FUTURE_EPOCH));
        balances.push(BALANCE);
    }
    RewardStore { validators, balances, attestations, epoch }
}

fn net_change(actions: &[(u64, RewardAction)], v: u64) -> i128 {
    let mut d: i128 = 0;
    for (id, a) in actions {
        if *id == v {
            match a {
                RewardAction::Add(x) => d += *x as i128,
                RewardAction::Sub(x) => d -= *x as i128,
            }
        }
    }
    d
}

#[test]
fn integer_sqrt_values() {
    assert_eq!(integer_sqrt(0), 0);
    assert_eq!(integer_sqrt(1), 1);
    assert_eq!(integer_sqrt(2), 1);
    assert_eq!(integer_sqrt(3), 1);
    assert_eq!(integer_sqrt(4), 2);
    assert_eq!(integer_sqrt(15), 3);
    assert_eq!(integer_sqrt(16), 4);
    assert_eq!(integer_sqrt(17), 4);
    assert_eq!(integer_sqrt(2_048_000_000_000), 1_431_083);
    assert_eq!(integer_sqrt(u64::MAX), 4_294_967_295);
}

#[test]
fn total_balance_saturates() {
    let balances = vec![u64::MAX, 5, 7];
    assert_eq!(total_balance(&balances, &vec![1, 2]), 12);
    assert_eq!(total_balance(&balances, &vec![0, 1]), u64::MAX);
    assert_eq!(total_balance(&balances, &vec![9]), 0);
    assert_eq!(total_balance(&balances, &vec![1, 1]), 10);
}

#[test]
fn casper_rewards_classification() {
    let atts = vec![
        attestation(0, 3, 4, true, true, 1),
        attestation(1, 3, 4, false, true, 1),
        attestation(2, 2, 4, true, true, 1),
    ];
    let s = store(4, 5, atts);
    let ctx = CasperContext { epoch: 5, previous_justified_epoch: 3 };
    let r = casper_rewards(&ctx, &s);
    assert_eq!(
        r,
        vec![
            (0, CasperRewardType::ExpectedSource),
            (0, CasperRewardType::ExpectedTarget),
            (1, CasperRewardType::ExpectedSource),
            (2, CasperRewardType::NoExpectedSource),
            (3, CasperRewardType::NoExpectedSource),
            (1, CasperRewardType::NoExpectedTarget),
            (2, CasperRewardType::NoExpectedTarget),
            (3, CasperRewardType::NoExpectedTarget),
        ]
    );
}

#[test]
fn casper_rewards_skip_inactive() {
    let mut s = store(2, 5, vec![]);
    s.validators[1] = validator(7, FAR_FUTURE_EPOCH);
    let ctx = CasperContext { epoch: 5, previous_justified_epoch: 3 };
    let r = casper_rewards(&ctx, &s);
    assert_eq!(r, vec![(0, CasperRewardType::NoExpectedSource), (0, CasperRewardType::NoExpectedTarget)]);
}

#[test]
fn beacon_rewards_classification() {
    let atts = vec![
        attestation(0, 3, 4, true, true, 2),
        attestation(1, 3, 4, true, false, 3),
        attestation(2, 3, 3, true, true, 1),
    ];
    let s = store(3, 5, atts);
    let r = beacon_rewards(&s);
    assert_eq!(
        r,
        vec![
            (0, BeaconRewardType::InclusionDistance(2)),
            (0, BeaconRewardType::ExpectedHead),
            (1, BeaconRewardType::InclusionDistance(3)),
            (1, BeaconRewardType::NoExpectedHead),
            (2, BeaconRewardType::NoExpectedHead),
        ]
    );
}

#[test]
fn full_participation_reward() {
    let mut atts = Vec::new();
    for v in 0..64 {
        atts.push(attestation(v, 0, 1, true, true, 1));
    }
    let s = store(64, 2, atts);
    let ctx = CasperContext { epoch: 2, previous_justified_epoch: 0 };
    let c = casper_rewards(&ctx, &s);
    let b = beacon_rewards(&s);
    let r = default_scheme_rewards(&s, &b, &c, 1, &config());
    let base: u64 = 143_109;
    assert_eq!(base, BALANCE / (integer_sqrt(64 * BALANCE) / 32) / 5);
    for v in 0..64 {
        assert_eq!(net_change(&r, v), 4 * base as i128);
    }
    assert!(r.iter().all(|(_, a)| matches!(a, RewardAction::Add(_))));
    let mut balances = s.balances.clone();
    apply_rewards(&mut balances, &r);
    assert!(balances.iter().all(|x| *x == BALANCE + 572_436));
}

#[test]
fn normal_mode_penalizes_missing_classes() {
    let mut atts = Vec::new();
    for v in 0..63 {
        atts.push(attestation(v, 0, 1, true, true, 1));
    }
    let s = store(64, 2, atts);
    let ctx = CasperContext { epoch: 2, previous_justified_epoch: 0 };
    let c = casper_rewards(&ctx, &s);
    let b = beacon_rewards(&s);
    let r = default_scheme_rewards(&s, &b, &c, 4, &config());
    let base: i128 = 143_109;
    assert_eq!(net_change(&r, 63), -3 * base);
    // 63 of 64 attested: each class pays b * 63/64 of the base, rounded down.
    let class = (143_109u128 * (63 * BALANCE as u128) / (64 * BALANCE as u128)) as i128;
    assert_eq!(net_change(&r, 0), 3 * class + base);
}

#[test]
fn leak_mode_penalty_of_absent_validator() {
    let s = store(64, 10, vec![]);
    let b = beacon_rewards(&s);
    assert_eq!(b.len(), 64);
    let r8 = default_scheme_rewards(&s, &b, &[], 8, &config());
    let r9 = default_scheme_rewards(&s, &b, &[], 9, &config());
    for v in 0..64 {
        assert_eq!(net_change(&r8, v), -595_323);
        assert_eq!(net_change(&r9, v), -598_185);
    }
}

#[test]
fn leak_mode_target_penalty_switch() {
    let s = store(1, 10, vec![]);
    let casper = [(0u64, CasperRewardType::NoExpectedSource), (0u64, CasperRewardType::NoExpectedTarget)];
    let on_source = default_scheme_rewards(&s, &[], &casper, 6, &config());
    let mut cfg = config();
    cfg.leak_target_penalty_on_source = false;
    let on_target = default_scheme_rewards(&s, &[], &casper, 6, &cfg);
    // one validator: B_tot = 32e9, isqrt = 178885, divisor 5590, b = 1144901
    let base: u64 = 32_000_000_000 / (178_885 / 32) / 5;
    let p: u64 = base + 32_000_000_000 * 6 / (1 << 24) / 2;
    assert_eq!(
        on_source,
        vec![(0, RewardAction::Sub(base)), (0, RewardAction::Sub(p)), (0, RewardAction::Sub(2 * p + base))]
    );
    assert_eq!(
        on_target,
        vec![(0, RewardAction::Sub(base)), (0, RewardAction::Sub(p)), (0, RewardAction::Sub(2 * p + base))]
    );
    let only_target = [(0u64, CasperRewardType::NoExpectedTarget)];
    assert_eq!(default_scheme_rewards(&s, &[], &only_target, 6, &config()).len(), 1);
    assert_eq!(default_scheme_rewards(&s, &[], &only_target, 6, &cfg).len(), 2);
}

#[test]
fn leak_mode_inclusion_penalty() {
    let s = store(1, 10, vec![]);
    let beacon = [(0u64, BeaconRewardType::InclusionDistance(4))];
    let r = default_scheme_rewards(&s, &beacon, &[], 5, &config());
    let base: u64 = 32_000_000_000 / (178_885 / 32) / 5;
    assert_eq!(r[0], (0, RewardAction::Sub(base - base / 4)));
}

#[test]
fn apply_rewards_clamps_at_zero() {
    let mut balances = vec![10, u64::MAX - 1, 7];
    apply_rewards(
        &mut balances,
        &[(0, RewardAction::Sub(25)), (1, RewardAction::Add(5)), (2, RewardAction::Sub(3)), (9, RewardAction::Add(1))],
    );
    assert_eq!(balances, vec![0, u64::MAX, 4]);
}
