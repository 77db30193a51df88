use subnet_consensus::distribute::{
    distribute_emissions, distribute_module, remaining_after_delegates, ModuleStakeInfo, Percent,
    StakeIncrease,
};
use subnet_consensus::fixed::Fixed64;
use subnet_consensus::params::{AccountKey, ModuleKey};
use subnet_consensus::yuma::EmissionError;

const ONE: i128 = 1 << 64;

fn module(tag: u8) -> ModuleKey {
    ModuleKey([tag; 32])
}

fn account(tag: u8) -> AccountKey {
    AccountKey([tag; 32])
}

fn ratio(numerator: i128, denominator: i128) -> Fixed64 {
    Fixed64::from_bits(numerator * ONE / denominator)
}

fn info(
    ownership: Vec<(AccountKey, Fixed64)>,
    fee: u8,
    shares: Vec<(AccountKey, u64)>,
) -> ModuleStakeInfo {
    ModuleStakeInfo {
        ownership,
        delegation_fee: Percent::from_percent(fee),
        profit_share_emissions: shares,
    }
}

fn inc(m: u8, a: u8, amount: u64) -> StakeIncrease {
    StakeIncrease { module_key: module(m), account_key: account(a), amount }
}

fn total(incs: &[StakeIncrease]) -> u64 {
    incs.iter().map(|i| i.amount).sum()
}

#[test]
fn percent_rounds_down() {
    assert_eq!(Percent::from_percent(34).mul_floor(10), 3);
    assert_eq!(Percent::from_percent(36).mul_floor(10), 3);
    assert_eq!(Percent::from_percent(50).mul_floor(u64::MAX), u64::MAX / 2);
    assert_eq!(Percent::from_percent(100).mul_floor(u64::MAX), u64::MAX);
    assert_eq!(Percent::from_percent(0).mul_floor(77), 0);
    assert_eq!(Percent::from_percent(200).deconstruct(), 100);
    assert_eq!(Percent::from_percent(7).deconstruct(), 7);
}

#[test]
fn delegators_are_paid_less_the_fee() {
    let ownership =
        vec![(account(11), ratio(1, 2)), (account(1), ratio(3, 10)), (account(12), ratio(1, 5))];
    let i = info(ownership, 10, Vec::new());
    let incs = distribute_module(&module(1), &account(9), 7, 100, 1000, &i).unwrap();
    // A half of 1000 less a tenth; a fifth of 1000, rounded down to 199, less 19.
    assert_eq!(incs, vec![inc(1, 11, 450), inc(1, 12, 180), inc(1, 1, 470)]);
    assert_eq!(total(&incs), 1100);
    assert_eq!(remaining_after_delegates(&module(1), &account(9), 7, 100, 1000, &i), Ok(470));
}

#[test]
fn founder_gets_the_founder_emission() {
    let i = info(Vec::new(), 10, Vec::new());
    let incs = distribute_module(&module(9), &account(9), 7, 100, 0, &i).unwrap();
    assert_eq!(incs, vec![inc(9, 9, 107)]);
    let incs = distribute_module(&module(9), &account(9), u64::MAX, 100, 0, &i).unwrap();
    assert_eq!(incs, vec![inc(9, 9, u64::MAX)]);
    let incs = distribute_module(&module(8), &account(9), 7, 0, 0, &i).unwrap();
    assert_eq!(incs, Vec::new());
}

#[test]
fn profit_shares_take_what_is_left() {
    let ownership = vec![(account(11), ratio(1, 2))];
    let shares = vec![(account(21), 400), (account(22), 200)];
    let i = info(ownership.clone(), 0, shares);
    let incs = distribute_module(&module(1), &account(9), 0, 100, 1000, &i).unwrap();
    assert_eq!(incs, vec![inc(1, 11, 500), inc(1, 21, 400), inc(1, 22, 200)]);
    assert_eq!(total(&incs), 1100);
    let too_much = info(ownership.clone(), 0, vec![(account(21), 400), (account(22), 201)]);
    assert_eq!(
        distribute_module(&module(1), &account(9), 0, 100, 1000, &too_much),
        Err(EmissionError::EmittedMoreThanExpected { emitted: 601, expected: 600 })
    );
    let too_little = info(ownership, 0, vec![(account(21), 400)]);
    assert_eq!(
        distribute_module(&module(1), &account(9), 0, 100, 1000, &too_little),
        Err(EmissionError::HasEmissionRemaining { emitted: 400 })
    );
}

#[test]
fn delegators_cannot_get_more_than_there_is() {
    let ownership = vec![(account(11), ratio(4, 5)), (account(12), ratio(4, 5))];
    let i = info(ownership, 0, Vec::new());
    assert_eq!(
        distribute_module(&module(1), &account(9), 0, 100, 1000, &i),
        Err(EmissionError::EmittedMoreThanExpected { emitted: 1598, expected: 1000 })
    );
    assert_eq!(
        remaining_after_delegates(&module(1), &account(9), 0, 100, 1000, &i),
        Err(EmissionError::EmittedMoreThanExpected { emitted: 1598, expected: 1000 })
    );
    let none = info(Vec::new(), 0, Vec::new());
    assert_eq!(
        distribute_module(&module(1), &account(9), 0, u64::MAX, 1, &none),
        Err(EmissionError::EmittedMoreThanExpected { emitted: u64::MAX, expected: u64::MAX })
    );
}

#[test]
fn epoch_is_distributed_within_its_emission() {
    let result = vec![(module(1), 300, 200), (module(2), 0, 500)];
    let infos = vec![
        info(vec![(account(11), ratio(1, 4))], 0, Vec::new()),
        info(Vec::new(), 0, Vec::new()),
    ];
    let incs = distribute_emissions(&account(2), 50, 1000, &result, &infos).unwrap();
    assert_eq!(incs, vec![inc(1, 11, 50), inc(1, 1, 450), inc(2, 2, 550)]);
    assert_eq!(total(&incs), 1050);
    assert_eq!(
        distribute_emissions(&account(2), 50, 999, &result, &infos),
        Err(EmissionError::EmittedMoreThanExpected { emitted: 1050, expected: 1049 })
    );
    assert_eq!(
        distribute_emissions(&account(2), 50, 1000, &result, &Vec::new()),
        Err(EmissionError::ModulesBroken)
    );
    let broken = vec![
        info(vec![(account(11), ratio(2, 1))], 0, Vec::new()),
        info(Vec::new(), 0, Vec::new()),
    ];
    assert_eq!(
        distribute_emissions(&account(2), 50, 1000, &result, &broken),
        Err(EmissionError::EmittedMoreThanExpected { emitted: 400, expected: 200 })
    );
}
