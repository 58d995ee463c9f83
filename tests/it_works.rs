use denomination_exchange::amount::Amount;
use denomination_exchange::error::{GenerationError, MoneyError};
use denomination_exchange::exchange::{build_rates, FamilyModule, Money};
use denomination_exchange::family::{Denomination, Family};
use denomination_exchange::session::{
    generate_exchanges, generate_map, Dispatcher, GenericCurrency, GenericMoney, Session,
};
use rust_decimal::Decimal;

fn denom(code: &str, exponent: u32) -> Denomination {
    Denomination { code: code.to_string(), exponent }
}

fn btc_denominations() -> Vec<Denomination> {
    vec![denom("BTC", 8), denom("mBTC", 5), denom("uBTC", 2), denom("satoshi", 0)]
}

fn ether_denominations() -> Vec<Denomination> {
    vec![denom("ETH", 18), denom("finney", 15), denom("szabo", 12), denom("gwei", 9), denom("wei", 0)]
}

fn btc() -> FamilyModule {
    let family = Family::new("btc".to_string(), btc_denominations(), &"BTC".to_string()).unwrap();
    FamilyModule::new(family)
}

fn ether() -> FamilyModule {
    let family =
        Family::new("ether".to_string(), ether_denominations(), &"gwei".to_string()).unwrap();
    FamilyModule::new(family)
}

fn dispatcher() -> Dispatcher {
    let mut session = Session::new();
    generate_exchanges(&mut session, "btc".to_string(), btc_denominations(), &"BTC".to_string())
        .unwrap();
    generate_exchanges(&mut session, "ether".to_string(), ether_denominations(), &"gwei".to_string())
        .unwrap();
    generate_map(session)
}

fn amount(d: Decimal) -> Amount {
    Amount::new(d.mantissa(), d.scale()).unwrap()
}

fn decimal(a: Amount) -> Decimal {
    Decimal::from_i128_with_scale(a.mantissa, a.scale)
}

fn money(n: i64, code: &str) -> Money {
    Money { amount: Amount::from_integer(n), currency: code.to_string() }
}

#[test]
fn direct() {
    let m = btc();
    let value = Decimal::new(1, 0);
    let value1 = m.load(amount(value));
    assert_eq!(value1, money(1, "BTC"));
    let value2 = m.convert(value1, &"satoshi".to_string()).unwrap();
    assert_eq!(value2, money(100000000, "satoshi"));
    assert_eq!(value, decimal(m.save(value2).unwrap()));
}

#[test]
fn indirect() {
    let d = dispatcher();
    let value = Decimal::new(1, 0);
    let value1 = d.load(&"btc".to_string(), amount(value)).unwrap();
    assert_eq!(value1, GenericMoney { family: "btc".to_string(), money: money(1, "BTC") });
    let to = GenericCurrency { family: "btc".to_string(), currency: "satoshi".to_string() };
    let value2 = d.convert(value1, to).unwrap();
    assert_eq!(
        value2,
        GenericMoney { family: "btc".to_string(), money: money(100000000, "satoshi") }
    );
    assert_eq!(value, decimal(d.save(value2).unwrap()));
}

#[test]
fn two_level_ladder_load_convert_save() {
    let family = Family::new(
        "coin".to_string(),
        vec![denom("unit", 8), denom("base", 0)],
        &"unit".to_string(),
    )
    .unwrap();
    let m = FamilyModule::new(family);
    let loaded = m.load(Amount::from_integer(1));
    let converted = m.convert(loaded, &"base".to_string()).unwrap();
    assert_eq!(decimal(converted.amount), Decimal::new(100000000, 0));
    assert_eq!(decimal(m.save(converted).unwrap()), Decimal::new(1, 0));
}

#[test]
fn five_level_ladder_round_trip() {
    let m = ether();
    let down = m.convert(money(1, "ETH"), &"wei".to_string()).unwrap();
    assert_eq!(decimal(down.amount), Decimal::new(1_000_000_000_000_000_000, 0));
    assert_eq!(down.currency, "wei");
    let back = m.convert(down, &"ETH".to_string()).unwrap();
    assert_eq!(decimal(back.amount), Decimal::new(1, 0));
    assert_eq!(back.currency, "ETH");
}

#[test]
fn five_level_ladder_save_goes_through_default() {
    let m = ether();
    let saved = m.save(money(1, "ETH")).unwrap();
    assert_eq!(decimal(saved), Decimal::new(1_000_000_000, 0));
    let saved = m.save(money(1, "wei")).unwrap();
    assert_eq!(decimal(saved), Decimal::new(1, 9));
}

#[test]
fn round_trip_between_every_pair() {
    let m = ether();
    let codes = ["ETH", "finney", "szabo", "gwei", "wei"];
    for a in codes {
        for b in codes {
            if a != b {
                let x = Money { amount: Amount::new(12345, 2).unwrap(), currency: a.to_string() };
                let y = m.convert(x.clone(), &b.to_string()).unwrap();
                let z = m.convert(y, &a.to_string()).unwrap();
                assert_eq!(z.currency, a);
                assert_eq!(decimal(z.amount), decimal(x.amount));
            }
        }
    }
}

#[test]
fn save_in_default_returns_amount_unchanged() {
    let m = ether();
    let x = Money { amount: Amount::new(-7, 3).unwrap(), currency: "gwei".to_string() };
    assert_eq!(m.save(x).unwrap(), Amount::new(-7, 3).unwrap());
}

#[test]
fn load_after_save_matches_convert_to_default() {
    let m = btc();
    let x = Money { amount: Amount::new(25, 1).unwrap(), currency: "mBTC".to_string() };
    let saved = m.save(x.clone()).unwrap();
    let converted = m.convert(x, &"BTC".to_string()).unwrap();
    assert_eq!(m.load(saved), converted);
    assert_eq!(decimal(saved), Decimal::new(25, 4));
}

#[test]
fn convert_to_same_denomination_is_invalid_currency() {
    let m = btc();
    assert_eq!(m.convert(money(3, "BTC"), &"BTC".to_string()), Err(MoneyError::InvalidCurrency));
}

#[test]
fn convert_to_foreign_denomination_is_invalid_currency() {
    let m = btc();
    assert_eq!(m.convert(money(3, "BTC"), &"wei".to_string()), Err(MoneyError::InvalidCurrency));
    assert_eq!(m.convert(money(3, "wei"), &"BTC".to_string()), Err(MoneyError::InvalidCurrency));
}

#[test]
fn convert_overflow_is_invalid_amount() {
    let m = ether();
    let x = Money { amount: Amount::new(79228162514264337593543950335, 0).unwrap(), currency: "ETH".to_string() };
    assert_eq!(m.convert(x, &"wei".to_string()), Err(MoneyError::InvalidAmount));
    let y = Money { amount: Amount::new(1, 20).unwrap(), currency: "wei".to_string() };
    assert_eq!(m.convert(y, &"ETH".to_string()), Err(MoneyError::InvalidAmount));
}

#[test]
fn cross_family_convert_is_invalid_currency() {
    let d = dispatcher();
    let from = GenericMoney { family: "btc".to_string(), money: money(1, "BTC") };
    let to = GenericCurrency { family: "ether".to_string(), currency: "wei".to_string() };
    assert_eq!(d.convert(from, to), Err(MoneyError::InvalidCurrency));
}

#[test]
fn dispatcher_convert_within_ether() {
    let d = dispatcher();
    let from = d.load(&"ether".to_string(), Amount::from_integer(2)).unwrap();
    let to = GenericCurrency { family: "ether".to_string(), currency: "ETH".to_string() };
    let r = d.convert(from, to).unwrap();
    assert_eq!(r.family, "ether");
    assert_eq!(r.money.currency, "ETH");
    assert_eq!(decimal(r.money.amount), Decimal::new(2, 9));
}

#[test]
fn unknown_family_load_is_absent() {
    let d = dispatcher();
    assert_eq!(d.load(&"unknown-family".to_string(), Amount::from_integer(5)), None);
    assert!(!d.is_registered(&"unknown-family".to_string()));
    assert!(d.is_registered(&"ether".to_string()));
}

#[test]
fn unknown_family_save_is_invalid_currency() {
    let d = dispatcher();
    let v = GenericMoney { family: "nope".to_string(), money: money(1, "BTC") };
    assert_eq!(d.save(v), Err(MoneyError::InvalidCurrency));
}

#[test]
fn empty_session_dispatcher_loads_nothing() {
    let d = generate_map(Session::new());
    assert_eq!(d.load(&"btc".to_string(), Amount::from_integer(1)), None);
}

#[test]
fn duplicate_family_registration_is_refused() {
    let mut session = Session::new();
    assert_eq!(
        generate_exchanges(&mut session, "btc".to_string(), btc_denominations(), &"BTC".to_string()),
        Ok(())
    );
    assert_eq!(
        generate_exchanges(&mut session, "btc".to_string(), btc_denominations(), &"BTC".to_string()),
        Err(GenerationError::DuplicateFamily)
    );
    assert_eq!(session.modules.len(), 1);
    assert!(session.is_registered(&"btc".to_string()));
}

#[test]
fn registry_keeps_generation_order() {
    let d = dispatcher();
    assert_eq!(d.modules.len(), 2);
    assert_eq!(d.modules[0].family.name, "btc");
    assert_eq!(d.modules[1].family.name, "ether");
}

#[test]
fn schema_errors() {
    assert_eq!(
        Family::new("f".to_string(), vec![], &"a".to_string()).unwrap_err(),
        GenerationError::EmptyFamily
    );
    assert_eq!(
        Family::new("f".to_string(), vec![denom("a", 1), denom("a", 0)], &"a".to_string())
            .unwrap_err(),
        GenerationError::DuplicateDenomination
    );
    assert_eq!(
        Family::new("f".to_string(), vec![denom("a", 29), denom("b", 0)], &"a".to_string())
            .unwrap_err(),
        GenerationError::ExponentSpread
    );
    assert_eq!(
        Family::new("f".to_string(), vec![denom("a", 28), denom("b", 0)], &"c".to_string())
            .unwrap_err(),
        GenerationError::MissingDefault
    );
    assert!(Family::new("f".to_string(), vec![denom("a", 28), denom("b", 0)], &"b".to_string())
        .is_ok());
    let mut session = Session::new();
    assert_eq!(
        generate_exchanges(&mut session, "f".to_string(), vec![], &"a".to_string()),
        Err(GenerationError::EmptyFamily)
    );
    assert_eq!(session.modules.len(), 0);
}

#[test]
fn rate_table_is_complete() {
    let m = ether();
    let rates = build_rates(&m.family);
    assert_eq!(rates.len(), 20);
    let eth_to_wei = rates.iter().find(|r| r.from == 0 && r.to == 4).unwrap();
    assert_eq!(eth_to_wei.exponent, 18);
    let wei_to_eth = rates.iter().find(|r| r.from == 4 && r.to == 0).unwrap();
    assert_eq!(wei_to_eth.exponent, -18);
    assert!(rates.iter().all(|r| r.from != r.to));
    let single = Family::new("s".to_string(), vec![denom("x", 3)], &"x".to_string()).unwrap();
    assert_eq!(build_rates(&single).len(), 0);
}

#[test]
fn amount_bounds() {
    assert!(Amount::new(79228162514264337593543950335, 28).is_some());
    assert!(Amount::new(-79228162514264337593543950335, 0).is_some());
    assert!(Amount::new(79228162514264337593543950336, 0).is_none());
    assert!(Amount::new(1, 29).is_none());
}

#[test]
fn amount_shift() {
    let a = Amount::new(15, 1).unwrap();
    assert_eq!(a.shift(1), Some(Amount::new(15, 0).unwrap()));
    assert_eq!(a.shift(3), Some(Amount::new(1500, 0).unwrap()));
    assert_eq!(a.shift(-2), Some(Amount::new(15, 3).unwrap()));
    assert_eq!(a.shift(-28), None);
    assert_eq!(Amount::from_integer(0).shift(1000), Some(Amount::new(0, 0).unwrap()));
    assert_eq!(Amount::from_integer(1).shift(29), None);
}

fn tenfold() -> FamilyModule {
    let family = Family::new(
        "tenfold".to_string(),
        vec![denom("deca", 1), denom("unit", 0)],
        &"deca".to_string(),
    )
    .unwrap();
    FamilyModule::new(family)
}

#[test]
fn convert_drops_trailing_zeros_past_the_largest_scale() {
    let m = tenfold();
    let x = Money { amount: Amount::new(10, 28).unwrap(), currency: "unit".to_string() };
    let y = m.convert(x.clone(), &"deca".to_string()).unwrap();
    assert_eq!(y.amount, Amount::new(1, 28).unwrap());
    let z = m.convert(y, &"unit".to_string()).unwrap();
    assert_eq!(z, x);
    assert_eq!(decimal(z.amount), Decimal::from_i128_with_scale(10, 28));
    let saved = m.save(x).unwrap();
    assert_eq!(saved, Amount::new(1, 28).unwrap());
    let negative = Money { amount: Amount::new(-500, 28).unwrap(), currency: "unit".to_string() };
    assert_eq!(m.save(negative).unwrap(), Amount::new(-50, 28).unwrap());
    let odd = Money { amount: Amount::new(7, 28).unwrap(), currency: "unit".to_string() };
    assert_eq!(m.save(odd), Err(MoneyError::InvalidAmount));
}

#[test]
fn shift_past_the_largest_scale() {
    assert_eq!(Amount::new(1000, 27).unwrap().shift(-3), Some(Amount::new(10, 28).unwrap()));
    assert_eq!(Amount::new(1000, 27).unwrap().shift(-4), Some(Amount::new(1, 28).unwrap()));
    assert_eq!(Amount::new(1010, 27).unwrap().shift(-3), None);
    assert_eq!(Amount::from_integer(0).shift(-1000), Some(Amount::new(0, 28).unwrap()));
}

#[test]
fn money_compares_amounts_as_numbers() {
    let a = Money { amount: Amount::new(1, 0).unwrap(), currency: "BTC".to_string() };
    let b = Money { amount: Amount::new(1000, 3).unwrap(), currency: "BTC".to_string() };
    let c = Money { amount: Amount::new(1001, 3).unwrap(), currency: "BTC".to_string() };
    let d = Money { amount: Amount::new(1, 0).unwrap(), currency: "mBTC".to_string() };
    assert_eq!(a, b);
    assert_ne!(a, c);
    assert_ne!(a, d);
    assert!(Amount::new(-20, 1).unwrap().same_value_as(&Amount::from_integer(-2)));
    assert!(!Amount::new(-20, 1).unwrap().same_value_as(&Amount::from_integer(2)));
    assert_eq!(
        GenericMoney { family: "btc".to_string(), money: a.clone() },
        GenericMoney { family: "btc".to_string(), money: b }
    );
    assert_ne!(
        GenericMoney { family: "btc".to_string(), money: a.clone() },
        GenericMoney { family: "ether".to_string(), money: a }
    );
}

#[test]
fn valid_family_with_new_name_is_appended() {
    let mut session = Session::new();
    generate_exchanges(&mut session, "btc".to_string(), btc_denominations(), &"BTC".to_string())
        .unwrap();
    assert_eq!(
        generate_exchanges(&mut session, "ether".to_string(), ether_denominations(), &"gwei".to_string()),
        Ok(())
    );
    assert_eq!(session.modules.len(), 2);
    assert_eq!(session.modules[1].family.name, "ether");
}
