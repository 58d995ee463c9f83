use vstd::prelude::*;

use crate::amount::{
    lemma_shift_exact, lemma_shift_round_trip, represents, same_value, shift_spec, Amount,
};
use crate::error::MoneyError;
use crate::family::Family;

verus! {

/// The factor `10^exponent` that takes an amount in the denomination at
/// position `from` to the one at position `to`.
#[derive(Clone, Copy, Debug, PartialEq, Eq, Structural)]
pub struct Rate {
    pub from: usize,
    pub to: usize,
    pub exponent: i64,
}

/// An amount in the denomination named `currency`.
#[derive(Clone, Debug)]
pub struct Money {
    pub amount: Amount,
    pub currency: String,
}

/// Two moneys are equal where they are in the same denomination and their
/// amounts stand for the same number, whatever the scales.
impl PartialEq for Money {
    fn eq(&self, other: &Money) -> (r: bool) {
        self.amount.same_value_as(&other.amount) && self.currency == other.currency
    }
}

impl vstd::std_specs::cmp::PartialEqSpecImpl for Money {
    open spec fn obeys_eq_spec() -> bool {
        true
    }

    open spec fn eq_spec(&self, other: &Money) -> bool {
        same_value(self.amount, other.amount) && self.currency@ == other.currency@
    }
}

pub ghost struct MoneyModel {
    pub amount: Amount,
    pub currency: Seq<char>,
}

impl View for Money {
    type V = MoneyModel;

    open spec fn view(&self) -> MoneyModel {
        MoneyModel { amount: self.amount, currency: self.currency@ }
    }
}

pub open spec fn money_result(r: Result<Money, MoneyError>) -> Result<MoneyModel, MoneyError> {
    match r {
        Ok(m) => Ok(m@),
        Err(e) => Err(e),
    }
}

/// True where `r` is the rate of `f` between two distinct positions.
pub open spec fn rate_of(f: Family, r: Rate) -> bool {
    &&& r.from < f.len()
    &&& r.to < f.len()
    &&& r.from != r.to
    &&& r.exponent == f.exponent(r.from as int) - f.exponent(r.to as int)
}

/// True where `rates` holds a rate from position `i` to position `j`.
pub open spec fn has_rate(rates: Seq<Rate>, i: int, j: int) -> bool {
    exists|k: int| 0 <= k < rates.len() && #[trigger] rates[k].from == i && rates[k].to == j
}

/// True where `rates` holds a rate for every ordered pair of distinct
/// positions of `f`, and nothing else.
pub open spec fn rates_complete(f: Family, rates: Seq<Rate>) -> bool {
    &&& forall|k: int| 0 <= k < rates.len() ==> rate_of(f, #[trigger] rates[k])
    &&& forall|i: int, j: int|
        0 <= i < f.len() && 0 <= j < f.len() && i != j ==> #[trigger] has_rate(rates, i, j)
}

/// Every rate of `f`: one for each ordered pair of distinct denominations,
/// `n * (n - 1)` in all.
pub fn build_rates(f: &Family) -> (r: Vec<Rate>)
    requires
        f.wf(),
    ensures
        rates_complete(*f, r@),
        r@.len() == f.len() * (f.len() - 1),
{
    let n = f.denominations.len();
    let mut v: Vec<Rate> = Vec::new();
    let mut i: usize = 0;
    while i < n
        invariant
            n == f.len(),
            f.wf(),
            i <= n,
            v@.len() == i * (n - 1),
            forall|k: int| 0 <= k < v@.len() ==> rate_of(*f, #[trigger] v@[k]),
            forall|a: int, b: int|
                0 <= a < i && 0 <= b < n && a != b ==> #[trigger] has_rate(v@, a, b),
        decreases n - i,
    {
        let mut j: usize = 0;
        let ghost start = v@.len();
        while j < n
            invariant
                n == f.len(),
                f.wf(),
                i < n,
                j <= n,
                start == i * (n - 1),
                v@.len() == start + j - (if j > i { 1int } else { 0int }),
                forall|k: int| 0 <= k < v@.len() ==> rate_of(*f, #[trigger] v@[k]),
                forall|a: int, b: int|
                    0 <= a < i && 0 <= b < n && a != b ==> #[trigger] has_rate(v@, a, b),
                forall|b: int| 0 <= b < j && i != b ==> #[trigger] has_rate(v@, i as int, b),
            decreases n - j,
        {
            if i != j {
                let e = f.denominations[i].exponent as i64 - f.denominations[j].exponent as i64;
                let ghost old_v = v@;
                v.push(Rate { from: i, to: j, exponent: e });
                proof {
                    assert(v@[old_v.len() as int].from == i && v@[old_v.len() as int].to == j);
                    assert(has_rate(v@, i as int, j as int));
                    assert forall|a: int, b: int|
                        0 <= a < i && 0 <= b < n && a != b implies #[trigger] has_rate(v@, a, b) by {
                        assert(has_rate(old_v, a, b));
                        let k = choose|k: int|
                            0 <= k < old_v.len() && #[trigger] old_v[k].from == a && old_v[k].to == b;
                        assert(v@[k] == old_v[k]);
                    }
                    assert forall|b: int| 0 <= b < j && i != b implies #[trigger] has_rate(
                        v@,
                        i as int,
                        b,
                    ) by {
                        assert(has_rate(old_v, i as int, b));
                        let k = choose|k: int|
                            0 <= k < old_v.len() && #[trigger] old_v[k].from == i && old_v[k].to == b;
                        assert(v@[k] == old_v[k]);
                    }
                }
            }
            j = j + 1;
        }
        proof {
            assert((i + 1) * (n - 1) == i * (n - 1) + n - 1) by (nonlinear_arith);
        }
        i = i + 1;
    }
    v
}

/// The conversion module of one family: the family, and its exchange index
/// built once from every rate.
pub struct FamilyModule {
    pub family: Family,
    pub rates: Vec<Rate>,
}

impl FamilyModule {
    pub open spec fn wf(self) -> bool {
        self.family.wf() && rates_complete(self.family, self.rates@)
    }

    /// `x` in the denomination named `to`: scaled by the rate between the
    /// two where both belong to the family and differ.
    pub open spec fn convert_spec(self, x: MoneyModel, to: Seq<char>) -> Result<
        MoneyModel,
        MoneyError,
    > {
        match (self.family.find(x.currency), self.family.find(to)) {
            (Some(i), Some(j)) => if i != j {
                match shift_spec(x.amount, self.family.exponent(i) - self.family.exponent(j)) {
                    Some(a) => Ok(MoneyModel { amount: a, currency: to }),
                    None => Err(MoneyError::InvalidAmount),
                }
            } else {
                Err(MoneyError::InvalidCurrency)
            },
            _ => Err(MoneyError::InvalidCurrency),
        }
    }

    pub open spec fn load_spec(self, value: Amount) -> MoneyModel {
        MoneyModel { amount: value, currency: self.family.default_code() }
    }

    /// The amount of `x` in the default denomination.
    pub open spec fn save_spec(self, x: MoneyModel) -> Result<Amount, MoneyError> {
        if x.currency == self.family.default_code() {
            Ok(x.amount)
        } else {
            match self.convert_spec(x, self.family.default_code()) {
                Ok(y) => Ok(y.amount),
                Err(e) => Err(e),
            }
        }
    }

    /// The module of `family`, with its exchange index.
    pub fn new(family: Family) -> (r: FamilyModule)
        requires
            family.wf(),
        ensures
            r.wf(),
            r.family == family,
    {
        let rates = build_rates(&family);
        FamilyModule { family, rates }
    }

    /// The exponent of the rate from position `i` to position `j`.
    fn rate_between(&self, i: usize, j: usize) -> (r: Option<i64>)
        requires
            self.wf(),
            i < self.family.len(),
            j < self.family.len(),
        ensures
            r is Some <==> i != j,
            r matches Some(e) ==> e == self.family.exponent(i as int) - self.family.exponent(
                j as int,
            ),
    {
        let mut k: usize = 0;
        while k < self.rates.len()
            invariant
                self.wf(),
                k <= self.rates@.len(),
                forall|m: int|
                    0 <= m < k ==> !(#[trigger] self.rates@[m].from == i && self.rates@[m].to
                        == j),
            decreases self.rates@.len() - k,
        {
            let rate = self.rates[k];
            assert(self.rates@[k as int] == rate);
            if rate.from == i && rate.to == j {
                assert(rate_of(self.family, self.rates@[k as int]));
                return Some(rate.exponent);
            }
            k = k + 1;
        }
        proof {
            if i != j {
                assert(has_rate(self.rates@, i as int, j as int));
                let m = choose|m: int|
                    0 <= m < self.rates@.len() && #[trigger] self.rates@[m].from == i
                        && self.rates@[m].to == j;
                assert(self.rates@[m].from == i);
            }
        }
        None
    }

    /// `from` in the denomination named `to`.
    pub fn convert(&self, from: Money, to: &String) -> (r: Result<Money, MoneyError>)
        requires
            self.wf(),
            from.amount.wf(),
        ensures
            money_result(r) == self.convert_spec(from@, to@),
            r matches Ok(m) ==> m.amount.wf(),
    {
        let fi = self.family.index_of(&from.currency);
        let ti = self.family.index_of(to);
        match (fi, ti) {
            (Some(i), Some(j)) => match self.rate_between(i, j) {
                Some(e) => match from.amount.shift(e) {
                    Some(a) => Ok(Money { amount: a, currency: to.clone() }),
                    None => Err(MoneyError::InvalidAmount),
                },
                None => Err(MoneyError::InvalidCurrency),
            },
            _ => Err(MoneyError::InvalidCurrency),
        }
    }

    /// `value` in the default denomination.
    pub fn load(&self, value: Amount) -> (r: Money)
        requires
            self.wf(),
        ensures
            r@ == self.load_spec(value),
    {
        Money { amount: value, currency: self.family.denominations[self.family.default].code.clone() }
    }

    /// The amount of `value` in the default denomination: its own amount
    /// where it is already there, else the amount that `convert` gives.
    pub fn save(&self, value: Money) -> (r: Result<Amount, MoneyError>)
        requires
            self.wf(),
            value.amount.wf(),
        ensures
            r == self.save_spec(value@),
            value@.currency == self.family.default_code() ==> r == Ok::<Amount, MoneyError>(
                value.amount,
            ),
    {
        let default_code = &self.family.denominations[self.family.default].code;
        if value.currency == *default_code {
            Ok(value.amount)
        } else {
            match self.convert(value, default_code) {
                Ok(m) => Ok(m.amount),
                Err(e) => Err(e),
            }
        }
    }
}

/// The exponent of the rate from the denomination named `from` to the one
/// named `to`.
pub open spec fn rate_exponent(m: FamilyModule, from: Seq<char>, to: Seq<char>) -> int {
    m.family.exponent(m.family.find(from)->Some_0) - m.family.exponent(m.family.find(to)->Some_0)
}

/// Between two distinct denominations of the family, `convert` returns
/// exactly `x * 10^(e_from - e_to)` wherever that number has a form within
/// the bounds of an amount, and fails with `InvalidAmount` only where it
/// has none.
pub proof fn lemma_convert_exact(m: FamilyModule, x: MoneyModel, to: Seq<char>)
    requires
        m.wf(),
        x.amount.wf(),
        m.family.find(x.currency) is Some,
        m.family.find(to) is Some,
        x.currency != to,
    ensures
        m.convert_spec(x, to) matches Ok(y) ==> y.currency == to && y.amount.wf() && represents(
            y.amount,
            x.amount,
            rate_exponent(m, x.currency, to),
        ),
        m.convert_spec(x, to) is Err ==> m.convert_spec(x, to) == Err::<MoneyModel, _>(
            MoneyError::InvalidAmount,
        ) && forall|r: Amount| r.wf() ==> !represents(r, x.amount, rate_exponent(m, x.currency, to)),
{
    let i = m.family.find(x.currency)->Some_0;
    let j = m.family.find(to)->Some_0;
    assert(m.family.code(i) == x.currency);
    assert(m.family.code(j) == to);
    lemma_shift_exact(x.amount, rate_exponent(m, x.currency, to));
}

/// Converting to another denomination of the family and back gives the
/// same number, in the denomination it started in. The first conversion
/// succeeds exactly where its result has a form within the bounds
/// (`lemma_convert_exact`); the way back then always succeeds.
pub proof fn lemma_convert_round_trip(m: FamilyModule, x: MoneyModel, to: Seq<char>)
    requires
        m.wf(),
        x.amount.wf(),
        m.convert_spec(x, to) is Ok,
    ensures
        m.convert_spec(m.convert_spec(x, to)->Ok_0, x.currency) matches Ok(z) && z.currency
            == x.currency && same_value(z.amount, x.amount),
{
    let i = m.family.find(x.currency)->Some_0;
    let j = m.family.find(to)->Some_0;
    let k = m.family.exponent(i) - m.family.exponent(j);
    let ds = m.family.denominations@;
    assert(ds[i].exponent - ds[j].exponent <= crate::amount::MAX_SCALE);
    assert(ds[j].exponent - ds[i].exponent <= crate::amount::MAX_SCALE);
    let y = m.convert_spec(x, to)->Ok_0;
    assert(m.family.find(y.currency) == Some(j));
    assert(m.family.find(x.currency) == Some(i));
    lemma_shift_round_trip(x.amount, k);
}

/// Outside the default denomination, loading what `save` gives is the same
/// money as converting to the default.
pub proof fn lemma_load_after_save(m: FamilyModule, x: MoneyModel)
    requires
        m.wf(),
        x.currency != m.family.default_code(),
        m.save_spec(x) is Ok,
    ensures
        Ok::<MoneyModel, MoneyError>(m.load_spec(m.save_spec(x)->Ok_0)) == m.convert_spec(
            x,
            m.family.default_code(),
        ),
{
}

} // verus!
