use vstd::prelude::*;

use crate::amount::{same_value, Amount};
use crate::error::{GenerationError, MoneyError};
use crate::exchange::{money_result, FamilyModule, Money, MoneyModel};
use crate::family::{schema_error, Denomination, Family};

verus! {

/// The modules generated in one build session, in the order they were
/// generated: the registry that the dispatcher is built from.
pub struct Session {
    pub modules: Vec<FamilyModule>,
}

/// True where no two of the modules belong to families of the same name.
pub open spec fn names_unique(ms: Seq<FamilyModule>) -> bool {
    forall|i: int, j: int|
        #![trigger ms[i], ms[j]]
        0 <= i < ms.len() && 0 <= j < ms.len() && i != j ==> ms[i].family.name@
            != ms[j].family.name@
}

/// True where `ms` holds a module of the family named `name`.
pub open spec fn has_family(ms: Seq<FamilyModule>, name: Seq<char>) -> bool {
    exists|i: int| 0 <= i < ms.len() && ms[i].family.name@ == name
}

/// The position of the module of the family named `name` in `ms`.
pub open spec fn find_family(ms: Seq<FamilyModule>, name: Seq<char>) -> Option<int> {
    if has_family(ms, name) {
        Some(choose|i: int| 0 <= i < ms.len() && ms[i].family.name@ == name)
    } else {
        None
    }
}

pub open spec fn modules_wf(ms: Seq<FamilyModule>) -> bool {
    &&& forall|i: int| 0 <= i < ms.len() ==> (#[trigger] ms[i]).wf()
    &&& names_unique(ms)
}

/// The position of the module named `name`, where there is one.
fn position_of_family(ms: &Vec<FamilyModule>, name: &String) -> (r: Option<usize>)
    requires
        names_unique(ms@),
    ensures
        r is Some <==> has_family(ms@, name@),
        r matches Some(i) ==> i < ms@.len() && find_family(ms@, name@) == Some(i as int),
{
    let mut i: usize = 0;
    while i < ms.len()
        invariant
            i <= ms@.len(),
            names_unique(ms@),
            forall|k: int| 0 <= k < i ==> ms@[k].family.name@ != name@,
        decreases ms@.len() - i,
    {
        if ms[i].family.name == *name {
            proof {
                assert(ms@[i as int].family.name@ == name@);
                assert(has_family(ms@, name@));
                let c = choose|k: int| 0 <= k < ms@.len() && ms@[k].family.name@ == name@;
                assert(ms@[c].family.name@ == ms@[i as int].family.name@);
                assert(c == i as int);
            }
            return Some(i);
        }
        i = i + 1;
    }
    None
}

impl Session {
    pub open spec fn wf(self) -> bool {
        modules_wf(self.modules@)
    }

    /// A session in which nothing is registered yet.
    pub fn new() -> (r: Session)
        ensures
            r.wf(),
            r.modules@.len() == 0,
    {
        Session { modules: Vec::new() }
    }

    /// Whether a family named `name` is registered.
    pub fn is_registered(&self, name: &String) -> (r: bool)
        requires
            self.wf(),
        ensures
            r == has_family(self.modules@, name@),
    {
        position_of_family(&self.modules, name).is_some()
    }
}

/// Generates the module of the family named `name` over `denominations`,
/// whose default is named `default_code`, and registers it at the end of
/// the session. A malformed family, or a name that is registered already,
/// is refused and leaves the session as it was.
pub fn generate_exchanges(
    session: &mut Session,
    name: String,
    denominations: Vec<Denomination>,
    default_code: &String,
) -> (r: Result<(), GenerationError>)
    requires
        old(session).wf(),
    ensures
        final(session).wf(),
        r matches Err(e) ==> final(session).modules@ == old(session).modules@,
        schema_error(denominations@, default_code@) matches Some(e) ==> r == Err::<(), _>(e),
        schema_error(denominations@, default_code@) is None ==> (r == Err::<(), _>(
            GenerationError::DuplicateFamily,
        ) <==> has_family(old(session).modules@, name@)),
        r is Ok <==> (schema_error(denominations@, default_code@) is None && !has_family(
            old(session).modules@,
            name@,
        )),
        r is Ok ==> final(session).modules@.len() == old(session).modules@.len() + 1
            && final(session).modules@.drop_last() == old(session).modules@
            && final(session).modules@.last().family.name@ == name@
            && final(session).modules@.last().family.denominations@ == denominations@
            && final(session).modules@.last().family.default_code() == default_code@,
{
    let family = match Family::new(name, denominations, default_code) {
        Ok(f) => f,
        Err(e) => return Err(e),
    };
    if session.is_registered(&family.name) {
        return Err(GenerationError::DuplicateFamily);
    }
    let module = FamilyModule::new(family);
    let ghost before = session.modules@;
    session.modules.push(module);
    proof {
        assert(session.modules@.drop_last() == before);
        assert forall|i: int| 0 <= i < session.modules@.len() implies (
        #[trigger] session.modules@[i]).wf() by {
            if i < before.len() {
                assert(session.modules@[i] == before[i]);
            }
        }
        assert forall|i: int, j: int|
            0 <= i < session.modules@.len() && 0 <= j < session.modules@.len() && i != j implies
            session.modules@[i].family.name@ != session.modules@[j].family.name@ by {
            if i < before.len() && j < before.len() {
                assert(session.modules@[i] == before[i]);
                assert(session.modules@[j] == before[j]);
            } else if i < before.len() {
                assert(session.modules@[i] == before[i]);
            } else {
                assert(session.modules@[j] == before[j]);
            }
        }
    }
    Ok(())
}

/// Money of one registered family, tagged with the family's name.
#[derive(Clone, Debug)]
pub struct GenericMoney {
    pub family: String,
    pub money: Money,
}

/// Equal tags and equal money, amounts compared as numbers.
impl PartialEq for GenericMoney {
    fn eq(&self, other: &GenericMoney) -> (r: bool) {
        self.family == other.family && self.money == other.money
    }
}

impl vstd::std_specs::cmp::PartialEqSpecImpl for GenericMoney {
    open spec fn obeys_eq_spec() -> bool {
        true
    }

    open spec fn eq_spec(&self, other: &GenericMoney) -> bool {
        self.family@ == other.family@ && same_value(self.money.amount, other.money.amount)
            && self.money.currency@ == other.money.currency@
    }
}

/// A denomination of one registered family, tagged with the family's name.
#[derive(Clone, Debug, PartialEq, Eq)]
pub struct GenericCurrency {
    pub family: String,
    pub currency: String,
}

pub ghost struct GenericMoneyModel {
    pub family: Seq<char>,
    pub money: MoneyModel,
}

impl View for GenericMoney {
    type V = GenericMoneyModel;

    open spec fn view(&self) -> GenericMoneyModel {
        GenericMoneyModel { family: self.family@, money: self.money@ }
    }
}

/// Load, save and convert over every family of a finished session, each
/// routed to the module of the family that its tag names.
pub struct Dispatcher {
    pub modules: Vec<FamilyModule>,
}

/// The dispatcher over every family registered in `session`, in the order
/// of registration. No family name stands in it twice: registration
/// refuses a name that is there already.
pub fn generate_map(session: Session) -> (r: Dispatcher)
    requires
        session.wf(),
    ensures
        r.wf(),
        names_unique(r.modules@),
        r.modules@ == session.modules@,
{
    Dispatcher { modules: session.modules }
}

impl Dispatcher {
    pub open spec fn wf(self) -> bool {
        modules_wf(self.modules@)
    }

    /// `qty` in the default denomination of the family named `family`, or
    /// nothing where no such family is registered.
    pub open spec fn load_spec(self, family: Seq<char>, qty: Amount) -> Option<GenericMoneyModel> {
        match find_family(self.modules@, family) {
            Some(i) => Some(
                GenericMoneyModel { family, money: self.modules@[i].load_spec(qty) },
            ),
            None => None,
        }
    }

    /// What the module of `value`'s family saves it as.
    pub open spec fn save_spec(self, value: GenericMoneyModel) -> Result<Amount, MoneyError> {
        match find_family(self.modules@, value.family) {
            Some(i) => self.modules@[i].save_spec(value.money),
            None => Err(MoneyError::InvalidCurrency),
        }
    }

    /// `from` in the denomination of `to`, where both are tagged with the
    /// same registered family.
    pub open spec fn convert_spec(
        self,
        from: GenericMoneyModel,
        to_family: Seq<char>,
        to_currency: Seq<char>,
    ) -> Result<GenericMoneyModel, MoneyError> {
        if from.family != to_family {
            Err(MoneyError::InvalidCurrency)
        } else {
            match find_family(self.modules@, from.family) {
                Some(i) => match self.modules@[i].convert_spec(from.money, to_currency) {
                    Ok(m) => Ok(GenericMoneyModel { family: from.family, money: m }),
                    Err(e) => Err(e),
                },
                None => Err(MoneyError::InvalidCurrency),
            }
        }
    }

    /// Whether a family named `family` is registered.
    pub fn is_registered(&self, family: &String) -> (r: bool)
        requires
            self.wf(),
        ensures
            r == has_family(self.modules@, family@),
    {
        position_of_family(&self.modules, family).is_some()
    }

    /// `qty` in the default denomination of the family named `family`;
    /// nothing where no family of that name is registered.
    pub fn load(&self, family: &String, qty: Amount) -> (r: Option<GenericMoney>)
        requires
            self.wf(),
        ensures
            r is None <==> !has_family(self.modules@, family@),
            match r {
                Some(g) => self.load_spec(family@, qty) == Some(g@),
                None => self.load_spec(family@, qty) is None,
            },
    {
        match position_of_family(&self.modules, family) {
            Some(i) => {
                let money = self.modules[i].load(qty);
                Some(GenericMoney { family: family.clone(), money })
            },
            None => None,
        }
    }

    /// The amount of `value` in its family's default denomination; an
    /// `InvalidCurrency` error where its tag names no registered family.
    pub fn save(&self, value: GenericMoney) -> (r: Result<Amount, MoneyError>)
        requires
            self.wf(),
            value.money.amount.wf(),
        ensures
            r == self.save_spec(value@),
    {
        match position_of_family(&self.modules, &value.family) {
            Some(i) => {
                assert(self.modules@[i as int].wf());
                self.modules[i].save(value.money)
            },
            None => Err(MoneyError::InvalidCurrency),
        }
    }

    /// `from` in the denomination `to`. Two different family tags are
    /// refused with `InvalidCurrency`, never coerced.
    pub fn convert(&self, from: GenericMoney, to: GenericCurrency) -> (r: Result<
        GenericMoney,
        MoneyError,
    >)
        requires
            self.wf(),
            from.money.amount.wf(),
        ensures
            from.family@ != to.family@ ==> r == Err::<GenericMoney, _>(
                MoneyError::InvalidCurrency,
            ),
            match r {
                Ok(g) => self.convert_spec(from@, to.family@, to.currency@) == Ok::<
                    _,
                    MoneyError,
                >(g@),
                Err(e) => self.convert_spec(from@, to.family@, to.currency@) == Err::<
                    GenericMoneyModel,
                    _,
                >(e),
            },
    {
        if from.family != to.family {
            return Err(MoneyError::InvalidCurrency);
        }
        match position_of_family(&self.modules, &from.family) {
            Some(i) => {
                assert(self.modules@[i as int].wf());
                let GenericMoney { family, money } = from;
                match self.modules[i].convert(money, &to.currency) {
                    Ok(m) => Ok(GenericMoney { family, money: m }),
                    Err(e) => Err(e),
                }
            },
            None => Err(MoneyError::InvalidCurrency),
        }
    }
}

/// After a family is registered, its name is in the session, so that a
/// second `generate_exchanges` under that name is refused with
/// `DuplicateFamily`; the registry keeps one entry per name.
pub proof fn lemma_registration_detects_duplicates(
    before: Session,
    after: Session,
    name: Seq<char>,
)
    requires
        after.wf(),
        after.modules@.len() == before.modules@.len() + 1,
        after.modules@.drop_last() == before.modules@,
        after.modules@.last().family.name@ == name,
    ensures
        has_family(after.modules@, name),
        names_unique(after.modules@),
        !has_family(before.modules@, name),
{
    let last = after.modules@.len() - 1;
    assert(after.modules@[last].family.name@ == name);
    if has_family(before.modules@, name) {
        let i = choose|i: int|
            0 <= i < before.modules@.len() && before.modules@[i].family.name@ == name;
        assert(after.modules@[i] == before.modules@[i]);
        assert(after.modules@[i].family.name@ != after.modules@[last].family.name@);
    }
}

} // verus!
