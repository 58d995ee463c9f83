use vstd::prelude::*;

use crate::amount::{Amount, MAX_SCALE};
use crate::error::GenerationError;

verus! {

/// One named unit of a family, `10^exponent` base units large.
#[derive(Clone, Debug)]
pub struct Denomination {
    pub code: String,
    pub exponent: u32,
}

/// A named ladder of denominations, one of them the default.
#[derive(Clone, Debug)]
pub struct Family {
    pub name: String,
    pub denominations: Vec<Denomination>,
    pub default: usize,
}

/// True where no two of the identifiers are equal.
pub open spec fn codes_unique(ds: Seq<Denomination>) -> bool {
    forall|i: int, j: int|
        0 <= i < ds.len() && 0 <= j < ds.len() && i != j ==> ds[i].code@ != ds[j].code@
}

/// True where every two exponents are at most `MAX_SCALE` apart, so that
/// every rate between them is an exact amount.
pub open spec fn spread_ok(ds: Seq<Denomination>) -> bool {
    forall|i: int, j: int|
        0 <= i < ds.len() && 0 <= j < ds.len() ==> ds[i].exponent - ds[j].exponent <= MAX_SCALE
}

/// True where some denomination carries the identifier `c`.
pub open spec fn has_code(ds: Seq<Denomination>, c: Seq<char>) -> bool {
    exists|i: int| 0 <= i < ds.len() && ds[i].code@ == c
}

/// The first check that a family over `ds` with the default named
/// `default_code` fails, in the order `Family::new` makes them.
pub open spec fn schema_error(ds: Seq<Denomination>, default_code: Seq<char>) -> Option<
    GenerationError,
> {
    if ds.len() == 0 {
        Some(GenerationError::EmptyFamily)
    } else if !codes_unique(ds) {
        Some(GenerationError::DuplicateDenomination)
    } else if !spread_ok(ds) {
        Some(GenerationError::ExponentSpread)
    } else if !has_code(ds, default_code) {
        Some(GenerationError::MissingDefault)
    } else {
        None
    }
}

impl Family {
    pub open spec fn wf(self) -> bool {
        &&& self.denominations@.len() >= 1
        &&& self.default < self.denominations@.len()
        &&& codes_unique(self.denominations@)
        &&& spread_ok(self.denominations@)
    }

    pub open spec fn len(self) -> int {
        self.denominations@.len() as int
    }

    pub open spec fn code(self, i: int) -> Seq<char> {
        self.denominations@[i].code@
    }

    pub open spec fn exponent(self, i: int) -> int {
        self.denominations@[i].exponent as int
    }

    pub open spec fn default_code(self) -> Seq<char> {
        self.code(self.default as int)
    }

    /// The position of the denomination named `c`, if the family has one.
    pub open spec fn find(self, c: Seq<char>) -> Option<int> {
        if has_code(self.denominations@, c) {
            Some(choose|i: int| 0 <= i < self.denominations@.len() && self.denominations@[i].code@ == c)
        } else {
            None
        }
    }

    /// A family named `name` over `denominations`, whose default is the one
    /// named `default_code`. The checks come in this order: the family is
    /// not empty, its identifiers are unique, its exponents lie within
    /// `MAX_SCALE` of each other, and the default is one of them.
    pub fn new(name: String, denominations: Vec<Denomination>, default_code: &String) -> (r: Result<
        Family,
        GenerationError,
    >)
        ensures
            r == Err::<Family, _>(GenerationError::EmptyFamily) <==> denominations@.len() == 0,
            r == Err::<Family, _>(GenerationError::DuplicateDenomination) <==> (
            denominations@.len() > 0 && !codes_unique(denominations@)),
            r == Err::<Family, _>(GenerationError::ExponentSpread) <==> (denominations@.len() > 0
                && codes_unique(denominations@) && !spread_ok(denominations@)),
            r == Err::<Family, _>(GenerationError::MissingDefault) <==> (denominations@.len() > 0
                && codes_unique(denominations@) && spread_ok(denominations@) && !has_code(
                denominations@,
                default_code@,
            )),
            r is Ok <==> (denominations@.len() > 0 && codes_unique(denominations@) && spread_ok(
                denominations@,
            ) && has_code(denominations@, default_code@)),
            r matches Err(e) ==> schema_error(denominations@, default_code@) == Some(e),
            r is Ok <==> schema_error(denominations@, default_code@) is None,
            r matches Ok(f) ==> f.wf() && f.name@ == name@ && f.denominations@
                == denominations@ && f.default_code() == default_code@,
    {
        if denominations.len() == 0 {
            return Err(GenerationError::EmptyFamily);
        }
        if !all_codes_unique(&denominations) {
            return Err(GenerationError::DuplicateDenomination);
        }
        if !exponents_within_spread(&denominations) {
            return Err(GenerationError::ExponentSpread);
        }
        match position_of(&denominations, default_code) {
            Some(d) => Ok(Family { name, denominations, default: d }),
            None => Err(GenerationError::MissingDefault),
        }
    }

    /// The position of the denomination named `code`.
    pub fn index_of(&self, code: &String) -> (r: Option<usize>)
        requires
            self.wf(),
        ensures
            r is Some <==> self.find(code@) is Some,
            r matches Some(i) ==> i < self.len() && self.find(code@) == Some(i as int),
    {
        let r = position_of(&self.denominations, code);
        proof {
            if let Some(i) = r {
                let c = choose|k: int|
                    0 <= k < self.denominations@.len() && self.denominations@[k].code@ == code@;
                assert(self.code(c) == self.code(i as int));
            }
        }
        r
    }
}

/// The first position at which `ds` holds the identifier `code`.
fn position_of(ds: &Vec<Denomination>, code: &String) -> (r: Option<usize>)
    ensures
        r is Some <==> has_code(ds@, code@),
        r matches Some(i) ==> i < ds@.len() && ds@[i as int].code@ == code@,
{
    let mut i: usize = 0;
    while i < ds.len()
        invariant
            i <= ds@.len(),
            forall|k: int| 0 <= k < i ==> ds@[k].code@ != code@,
        decreases ds@.len() - i,
    {
        if ds[i].code == *code {
            return Some(i);
        }
        i = i + 1;
    }
    None
}

fn all_codes_unique(ds: &Vec<Denomination>) -> (r: bool)
    ensures
        r == codes_unique(ds@),
{
    let mut i: usize = 0;
    while i < ds.len()
        invariant
            i <= ds@.len(),
            forall|a: int, b: int|
                0 <= a < i && 0 <= b < ds@.len() && a != b ==> ds@[a].code@ != ds@[b].code@,
        decreases ds@.len() - i,
    {
        let mut j: usize = 0;
        while j < ds.len()
            invariant
                i < ds@.len(),
                j <= ds@.len(),
                forall|a: int, b: int|
                    0 <= a < i && 0 <= b < ds@.len() && a != b ==> ds@[a].code@ != ds@[b].code@,
                forall|b: int| 0 <= b < j && i != b ==> ds@[i as int].code@ != ds@[b].code@,
            decreases ds@.len() - j,
        {
            if i != j && ds[i].code == ds[j].code {
                return false;
            }
            j = j + 1;
        }
        i = i + 1;
    }
    true
}

fn exponents_within_spread(ds: &Vec<Denomination>) -> (r: bool)
    requires
        ds@.len() > 0,
    ensures
        r == spread_ok(ds@),
{
    let mut lo: u32 = ds[0].exponent;
    let mut hi: u32 = ds[0].exponent;
    let mut lo_at: usize = 0;
    let mut hi_at: usize = 0;
    let mut i: usize = 1;
    while i < ds.len()
        invariant
            1 <= i <= ds@.len(),
            lo_at < i,
            hi_at < i,
            ds@[lo_at as int].exponent == lo,
            ds@[hi_at as int].exponent == hi,
            forall|k: int| 0 <= k < i ==> lo <= #[trigger] ds@[k].exponent <= hi,
        decreases ds@.len() - i,
    {
        if ds[i].exponent < lo {
            lo = ds[i].exponent;
            lo_at = i;
        }
        if ds[i].exponent > hi {
            hi = ds[i].exponent;
            hi_at = i;
        }
        i = i + 1;
    }
    let r = hi - lo <= MAX_SCALE;
    proof {
        if !r {
            assert(ds@[hi_at as int].exponent - ds@[lo_at as int].exponent > MAX_SCALE);
        }
    }
    r
}

} // verus!
