use vstd::prelude::*;

verus! {

/// A non-negative fraction `num / den`; `den` is positive in every score the library makes.
#[derive(Clone, Copy, Debug, PartialEq, Eq)]
pub struct Score {
    pub num: usize,
    pub den: usize,
}

impl Score {
    pub open spec fn wf(&self) -> bool {
        self.den > 0
    }

    /// `self` is at least `other`, as fractions.
    pub open spec fn ge(&self, other: Score) -> bool {
        self.num * other.den >= other.num * self.den
    }

    /// `self` is strictly above `other`, as fractions.
    pub open spec fn gt(&self, other: Score) -> bool {
        self.num * other.den > other.num * self.den
    }

    /// The fraction lies in the unit interval.
    pub open spec fn in_unit(&self) -> bool {
        self.den > 0 && self.num <= self.den
    }

    /// The score in whole percent, rounded down.
    pub open spec fn percent_spec(&self) -> nat {
        ((self.num * 100) as int / self.den as int) as nat
    }

    pub fn at_least(&self, other: &Score) -> (r: bool)
        ensures
            r == self.ge(*other),
    {
        proof {
            lemma_products_fit(*self, *other);
        }
        (self.num as u128) * (other.den as u128) >= (other.num as u128) * (self.den as u128)
    }

    pub fn above(&self, other: &Score) -> (r: bool)
        ensures
            r == self.gt(*other),
    {
        proof {
            lemma_products_fit(*self, *other);
        }
        (self.num as u128) * (other.den as u128) > (other.num as u128) * (self.den as u128)
    }

    /// The score in whole percent, rounded down.
    pub fn percent(&self) -> (r: usize)
        requires
            self.in_unit(),
        ensures
            r == self.percent_spec(),
            r <= 100,
    {
        let p = (self.num as u128) * 100 / (self.den as u128);
        proof {
            assert((self.num * 100) as int / self.den as int <= 100) by (nonlinear_arith)
                requires
                    self.num <= self.den,
                    self.den > 0,
            ;
        }
        p as usize
    }
}

proof fn lemma_products_fit(a: Score, b: Score)
    ensures
        a.num * b.den <= u128::MAX,
        b.num * a.den <= u128::MAX,
{
    assert(usize::MAX <= u64::MAX);
    assert(a.num * b.den <= u64::MAX * u64::MAX) by (nonlinear_arith)
        requires
            a.num <= u64::MAX,
            b.den <= u64::MAX,
    ;
    assert(b.num * a.den <= u64::MAX * u64::MAX) by (nonlinear_arith)
        requires
            b.num <= u64::MAX,
            a.den <= u64::MAX,
    ;
}

} // verus!
