//! Owners of a corporation, their share of the total investment and of the
//! corporation's shares.
use vstd::prelude::*;

use crate::decimal::{pow10, pow10_i128, Dec, MAX_MANTISSA, MAX_SCALE};
use crate::error::MathError;
use crate::linreg::sum_to;

verus! {

pub struct Owner {
    pub name: String,
    pub investment: Dec,
}

impl Owner {
    /// An investment is a valid, positive decimal.
    pub open spec fn wf(self) -> bool {
        self.investment.wf() && self.investment.mantissa > 0
    }

    pub fn new(name: String, investment: Dec) -> (r: Owner)
        requires
            investment.wf(),
            investment.mantissa > 0,
        ensures
            r.name == name,
            r.investment == investment,
            r.wf(),
    {
        Owner { name, investment }
    }
}

/// An owner's name and rounded ownership percentage.
pub struct OwnerPercentage {
    pub name: String,
    pub percentage: u64,
}

/// Largest scale among the investments of the first k owners, or 0.
pub open spec fn investment_scale_to(owners: Seq<Owner>, k: int) -> int
    decreases k,
{
    if k <= 0 {
        0
    } else {
        let m = investment_scale_to(owners, k - 1);
        if owners[k - 1].investment.scale > m {
            owners[k - 1].investment.scale as int
        } else {
            m
        }
    }
}

/// The scale at which a corporation keeps its investments.
pub open spec fn investment_scale(owners: Seq<Owner>) -> int {
    investment_scale_to(owners, owners.len() as int)
}

/// The investments' mantissas, each written at scale `sc`.
pub open spec fn aligned_investments(owners: Seq<Owner>, sc: int) -> Seq<int> {
    Seq::new(
        owners.len(),
        |i: int| owners[i].investment.mantissa * pow10((sc - owners[i].investment.scale) as nat),
    )
}

/// The total investment, as a mantissa at the investment scale.
pub open spec fn investment_total(owners: Seq<Owner>) -> int {
    sum_to(aligned_investments(owners, investment_scale(owners)), owners.len() as int)
}

/// `a` as a whole percentage of `t`, rounded half away from zero.
pub open spec fn percent_of(a: int, t: int) -> int {
    if t <= 0 {
        0
    } else {
        (200 * a + t) / (2 * t)
    }
}

/// Index of the first owner from `k` on whose name is `name`.
pub open spec fn find_owner_from(owners: Seq<Owner>, name: Seq<char>, k: int) -> Option<int>
    decreases owners.len() - k,
{
    if k < 0 || k >= owners.len() {
        None
    } else if owners[k].name@ == name {
        Some(k)
    } else {
        find_owner_from(owners, name, k + 1)
    }
}

pub struct Corporation {
    pub name: String,
    pub owners: Vec<Owner>,
    pub total_investment: Dec,
    pub total_shares: u64,
}

impl Corporation {
    /// Every owner is valid and the total investment is the exact sum of the
    /// investments, kept at their largest scale.
    pub open spec fn wf(self) -> bool {
        &&& forall|i: int| 0 <= i < self.owners.len() ==> (#[trigger] self.owners[i]).wf()
        &&& self.total_investment@ == (
            investment_total(self.owners@),
            investment_scale(self.owners@),
        )
        &&& investment_total(self.owners@) <= MAX_MANTISSA
    }

    /// The whole percentage of the total that owner `i` holds.
    pub open spec fn percentage_at(self, i: int) -> int {
        percent_of(
            aligned_investments(self.owners@, investment_scale(self.owners@))[i],
            investment_total(self.owners@),
        )
    }

    /// The whole percentage of the total that the owner named `name`
    /// holds: that of the first owner of that name, or 0 for no owner.
    pub open spec fn percentage_of_name(self, name: Seq<char>) -> int {
        match find_owner_from(self.owners@, name, 0) {
            Some(i) => self.percentage_at(i),
            None => 0,
        }
    }

    /// A corporation of these owners; the total investment is their sum.
    pub fn new(owners: Vec<Owner>, name: Option<String>, total_shares: Option<u64>) -> (r: Result<
        Corporation,
        MathError,
    >)
        requires
            forall|i: int| 0 <= i < owners.len() ==> (#[trigger] owners[i]).wf(),
        ensures
            r is Ok <==> investment_total(owners@) <= MAX_MANTISSA,
            r is Err ==> r == Err::<Corporation, MathError>(MathError::Overflow),
            r matches Ok(c) ==> {
                &&& c.wf()
                &&& c.owners@ == owners@
                &&& c.name@ == match name {
                    Some(s) => s@,
                    None => Seq::<char>::empty(),
                }
                &&& c.total_shares == match total_shares {
                    Some(t) => t,
                    None => 0,
                }
            },
    {
        let total_investment = match Self::get_total_investments(&owners) {
            Ok(t) => t,
            Err(e) => return Err(e),
        };
        let name = match name {
            Some(n) => n,
            None => String::new(),
        };
        let total_shares = match total_shares {
            Some(t) => t,
            None => 0,
        };
        Ok(Corporation { name, owners, total_investment, total_shares })
    }

    /// The exact sum of the investments, at their largest scale.
    pub fn get_total_investments(owners: &Vec<Owner>) -> (r: Result<Dec, MathError>)
        requires
            forall|i: int| 0 <= i < owners.len() ==> (#[trigger] owners[i]).wf(),
        ensures
            r is Ok <==> investment_total(owners@) <= MAX_MANTISSA,
            r is Err ==> r == Err::<Dec, MathError>(MathError::Overflow),
            r matches Ok(t) ==> t@ == (investment_total(owners@), investment_scale(owners@))
                && t.wf(),
    {
        let n = owners.len();
        let mut sc: u32 = 0;
        let mut i: usize = 0;
        while i < n
            invariant
                i <= n == owners.len(),
                forall|j: int| 0 <= j < n ==> (#[trigger] owners[j]).wf(),
                sc == investment_scale_to(owners@, i as int),
                sc <= MAX_SCALE,
                forall|j: int| 0 <= j < i ==> (#[trigger] owners[j]).investment.scale <= sc,
            decreases n - i,
        {
            if owners[i].investment.scale > sc {
                sc = owners[i].investment.scale;
            }
            i = i + 1;
        }
        let ghost a = aligned_investments(owners@, sc as int);
        proof {
            lemma_aligned_all_positive(owners@, sc as int);
            lemma_positive_prefix(a, n as int);
        }
        let mut total: i128 = 0;
        let mut k: usize = 0;
        while k < n
            invariant
                k <= n == owners.len(),
                forall|j: int| 0 <= j < n ==> (#[trigger] owners[j]).wf(),
                forall|j: int| 0 <= j < n ==> (#[trigger] owners[j]).investment.scale <= sc,
                sc == investment_scale(owners@),
                sc <= MAX_SCALE,
                a == aligned_investments(owners@, sc as int),
                a.len() == n,
                forall|j: int| 0 <= j < n ==> #[trigger] a[j] > 0,
                forall|j: int, l: int| 0 <= j <= l <= n ==> sum_to(a, j) <= sum_to(a, l),
                total == sum_to(a, k as int),
                0 <= total <= MAX_MANTISSA,
            decreases n - k,
        {
            let inv = &owners[k].investment;
            let p = pow10_i128(sc - inv.scale);
            proof {
                lemma_aligned_positive(inv.mantissa as int, pow10((sc - inv.scale) as nat));
                assert(a[k as int] == inv.mantissa * p);
            }
            let x = match inv.mantissa.checked_mul(p) {
                Some(v) => v,
                None => {
                    proof {
                        assert(sum_to(a, k as int + 1) <= sum_to(a, n as int));
                    }
                    return Err(MathError::Overflow);
                },
            };
            if x > MAX_MANTISSA - total {
                proof {
                    assert(sum_to(a, k as int + 1) <= sum_to(a, n as int));
                }
                return Err(MathError::Overflow);
            }
            total = total + x;
            k = k + 1;
        }
        Ok(Dec { mantissa: total, scale: sc })
    }

    /// The whole percentage of the total investment that `owner_name`
    /// holds, rounded half away from zero; 0 when no owner has that name.
    pub fn get_owner_ownership_percentage_by_investment(&self, owner_name: &str) -> (r: u64)
        requires
            self.wf(),
        ensures
            r == self.percentage_of_name(owner_name@),
    {
        let key = owner_name.to_owned();
        let mut i: usize = 0;
        while i < self.owners.len()
            invariant
                self.wf(),
                i <= self.owners.len(),
                key@ == owner_name@,
                find_owner_from(self.owners@, key@, 0) == find_owner_from(
                    self.owners@,
                    key@,
                    i as int,
                ),
            decreases self.owners.len() - i,
        {
            if self.owners[i].name == key {
                return self.percentage_of(i);
            }
            i = i + 1;
        }
        0
    }

    /// The whole percentage of the total investment that owner `i` holds.
    fn percentage_of(&self, i: usize) -> (r: u64)
        requires
            self.wf(),
            i < self.owners.len(),
        ensures
            r == self.percentage_at(i as int),
    {
        let inv = &self.owners[i].investment;
        let t = self.total_investment.mantissa;
        let sc = self.total_investment.scale;
        let ghost a = aligned_investments(self.owners@, sc as int);
        proof {
            lemma_all_scales_bounded(self.owners@);
            lemma_aligned_all_positive(self.owners@, sc as int);
            crate::decimal::lemma_pow10_add((sc - inv.scale) as nat, 0);
            lemma_positive_prefix(a, self.owners.len() as int);
            lemma_term_below_sum(a, self.owners.len() as int, i as int);
            lemma_aligned_positive(inv.mantissa as int, pow10((sc - inv.scale) as nat));
        }
        let p = pow10_i128(sc - inv.scale);
        let x = inv.mantissa * p;
        assert(x == a[i as int]);
        let q = (200 * x + t) / (2 * t);
        proof {
            assert(q <= 100) by (nonlinear_arith)
                requires
                    0 < x <= t,
                    q == (200 * x + t) / (2 * t),
            ;
            assert(q >= 0) by (nonlinear_arith)
                requires
                    0 < x <= t,
                    q == (200 * x + t) / (2 * t),
            ;
        }
        q as u64
    }

    /// The owners with their whole ownership percentages, in order.
    pub fn get_owners_ownership_percentages(&self) -> (r: Vec<OwnerPercentage>)
        requires
            self.wf(),
        ensures
            r.len() == self.owners.len(),
            forall|i: int|
                0 <= i < r.len() ==> (#[trigger] r[i]).name@ == self.owners[i].name@
                    && r[i].percentage == self.percentage_at(i),
    {
        let mut r: Vec<OwnerPercentage> = Vec::new();
        let mut i: usize = 0;
        while i < self.owners.len()
            invariant
                self.wf(),
                i <= self.owners.len(),
                r.len() == i,
                forall|j: int|
                    0 <= j < i ==> (#[trigger] r[j]).name@ == self.owners[j].name@
                        && r[j].percentage == self.percentage_at(j),
            decreases self.owners.len() - i,
        {
            let percentage = self.percentage_of(i);
            r.push(OwnerPercentage { name: self.owners[i].name.clone(), percentage });
            i = i + 1;
        }
        r
    }

    /// The shares that `owner_name`'s rounded percentage gives:
    /// percentage * total_shares / 100, rounded down.
    pub fn get_owner_shares_by_ownership_percentage(&self, owner_name: &str) -> (r: u64)
        requires
            self.wf(),
        ensures
            r == self.percentage_of_name(owner_name@) * self.total_shares / 100,
    {
        let pct = self.get_owner_ownership_percentage_by_investment(owner_name);
        proof {
            self.lemma_percentage_of_name_bound(owner_name@);
        }
        assert((pct as u128) * (self.total_shares as u128) <= 100 * 0xffff_ffff_ffff_ffff)
            by (nonlinear_arith)
            requires
                0 <= pct <= 100,
                0 <= self.total_shares <= 0xffff_ffff_ffff_ffff,
        ;
        let shares = (pct as u128) * (self.total_shares as u128) / 100;
        proof {
            assert(shares <= self.total_shares) by (nonlinear_arith)
                requires
                    0 <= pct <= 100,
                    shares == (pct * self.total_shares) / 100,
            ;
        }
        shares as u64
    }

    /// Whether `owner_name`'s rounded ownership percentage is at least 50.
    pub fn is_owner_majority_shareholder(&self, owner_name: &str) -> (r: bool)
        requires
            self.wf(),
        ensures
            r == (self.percentage_of_name(owner_name@) >= 50),
    {
        self.get_owner_ownership_percentage_by_investment(owner_name) >= 50
    }

    proof fn lemma_percentage_of_name_bound(self, name: Seq<char>)
        requires
            self.wf(),
        ensures
            0 <= self.percentage_of_name(name) <= 100,
    {
        lemma_find_owner_in_range(self.owners@, name, 0);
        if let Some(i) = find_owner_from(self.owners@, name, 0) {
            let a = aligned_investments(self.owners@, investment_scale(self.owners@));
            let t = investment_total(self.owners@);
            lemma_all_scales_bounded(self.owners@);
            lemma_aligned_all_positive(self.owners@, investment_scale(self.owners@));
            crate::decimal::lemma_pow10_add(
                (investment_scale(self.owners@) - self.owners[i].investment.scale) as nat,
                0,
            );
            lemma_positive_prefix(a, self.owners.len() as int);
            lemma_term_below_sum(a, self.owners.len() as int, i);
            let x = a[i];
            let inv = self.owners[i].investment;
            lemma_aligned_positive(
                inv.mantissa as int,
                pow10((investment_scale(self.owners@) - inv.scale) as nat),
            );
            let q = (200 * x + t) / (2 * t);
            assert(0 <= q <= 100) by (nonlinear_arith)
                requires
                    0 < x <= t,
                    q == (200 * x + t) / (2 * t),
            ;
        }
    }
}

proof fn lemma_find_owner_in_range(owners: Seq<Owner>, name: Seq<char>, k: int)
    ensures
        find_owner_from(owners, name, k) matches Some(i) ==> 0 <= i < owners.len(),
    decreases owners.len() - k,
{
    if 0 <= k < owners.len() && owners[k].name@ != name {
        lemma_find_owner_in_range(owners, name, k + 1);
    }
}

/// Written at a scale no smaller than its own, every investment is positive.
proof fn lemma_aligned_all_positive(owners: Seq<Owner>, sc: int)
    requires
        forall|i: int| 0 <= i < owners.len() ==> (#[trigger] owners[i]).wf(),
        forall|i: int| 0 <= i < owners.len() ==> (#[trigger] owners[i]).investment.scale <= sc,
    ensures
        forall|j: int| 0 <= j < owners.len() ==> #[trigger] aligned_investments(owners, sc)[j] > 0,
{
    assert forall|j: int| 0 <= j < owners.len() implies #[trigger] aligned_investments(
        owners,
        sc,
    )[j] > 0 by {
        let inv = owners[j].investment;
        crate::decimal::lemma_pow10_add((sc - inv.scale) as nat, 0);
        lemma_aligned_positive(inv.mantissa as int, pow10((sc - inv.scale) as nat));
    }
}

/// The investment scale is a valid scale.
proof fn lemma_investment_scale_valid(owners: Seq<Owner>, k: int)
    requires
        0 <= k <= owners.len(),
        forall|i: int| 0 <= i < owners.len() ==> (#[trigger] owners[i]).wf(),
    ensures
        0 <= investment_scale_to(owners, k) <= MAX_SCALE,
    decreases k,
{
    if k > 0 {
        lemma_investment_scale_valid(owners, k - 1);
    }
}

/// Every investment's scale is at most the investment scale, which is valid.
proof fn lemma_all_scales_bounded(owners: Seq<Owner>)
    requires
        forall|i: int| 0 <= i < owners.len() ==> (#[trigger] owners[i]).wf(),
    ensures
        forall|i: int|
            0 <= i < owners.len() ==> (#[trigger] owners[i]).investment.scale <= investment_scale(
                owners,
            ),
        0 <= investment_scale(owners) <= MAX_SCALE,
{
    lemma_investment_scale_valid(owners, owners.len() as int);
    assert forall|i: int| 0 <= i < owners.len() implies (#[trigger] owners[i]).investment.scale
        <= investment_scale(owners) by {
        lemma_investment_scale_bound(owners, owners.len() as int, i);
    }
}

proof fn lemma_aligned_positive(m: int, p: int)
    requires
        m > 0,
        p > 0,
    ensures
        m * p > 0,
{
    assert(m * p > 0) by (nonlinear_arith)
        requires
            m > 0,
            p > 0,
    ;
}

/// The scale of owner i is at most the largest among the first k owners,
/// which is at most the investment scale.
proof fn lemma_investment_scale_bound(owners: Seq<Owner>, k: int, i: int)
    requires
        0 <= i < k <= owners.len(),
    ensures
        owners[i].investment.scale <= investment_scale_to(owners, k),
        investment_scale_to(owners, k) <= investment_scale_to(owners, owners.len() as int),
    decreases owners.len() - k,
{
    lemma_scale_prefix(owners, i + 1, k);
    lemma_scale_prefix(owners, k, owners.len() as int);
}

proof fn lemma_scale_prefix(owners: Seq<Owner>, j: int, k: int)
    requires
        0 <= j <= k <= owners.len(),
    ensures
        investment_scale_to(owners, j) <= investment_scale_to(owners, k),
        j > 0 ==> owners[j - 1].investment.scale <= investment_scale_to(owners, k),
    decreases k - j,
{
    if j < k {
        lemma_scale_prefix(owners, j, k - 1);
    }
}

/// Sums of positive terms grow with the number of terms.
proof fn lemma_positive_prefix(a: Seq<int>, n: int)
    requires
        0 <= n <= a.len(),
        forall|j: int| 0 <= j < n ==> #[trigger] a[j] > 0,
    ensures
        forall|j: int, l: int| 0 <= j <= l <= n ==> sum_to(a, j) <= sum_to(a, l),
    decreases n,
{
    if n > 0 {
        lemma_positive_prefix(a, n - 1);
        assert forall|j: int, l: int| 0 <= j <= l <= n implies sum_to(a, j) <= sum_to(a, l) by {
            if l == n && j < n {
                assert(sum_to(a, j) <= sum_to(a, n - 1));
            }
        }
    }
}

/// A positive term is at most the sum it is part of.
proof fn lemma_term_below_sum(a: Seq<int>, n: int, i: int)
    requires
        0 <= i < n <= a.len(),
        forall|j: int| 0 <= j < n ==> #[trigger] a[j] > 0,
    ensures
        a[i] <= sum_to(a, n),
        sum_to(a, n) > 0,
{
    lemma_positive_prefix(a, n);
    assert(sum_to(a, 0) == 0);
    assert(sum_to(a, i) >= 0);
    assert(sum_to(a, i + 1) == sum_to(a, i) + a[i]);
}

} // verus!
