use vstd::prelude::*;
use vstd::arithmetic::power::pow;
use crate::types::{Config, Error, UserExperience};

verus! {

/// Experience needed to reach `level`: `base_experience * level^difficulty_exponent`.
pub open spec fn threshold(cfg: Config, level: nat) -> int {
    cfg.base_experience * pow(level as int, cfg.difficulty_exponent as nat)
}

/// Whether the power and the product that make up `threshold(cfg, level)`
/// both fit in a `u128`.
pub open spec fn threshold_fits(cfg: Config, level: nat) -> bool {
    &&& pow(level as int, cfg.difficulty_exponent as nat) <= u128::MAX
    &&& threshold(cfg, level) <= u128::MAX
}

/// What `Config::exp_required` returns for `level`.
pub open spec fn exp_required_result(cfg: Config, level: nat) -> Result<u128, Error> {
    if threshold_fits(cfg, level) {
        Ok(threshold(cfg, level) as u128)
    } else {
        Err(Error::ArithmeticOverflow)
    }
}

/// Outcome of the level search that starts at `candidate` after `attempts`
/// strict advances: look at the next level's threshold; stop on it when the
/// experience equals it, stay below it when the experience is short of it,
/// and otherwise advance, failing once more advances than the budget allows
/// would be needed.
pub open spec fn resolve_level(cfg: Config, experience: int, candidate: nat, attempts: nat) -> Result<u32, Error>
    decreases cfg.max_level_advances_per_update + 1 - attempts,
{
    let next = candidate + 1;
    if next > u32::MAX || !threshold_fits(cfg, next) {
        Err(Error::ArithmeticOverflow)
    } else if experience == threshold(cfg, next) {
        Ok(next as u32)
    } else if experience < threshold(cfg, next) {
        Ok(candidate as u32)
    } else if attempts >= cfg.max_level_advances_per_update {
        Err(Error::LevelAdvanceBudgetExceeded)
    } else {
        resolve_level(cfg, experience, next, attempts + 1)
    }
}

/// What `remaining_exp` returns.
pub open spec fn remaining_result(current_experience: int, next_threshold: int) -> Result<u128, Error> {
    if current_experience <= next_threshold {
        Ok((next_threshold - current_experience) as u128)
    } else {
        Err(Error::ArithmeticUnderflow)
    }
}

/// What `Config::calculate_exp_to_next_level` returns: the experience still
/// missing from `experience` to the threshold of `level + 1`.
pub open spec fn exp_to_next_level_result(cfg: Config, experience: int, level: nat) -> Result<u128, Error> {
    if level + 1 > u32::MAX {
        Err(Error::ArithmeticOverflow)
    } else {
        match exp_required_result(cfg, level + 1) {
            Ok(t) => remaining_result(experience, t as int),
            Err(e) => Err(e),
        }
    }
}

/// The record that an update to `experience` produces for `account_id`,
/// searching upwards from `from_level`.
pub open spec fn recomputed_record(cfg: Config, account_id: u64, experience: u128, from_level: u32) -> Result<UserExperience, Error> {
    match resolve_level(cfg, experience as int, from_level as nat, 0) {
        Ok(level) => match exp_to_next_level_result(cfg, experience as int, level as nat) {
            Ok(rest) => Ok(UserExperience { account_id, experience, level, experience_to_next_level: rest }),
            Err(e) => Err(e),
        },
        Err(e) => Err(e),
    }
}

proof fn lemma_pow_unfold(b: int, e: nat)
    ensures
        pow(b, e + 1) == b * pow(b, e),
{
    reveal(pow);
}

proof fn lemma_pow_nonneg(b: nat, e: nat)
    ensures
        pow(b as int, e) >= 0,
    decreases e,
{
    reveal(pow);
    if e > 0 {
        lemma_pow_nonneg(b, (e - 1) as nat);
        assert(b * pow(b as int, (e - 1) as nat) >= 0) by (nonlinear_arith)
            requires
                b >= 0,
                pow(b as int, (e - 1) as nat) >= 0,
        ;
    }
}

/// A power grows with its exponent once the base is at least 1.
proof fn lemma_pow_grows_with_exponent(b: nat, e1: nat, e2: nat)
    requires
        b >= 1,
        e1 <= e2,
    ensures
        pow(b as int, e1) <= pow(b as int, e2),
    decreases e2 - e1,
{
    if e1 < e2 {
        lemma_pow_grows_with_exponent(b, e1, (e2 - 1) as nat);
        lemma_pow_unfold(b as int, (e2 - 1) as nat);
        lemma_pow_nonneg(b, (e2 - 1) as nat);
        let p = pow(b as int, (e2 - 1) as nat);
        assert(p <= b * p) by (nonlinear_arith)
            requires
                b >= 1,
                p >= 0,
        ;
    }
}

proof fn lemma_threshold_nonneg(cfg: Config, level: nat)
    ensures
        threshold(cfg, level) >= 0,
{
    lemma_pow_nonneg(level, cfg.difficulty_exponent as nat);
    let p = pow(level as int, cfg.difficulty_exponent as nat);
    let base = cfg.base_experience as int;
    assert(base * p >= 0) by (nonlinear_arith)
        requires
            base >= 0,
            p >= 0,
    ;
}

/// For a positive exponent, a power grows strictly with its base.
proof fn lemma_pow_grows_with_base(a: nat, b: nat, e: nat)
    requires
        a < b,
        e > 0,
    ensures
        pow(a as int, e) < pow(b as int, e),
    decreases e,
{
    lemma_pow_unfold(a as int, (e - 1) as nat);
    lemma_pow_unfold(b as int, (e - 1) as nat);
    lemma_pow_nonneg(a, (e - 1) as nat);
    let pa = pow(a as int, (e - 1) as nat);
    let pb = pow(b as int, (e - 1) as nat);
    if e == 1 {
        reveal(pow);
    } else {
        lemma_pow_grows_with_base(a, b, (e - 1) as nat);
        assert(a * pa < b * pb) by (nonlinear_arith)
            requires
                0 <= a < b,
                0 <= pa < pb,
        ;
    }
}

/// Each level needs strictly more experience than the level below it,
/// whenever the base experience and the exponent are both positive; and
/// where the higher threshold can be computed, so can the lower one, and it
/// is the smaller of the two.
pub proof fn law_threshold_strictly_increases(cfg: Config, level: nat)
    requires
        cfg.base_experience > 0,
        cfg.difficulty_exponent > 0,
    ensures
        threshold(cfg, level + 1) > threshold(cfg, level),
        exp_required_result(cfg, level + 1) is Ok ==> {
            &&& exp_required_result(cfg, level) is Ok
            &&& exp_required_result(cfg, level + 1)->Ok_0 > exp_required_result(cfg, level)->Ok_0
        },
{
    let e = cfg.difficulty_exponent as nat;
    lemma_pow_grows_with_base(level, level + 1, e);
    lemma_pow_nonneg(level, e);
    let p0 = pow(level as int, e);
    let p1 = pow((level + 1) as int, e);
    let base = cfg.base_experience as int;
    assert(base * p0 < base * p1) by (nonlinear_arith)
        requires
            base > 0,
            p0 < p1,
    ;
    assert(0 <= base * p0) by (nonlinear_arith)
        requires
            base > 0,
            p0 >= 0,
    ;
}

/// Where the search succeeds, the level found is at least the starting one
/// and at most one past the advances that the budget allows.
proof fn lemma_resolve_range(cfg: Config, experience: int, candidate: nat, attempts: nat)
    requires
        attempts <= cfg.max_level_advances_per_update,
        resolve_level(cfg, experience, candidate, attempts) is Ok,
    ensures
        candidate <= resolve_level(cfg, experience, candidate, attempts)->Ok_0,
        resolve_level(cfg, experience, candidate, attempts)->Ok_0 <= candidate
            + cfg.max_level_advances_per_update - attempts + 1,
    decreases cfg.max_level_advances_per_update + 1 - attempts,
{
    let next = candidate + 1;
    if next <= u32::MAX && threshold_fits(cfg, next) && experience > threshold(cfg, next)
        && attempts < cfg.max_level_advances_per_update {
        lemma_resolve_range(cfg, experience, next, attempts + 1);
    }
}

/// With a strictly growing threshold and a starting level whose threshold
/// the experience already reaches, the level found is the one whose range
/// holds the experience.
proof fn lemma_resolve_brackets(cfg: Config, experience: int, candidate: nat, attempts: nat)
    requires
        cfg.base_experience > 0,
        cfg.difficulty_exponent > 0,
        threshold(cfg, candidate) <= experience,
        resolve_level(cfg, experience, candidate, attempts) is Ok,
    ensures
        threshold(cfg, resolve_level(cfg, experience, candidate, attempts)->Ok_0 as nat) <= experience,
        experience < threshold(cfg, resolve_level(cfg, experience, candidate, attempts)->Ok_0 as nat + 1),
    decreases cfg.max_level_advances_per_update + 1 - attempts,
{
    let next = candidate + 1;
    if next <= u32::MAX && threshold_fits(cfg, next) {
        if experience == threshold(cfg, next) {
            law_threshold_strictly_increases(cfg, next);
        } else if experience > threshold(cfg, next) && attempts < cfg.max_level_advances_per_update {
            lemma_resolve_brackets(cfg, experience, next, attempts + 1);
        }
    }
}

/// Where the search succeeds, the experience does not pass the threshold of
/// the level after the one found.
proof fn lemma_resolve_below_next(cfg: Config, experience: int, candidate: nat, attempts: nat)
    requires
        resolve_level(cfg, experience, candidate, attempts) is Ok,
    ensures
        experience <= threshold(cfg, resolve_level(cfg, experience, candidate, attempts)->Ok_0 as nat + 1),
    decreases cfg.max_level_advances_per_update + 1 - attempts,
{
    let next = candidate + 1;
    if experience == threshold(cfg, next) {
        let e = cfg.difficulty_exponent as nat;
        let p0 = pow(next as int, e);
        let p1 = pow((next + 1) as int, e);
        if e > 0 {
            lemma_pow_grows_with_base(next, next + 1, e);
        } else {
            reveal(pow);
        }
        lemma_pow_nonneg(next, e);
        let base = cfg.base_experience as int;
        assert(base * p0 <= base * p1) by (nonlinear_arith)
            requires
                base >= 0,
                p0 <= p1,
        ;
    } else if experience > threshold(cfg, next) {
        lemma_resolve_below_next(cfg, experience, next, attempts + 1);
    }
}

/// The search fails only on an overflow or on the advance budget.
proof fn lemma_resolve_errors(cfg: Config, experience: int, candidate: nat, attempts: nat)
    ensures
        resolve_level(cfg, experience, candidate, attempts) is Err ==> {
            ||| resolve_level(cfg, experience, candidate, attempts)->Err_0 == Error::ArithmeticOverflow
            ||| resolve_level(cfg, experience, candidate, attempts)->Err_0 == Error::LevelAdvanceBudgetExceeded
        },
    decreases cfg.max_level_advances_per_update + 1 - attempts,
{
    let next = candidate + 1;
    if next <= u32::MAX && threshold_fits(cfg, next) && experience > threshold(cfg, next)
        && attempts < cfg.max_level_advances_per_update {
        lemma_resolve_errors(cfg, experience, next, attempts + 1);
    }
}

/// `base^exponent` computed with checked multiplications.
fn checked_pow(base: u128, exponent: u32) -> (r: Option<u128>)
    ensures
        match r {
            Some(v) => v == pow(base as int, exponent as nat),
            None => pow(base as int, exponent as nat) > u128::MAX,
        },
{
    let mut acc: u128 = 1;
    let mut i: u32 = 0;
    proof {
        reveal(pow);
    }
    while i < exponent
        invariant
            i <= exponent,
            acc == pow(base as int, i as nat),
        decreases exponent - i,
    {
        proof {
            lemma_pow_unfold(base as int, i as nat);
        }
        match acc.checked_mul(base) {
            Some(v) => {
                acc = v;
            },
            None => {
                proof {
                    assert(acc * base > u128::MAX);
                    if base == 0 {
                        assert(acc * base == 0) by (nonlinear_arith)
                            requires
                                base == 0,
                        ;
                    }
                    lemma_pow_grows_with_exponent(base as nat, (i + 1) as nat, exponent as nat);
                }
                return None;
            },
        }
        i = i + 1;
    }
    Some(acc)
}

impl Config {
    /// Experience needed to reach `level`, or `ArithmeticOverflow` when the
    /// power or the product does not fit in a `u128`.
    pub fn exp_required(&self, level: u32) -> (r: Result<u128, Error>)
        ensures
            r == exp_required_result(*self, level as nat),
    {
        match checked_pow(level as u128, self.difficulty_exponent) {
            Some(p) => match self.base_experience.checked_mul(p) {
                Some(t) => Ok(t),
                None => Err(Error::ArithmeticOverflow),
            },
            None => Err(Error::ArithmeticOverflow),
        }
    }

    /// The level that `experience` reaches, searching upwards from `level`.
    ///
    /// Each step compares the experience with the next level's threshold: an
    /// equal amount reaches that level and stops, a smaller one stops below
    /// it, a larger one advances. More strict advances than
    /// `max_level_advances_per_update` fail with `LevelAdvanceBudgetExceeded`.
    pub fn calculate_exp_level(&self, experience: u128, level: u32) -> (r: Result<u32, Error>)
        ensures
            r == resolve_level(*self, experience as int, level as nat, 0),
            r is Ok ==> level <= r->Ok_0 <= level + self.max_level_advances_per_update + 1,
            r is Ok && self.base_experience > 0 && self.difficulty_exponent > 0
                && threshold(*self, level as nat) <= experience ==> {
                &&& threshold(*self, r->Ok_0 as nat) <= experience
                &&& experience < threshold(*self, r->Ok_0 as nat + 1)
            },
    {
        let mut candidate: u32 = level;
        let mut attempts: u32 = 0;
        loop
            invariant
                attempts <= self.max_level_advances_per_update,
                resolve_level(*self, experience as int, candidate as nat, attempts as nat)
                    == resolve_level(*self, experience as int, level as nat, 0),
                candidate == level + attempts,
            decreases self.max_level_advances_per_update - attempts,
        {
            if candidate == u32::MAX {
                return Err(Error::ArithmeticOverflow);
            }
            let next = candidate + 1;
            let needed = match self.exp_required(next) {
                Ok(t) => t,
                Err(e) => {
                    return Err(e);
                },
            };
            proof {
                lemma_threshold_nonneg(*self, next as nat);
            }
            if experience <= needed {
                proof {
                    lemma_resolve_range(*self, experience as int, level as nat, 0);
                    if self.base_experience > 0 && self.difficulty_exponent > 0
                        && threshold(*self, level as nat) <= experience {
                        lemma_resolve_brackets(*self, experience as int, level as nat, 0);
                    }
                }
                if experience == needed {
                    return Ok(next);
                }
                return Ok(candidate);
            }
            if attempts >= self.max_level_advances_per_update {
                return Err(Error::LevelAdvanceBudgetExceeded);
            }
            candidate = next;
            attempts = attempts + 1;
        }
    }

    /// Experience still missing from `experience` to the threshold of
    /// `level + 1`.
    pub fn calculate_exp_to_next_level(&self, experience: u128, level: u32) -> (r: Result<u128, Error>)
        ensures
            r == exp_to_next_level_result(*self, experience as int, level as nat),
    {
        if level == u32::MAX {
            return Err(Error::ArithmeticOverflow);
        }
        match self.exp_required(level + 1) {
            Ok(t) => remaining_exp(experience, t),
            Err(e) => Err(e),
        }
    }

    /// The record of `account_id` once its experience is set to `experience`:
    /// the level is searched upwards from `from_level`, and the experience
    /// missing to the following level is derived from it.
    pub fn recompute(&self, account_id: u64, experience: u128, from_level: u32) -> (r: Result<UserExperience, Error>)
        ensures
            r == recomputed_record(*self, account_id, experience, from_level),
            r != Err::<UserExperience, Error>(Error::ArithmeticUnderflow),
            r is Ok ==> from_level <= r->Ok_0.level <= from_level + self.max_level_advances_per_update + 1,
            r is Ok && self.base_experience > 0 && self.difficulty_exponent > 0
                && threshold(*self, from_level as nat) <= experience ==> {
                &&& threshold(*self, r->Ok_0.level as nat) <= experience
                &&& experience < threshold(*self, r->Ok_0.level as nat + 1)
                &&& r->Ok_0.experience_to_next_level == threshold(*self, r->Ok_0.level as nat + 1) - experience
            },
    {
        let level = match self.calculate_exp_level(experience, from_level) {
            Ok(l) => {
                proof {
                    lemma_resolve_below_next(*self, experience as int, from_level as nat, 0);
                }
                l
            },
            Err(e) => {
                proof {
                    lemma_resolve_errors(*self, experience as int, from_level as nat, 0);
                }
                return Err(e);
            },
        };
        match self.calculate_exp_to_next_level(experience, level) {
            Ok(rest) => Ok(UserExperience { account_id, experience, level, experience_to_next_level: rest }),
            Err(e) => Err(e),
        }
    }
}

/// `next_threshold - current_experience`, or `ArithmeticUnderflow` when the
/// experience is already past the threshold.
pub fn remaining_exp(current_experience: u128, next_threshold: u128) -> (r: Result<u128, Error>)
    ensures
        r == remaining_result(current_experience as int, next_threshold as int),
{
    match next_threshold.checked_sub(current_experience) {
        Some(d) => Ok(d),
        None => Err(Error::ArithmeticUnderflow),
    }
}

} // verus!
