//! How long a ban lasts.

use crate::config::jail::{JailConfig, JailView};
use crate::time;
use crate::time::TimeValue;
use vstd::arithmetic::power;
use vstd::prelude::*;

verus! {

/// A length that has grown by a factor with each earlier ban, cut off at the
/// largest 64-bit number.
pub open spec fn grown(base: u64, factor: u32, past: nat) -> u64 {
    let f = if factor < 1 {
        1
    } else {
        factor as int
    };
    time::capped((base * power::pow(f, past)) as nat)
}

/// The smaller of a length and an upper bound.
pub open spec fn bounded(n: u64, max: Option<TimeValue>) -> u64 {
    match max {
        Some(m) => if time::seconds_or_max(m) < n {
            time::seconds_or_max(m)
        } else {
            n
        },
        None => n,
    }
}

/// A length with a random part below `rnd` added to it. `draw` is a random
/// number.
pub open spec fn scattered(n: u64, rnd: Option<TimeValue>, draw: u64) -> u64 {
    match rnd {
        Some(r) => if time::seconds_or_max(r) > 0 {
            time::capped((n + draw % time::seconds_or_max(r)) as nat)
        } else {
            n
        },
        None => n,
    }
}

/// How many seconds a ban lasts after `past` earlier bans; `None` for ever.
pub open spec fn ban_seconds(c: JailView, past: nat, draw: u64) -> Option<u64> {
    match c.bantime.seconds {
        None => None,
        Some(base) => if c.bantime_increment {
            Some(
                scattered(
                    bounded(grown(base, c.bantime_factor, past), c.bantime_maxtime),
                    c.bantime_rndtime,
                    draw,
                ),
            )
        } else {
            Some(base)
        },
    }
}

proof fn lemma_cap_step(x: int, f: int)
    requires
        x >= 0,
        f >= 1,
    ensures
        x * f >= 0,
        time::capped(x as nat) * f >= 0,
        time::capped((time::capped(x as nat) * f) as nat) == time::capped((x * f) as nat),
{
    let c = time::capped(x as nat) as int;
    assert(x * f >= x) by (nonlinear_arith)
        requires
            x >= 0,
            f >= 1,
    ;
    assert(c * f >= c) by (nonlinear_arith)
        requires
            c >= 0,
            f >= 1,
    ;
}

fn grow(base: u64, factor: u32, past: usize) -> (r: u64)
    ensures
        r == grown(base, factor, past as nat),
{
    let f: u64 = if factor < 1 {
        1
    } else {
        factor as u64
    };
    let mut r: u64 = base;
    let mut i: usize = 0;
    proof {
        power::lemma_pow0(f as int);
        assert(base * 1 == base);
    }
    while i < past
        invariant
            i <= past,
            f >= 1,
            base * power::pow(f as int, i as nat) >= 0,
            r == time::capped((base * power::pow(f as int, i as nat)) as nat),
        decreases past - i,
    {
        proof {
            let x = base * power::pow(f as int, i as nat);
            lemma_cap_step(x, f as int);
            reveal(power::pow);
            assert(power::pow(f as int, (i + 1) as nat) == f * power::pow(f as int, i as nat));
            assert(base * (f * power::pow(f as int, i as nat)) == x * f) by (nonlinear_arith)
                requires
                    x == base * power::pow(f as int, i as nat),
            ;
        }
        r = match r.checked_mul(f) {
            Some(n) => n,
            None => u64::MAX,
        };
        i += 1;
    }
    r
}

/// How many seconds a ban of a jail lasts after `past` earlier bans; `None`
/// for ever. `draw` is a random number, for the random part.
pub fn compute_bantime(config: &JailConfig, past: usize, draw: u64) -> (r: Option<u64>)
    ensures
        r == ban_seconds(config@, past as nat, draw),
{
    let base = match config.bantime.to_duration() {
        Some(n) => n,
        None => {
            return None;
        },
    };
    if !config.bantime_increment {
        return Some(base);
    }
    let mut n: u64 = grow(base, config.bantime_factor, past);
    if let Some(max) = config.bantime_maxtime {
        let m = max.to_seconds_or_max();
        if m < n {
            n = m;
        }
    }
    if let Some(rnd) = config.bantime_rndtime {
        let m = rnd.to_seconds_or_max();
        if m > 0 {
            n = n.saturating_add(draw % m);
        }
    }
    Some(n)
}

/// A generator of random numbers for the random part of bans. It is good
/// enough to keep retries apart, and for nothing more.
#[derive(Debug)]
pub struct Jitter {
    /// The last number.
    pub state: u64,
}

/// The number that follows another.
pub open spec fn next_number(x: u64) -> u64 {
    let a = x ^ (x << 13u64);
    let b = a ^ (a >> 7u64);
    b ^ (b << 17u64)
}

/// The number that a generator starts from, given a moment in nanoseconds.
pub open spec fn first_number(nanos: u64) -> int {
    (nanos * 0x9E37_79B9_7F4A_7C15u64) % 0x1_0000_0000_0000_0000
}

impl Jitter {
    /// A generator that starts from a moment in nanoseconds.
    pub fn new(nanos: u64) -> (r: Jitter)
        ensures
            r.state == first_number(nanos),
    {
        Jitter { state: nanos.wrapping_mul(0x9E37_79B9_7F4A_7C15u64) }
    }

    /// The next number.
    pub fn draw(&mut self) -> (r: u64)
        ensures
            r == next_number(old(self).state),
            final(self).state == r,
    {
        let x = self.state;
        let a = x ^ (x << 13u64);
        let b = a ^ (a >> 7u64);
        self.state = b ^ (b << 17u64);
        self.state
    }
}

/// A jail with bans without an end never computes an end.
pub proof fn law_permanent_stays_permanent(c: JailView, past: nat, draw: u64)
    requires
        c.bantime.seconds is None,
    ensures
        ban_seconds(c, past, draw) is None,
{
}

/// Without growing, every ban lasts as long as the configuration says.
pub proof fn law_fixed_length(c: JailView, past: nat, draw: u64)
    requires
        !c.bantime_increment,
    ensures
        ban_seconds(c, past, draw) == c.bantime.seconds,
{
}

/// A growing ban exceeds its upper bound by less than the longest random part.
pub proof fn law_growth_is_bounded(c: JailView, past: nat, draw: u64)
    requires
        c.bantime_increment,
        c.bantime.seconds is Some,
        c.bantime_maxtime is Some,
    ensures
        ({
            let max = time::seconds_or_max(c.bantime_maxtime->0);
            let n = ban_seconds(c, past, draw)->0;
            match c.bantime_rndtime {
                Some(r) => n <= max + time::seconds_or_max(r) && (time::seconds_or_max(r) > 0
                    && n > max ==> n - max < time::seconds_or_max(r)),
                None => n <= max,
            }
        }),
{
}

/// With more earlier bans, and the same random number, a ban is at least as
/// long.
pub proof fn law_growth_never_shrinks(c: JailView, past: nat, more: nat, draw: u64)
    requires
        c.bantime.seconds is Some,
        past <= more,
    ensures
        ban_seconds(c, past, draw)->0 <= ban_seconds(c, more, draw)->0,
{
    let base = c.bantime.seconds->0;
    let f: int = if c.bantime_factor < 1 {
        1
    } else {
        c.bantime_factor as int
    };
    power::lemma_pow_increases(f as nat, past, more);
    power::lemma_pow_positive(f, past);
    power::lemma_pow_positive(f, more);
    let p = power::pow(f, past);
    let q = power::pow(f, more);
    assert(0 <= base * p <= base * q) by (nonlinear_arith)
        requires
            0 <= base,
            0 <= p <= q,
    ;
}

/// Where bans grow without an upper bound and without a random part, a ban
/// after `past` earlier ones lasts the configured length times the factor, or
/// one where that is zero, to the power of `past`, as far as the integers
/// reach.
pub proof fn law_growth_is_geometric(c: JailView, past: nat, draw: u64)
    requires
        c.bantime_increment,
        c.bantime.seconds is Some,
        c.bantime_maxtime is None,
        c.bantime_rndtime is None,
    ensures
        ({
            let base = c.bantime.seconds->0;
            let factor: int = if c.bantime_factor == 0 {
                1
            } else {
                c.bantime_factor as int
            };
            let exact = base * power::pow(factor, past);
            let n = ban_seconds(c, past, draw);
            &&& n is Some
            &&& exact <= u64::MAX ==> n->0 == exact
            &&& exact > u64::MAX ==> n->0 == u64::MAX
        }),
{
    let factor: int = if c.bantime_factor == 0 {
        1
    } else {
        c.bantime_factor as int
    };
    power::lemma_pow_positive(factor, past);
    let base = c.bantime.seconds->0;
    let p = power::pow(factor, past);
    assert(base * p >= 0) by (nonlinear_arith)
        requires
            base >= 0,
            p >= 0,
    ;
}

/// The first ban lasts the configured length. Each further one lasts the
/// factor times as long as the one before it, as far as the integers reach: it
/// is longer, where the factor is more than one and the length more than zero.
pub proof fn law_each_ban_is_longer(c: JailView, past: nat, draw: u64)
    requires
        c.bantime_increment,
        c.bantime.seconds is Some,
        c.bantime_maxtime is None,
        c.bantime_rndtime is None,
    ensures
        ban_seconds(c, 0, draw) == c.bantime.seconds,
        ({
            let n = ban_seconds(c, past, draw)->0;
            let next = ban_seconds(c, past + 1, draw)->0;
            &&& next == u64::MAX || next == n || next == n * c.bantime_factor
            &&& c.bantime_factor >= 1 && n * c.bantime_factor <= u64::MAX ==> next == n
                * c.bantime_factor
            &&& c.bantime_factor >= 1 && n * c.bantime_factor > u64::MAX ==> next == u64::MAX
            &&& c.bantime_factor >= 2 && c.bantime.seconds->0 > 0 ==> next > n || n == u64::MAX
        }),
{
    let base = c.bantime.seconds->0;
    let f: int = if c.bantime_factor < 1 {
        1
    } else {
        c.bantime_factor as int
    };
    power::lemma_pow0(f);
    power::lemma_pow_positive(f, past);
    power::lemma_pow_positive(f, past + 1);
    law_growth_is_geometric(c, 0, draw);
    law_growth_is_geometric(c, past, draw);
    law_growth_is_geometric(c, past + 1, draw);
    let p = power::pow(f, past);
    assert(power::pow(f, past + 1) == f * p) by {
        reveal(power::pow);
    }
    let x = base * p;
    assert(base * (f * p) == x * f) by (nonlinear_arith)
        requires
            x == base * p,
    ;
    assert(base * 1 == base);
    assert(x >= 0) by (nonlinear_arith)
        requires
            x == base * p,
            base >= 0,
            p > 0,
    ;
    assert(x * f >= x) by (nonlinear_arith)
        requires
            x >= 0,
            f >= 1,
    ;
    if f >= 2 && base > 0 {
        assert(x > 0 && x * f > x) by (nonlinear_arith)
            requires
                x == base * p,
                base > 0,
                p > 0,
                f >= 2,
        ;
    }
    assert(u64::MAX * f >= u64::MAX) by (nonlinear_arith)
        requires
            f >= 1,
    ;
    if f == 1 {
        assert(x * f == x);
    }
}

/// An upper bound cuts the length off that a ban would have without it, and
/// does nothing else.
pub proof fn law_upper_bound_cuts_off(c: JailView, past: nat, draw: u64)
    requires
        c.bantime_increment,
        c.bantime.seconds is Some,
        c.bantime_maxtime is Some,
        c.bantime_rndtime is None,
    ensures
        ({
            let max = time::seconds_or_max(c.bantime_maxtime->0);
            let free = ban_seconds(JailView { bantime_maxtime: None, ..c }, past, draw)->0;
            let n = ban_seconds(c, past, draw)->0;
            &&& n <= max
            &&& n <= free
            &&& n == max || n == free
        }),
{
}

/// The random part is added to the length that a ban has without it: the
/// remainder of the random number by its longest length, as far as the
/// integers reach.
pub proof fn law_random_part_is_added(c: JailView, past: nat, draw: u64)
    requires
        c.bantime_increment,
        c.bantime.seconds is Some,
        c.bantime_rndtime is Some,
    ensures
        ({
            let rnd = time::seconds_or_max(c.bantime_rndtime->0);
            let plain = ban_seconds(JailView { bantime_rndtime: None, ..c }, past, draw)->0;
            let n = ban_seconds(c, past, draw)->0;
            &&& rnd == 0 ==> n == plain
            &&& rnd > 0 && plain + draw % rnd <= u64::MAX ==> n == plain + draw % rnd
            &&& rnd > 0 && plain + draw % rnd > u64::MAX ==> n == u64::MAX
        }),
{
}

} // verus!
