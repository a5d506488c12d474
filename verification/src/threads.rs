//! How many worker threads a machine is given.
use vstd::arithmetic::logarithm::{lemma_log0, lemma_log_nonnegative, lemma_log_s, log};
use vstd::arithmetic::power2::{lemma2_to64, pow2};
use vstd::prelude::*;
use crate::config::{setting, u32_setting};
use crate::text::{parse_u32, parsed};

verus! {

/// How many worker threads there are at most.
pub const MAX_THREADS: u32 = 16;

/// The binary logarithm of `n`, rounded down, but `cap` at most.
pub open spec fn capped_log2(n: int, cap: int) -> int {
    if log(2, n) < cap {
        log(2, n)
    } else {
        cap
    }
}

fn floor_log2(n: usize, cap: u32) -> (r: u32)
    ensures
        r == capped_log2(n as int, cap as int),
{
    let mut rest = n;
    let mut r: u32 = 0;
    while rest >= 2 && r < cap
        invariant
            r <= cap,
            log(2, n as int) == r + log(2, rest as int),
        decreases rest,
    {
        proof {
            lemma_log_s(2, rest as int);
        }
        rest = rest / 2;
        r = r + 1;
    }
    proof {
        lemma_log_nonnegative(2, rest as int);
        if rest < 2 {
            lemma_log0(2, rest as int);
        }
    }
    r
}

/// The binary logarithm of the number of worker threads that a standalone program
/// has on a machine with so many cores: sixteen threads at most.
pub fn tpc_l2(cores: usize) -> (r: u32)
    ensures
        r == capped_log2(cores as int, 4),
{
    floor_log2(cores, 4)
}

/// The binary logarithm of the number of worker threads that the C runtime is
/// built with: what the setting says, eight at most, or what the cores give where
/// it is no number.
pub open spec fn built_log2(var: Option<&str>, cores: int) -> int {
    match var {
        Some(s) => match parsed(s@, u32::MAX as nat) {
            Some(n) => if n < 8 {
                n as int
            } else {
                8
            },
            None => capped_log2(cores, 4),
        },
        None => capped_log2(cores, 4),
    }
}

/// The binary logarithm of the number of worker threads that the C runtime is
/// built with.
pub fn built_tpc_l2(var: Option<&str>, cores: usize) -> (r: u32)
    ensures
        r == built_log2(var, cores as int),
{
    match var {
        Some(s) => match parse_u32(s) {
            Some(n) => if n < 8 { n } else { 8 },
            None => tpc_l2(cores),
        },
        None => tpc_l2(cores),
    }
}

/// How many worker threads an interpreter has on a machine with so many cores:
/// the largest power of two that is not more, but eight at most.
pub fn default_tpc(cores: usize) -> (r: u32)
    ensures
        r == pow2(capped_log2(cores as int, 3) as nat),
        1 <= r <= 8,
{
    proof {
        lemma2_to64();
        lemma_log_nonnegative(2, cores as int);
    }
    let l2 = floor_log2(cores, 3);
    match l2 {
        0 => 1,
        1 => 2,
        2 => 4,
        _ => 8,
    }
}

/// The worker threads that were asked for, those of the setting, or as many as
/// the cores give.
pub open spec fn wanted_threads(asked: Option<u32>, var: Option<&str>, cores: int) -> nat {
    match asked {
        Some(n) => n as nat,
        None => setting(var, u32::MAX as nat, pow2(capped_log2(cores, 3) as nat)),
    }
}

/// How many worker threads an interpreter has: those that were asked for, those
/// of the setting, or as many as the cores give, but sixteen at most.
pub fn cli_threads(asked: Option<u32>, var: Option<&str>, cores: usize) -> (r: u32)
    ensures
        r == if wanted_threads(asked, var, cores as int) < MAX_THREADS {
            wanted_threads(asked, var, cores as int)
        } else {
            MAX_THREADS as nat
        },
{
    let n = match asked {
        Some(n) => n,
        None => u32_setting(var, default_tpc(cores)),
    };
    if n < MAX_THREADS {
        n
    } else {
        MAX_THREADS
    }
}

} // verus!
