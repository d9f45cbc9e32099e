//! Disk space and health judgements.
use vstd::prelude::*;

verus! {

/// Bytes in use on a volume of `total` bytes with `avail` available (0 when the
/// reading claims more available than total).
pub fn used_bytes(total: u64, avail: u64) -> (r: u64)
    ensures
        r == if total >= avail {
            (total - avail) as u64
        } else {
            0
        },
{
    total.saturating_sub(avail)
}

/// The verdict shown for a health percentage.
pub open spec fn health_status_spec(hp: u8) -> Seq<char> {
    if hp > 80 {
        "GOOD"@
    } else if hp > 50 {
        "FAIR"@
    } else {
        "POOR"@
    }
}

/// The verdict shown for a health percentage: above 80 good, above 50 fair, else poor.
pub fn health_status(hp: u8) -> (r: &'static str)
    ensures
        r@ == health_status_spec(hp),
{
    if hp > 80 {
        "GOOD"
    } else if hp > 50 {
        "FAIR"
    } else {
        "POOR"
    }
}

/// The health shown when a volume reports none: 100.
pub fn health_or_full(hp: Option<u8>) -> (r: u8)
    ensures
        r == match hp {
            Some(h) => h,
            None => 100u8,
        },
{
    match hp {
        Some(h) => h,
        None => 100,
    }
}

/// The label of the SMART toggle for a volume whose report is `expanded`.
pub fn smart_toggle_label(expanded: bool) -> (r: &'static str)
    ensures
        r@ == if expanded {
            "[ Hide SMART ]"@
        } else {
            "[ Show SMART ]"@
        },
{
    if expanded {
        "[ Hide SMART ]"
    } else {
        "[ Show SMART ]"
    }
}

/// The sum of `v`, wrapping at 2^64 as the release build's `Iterator::sum` does.
pub open spec fn wrapped_sum(v: Seq<u64>) -> nat
    decreases v.len(),
{
    if v.len() == 0 {
        0
    } else {
        ((wrapped_sum(v.drop_last()) + v.last()) % 0x1_0000_0000_0000_0000) as nat
    }
}

/// The total of the byte counts `v` (wrapping at 2^64).
pub fn total_bytes(v: &Vec<u64>) -> (r: u64)
    ensures
        r == wrapped_sum(v@),
{
    let mut t: u64 = 0;
    let mut i: usize = 0;
    while i < v.len()
        invariant
            i <= v.len(),
            t == wrapped_sum(v@.take(i as int)),
        decreases v.len() - i,
    {
        assert(v@.take(i + 1).drop_last() =~= v@.take(i as int));
        t = (((t as u128) + (v[i] as u128)) % 0x1_0000_0000_0000_0000) as u64;
        i = i + 1;
    }
    assert(v@.take(v.len() as int) =~= v@);
    t
}

} // verus!
