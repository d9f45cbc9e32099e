use specs_ultra::clock::{days_running, unix_secs_or_zero, uptime_secs};
use specs_ultra::fmt::{fmt_gib, fmt_uptime, fmt_uptime_long, fmt_uptime_short, fmtb};

fn float_fmtb(b: u64) -> String {
    const K: u64 = 1024;
    const M: u64 = K * 1024;
    const G: u64 = M * 1024;
    const T: u64 = G * 1024;
    if b >= T {
        format!("{:.2} TB", b as f64 / T as f64)
    } else if b >= G {
        format!("{:.2} GB", b as f64 / G as f64)
    } else if b >= M {
        format!("{:.1} MB", b as f64 / M as f64)
    } else if b >= K {
        format!("{:.0} KB", b as f64 / K as f64)
    } else {
        format!("{} B", b)
    }
}

fn next(state: &mut u64) -> u64 {
    *state = state.wrapping_mul(6364136223846793005).wrapping_add(1442695040888963407);
    *state
}

#[test]
fn fmtb_small_counts() {
    assert_eq!(fmtb(0), "0 B");
    assert_eq!(fmtb(1), "1 B");
    assert_eq!(fmtb(1023), "1023 B");
}

#[test]
fn fmtb_unit_boundaries() {
    assert_eq!(fmtb(1024), "1 KB");
    assert_eq!(fmtb(1024 * 1024), "1.0 MB");
    assert_eq!(fmtb(1024 * 1024 * 1024), "1.00 GB");
    assert_eq!(fmtb(1024u64 * 1024 * 1024 * 1024), "1.00 TB");
    assert_eq!(fmtb(1024 * 1024 - 1), "1024 KB");
}

#[test]
fn fmtb_rounds_ties_to_even() {
    assert_eq!(fmtb(1536), "2 KB");
    assert_eq!(fmtb(2560), "2 KB");
    assert_eq!(fmtb(3584), "4 KB");
    assert_eq!(fmtb(1310720), "1.2 MB");
    assert_eq!(fmtb(1835008), "1.8 MB");
    assert_eq!(fmtb(1207959552), "1.12 GB");
}

#[test]
fn fmtb_huge_counts() {
    assert_eq!(fmtb(u64::MAX), float_fmtb(u64::MAX));
    assert_eq!(fmtb(u64::MAX), "16777216.00 TB");
    assert_eq!(fmtb((1u64 << 53) + 1), float_fmtb((1u64 << 53) + 1));
}

#[test]
fn fmtb_agrees_with_float_formatting() {
    let mut state = 7u64;
    for shift in 0..64u32 {
        for _ in 0..2000 {
            let b = next(&mut state) >> shift;
            assert_eq!(fmtb(b), float_fmtb(b), "b = {}", b);
        }
    }
    for k in 0..5000u64 {
        for base in [1u64 << 10, 1u64 << 20, 1u64 << 30, 1u64 << 40, 1u64 << 53, 1u64 << 60] {
            let b = base.saturating_add(k * (base >> 12).max(1));
            assert_eq!(fmtb(b), float_fmtb(b), "b = {}", b);
            let half = base / 2 + k;
            assert_eq!(fmtb(half), float_fmtb(half), "b = {}", half);
        }
    }
}

#[test]
fn fmt_gib_agrees_with_float_formatting() {
    let mut state = 11u64;
    for shift in 0..64u32 {
        for _ in 0..500 {
            let b = next(&mut state) >> shift;
            assert_eq!(fmt_gib(b, 3), format!("{:.3} GiB", b as f64 / 1073741824.0));
            assert_eq!(fmt_gib(b, 2), format!("{:.2} GiB", b as f64 / 1073741824.0));
        }
    }
    assert_eq!(fmt_gib(1073741824, 3), "1.000 GiB");
}

#[test]
fn uptime_renderings() {
    assert_eq!(fmt_uptime(0), "0h 00m 00s");
    assert_eq!(fmt_uptime(7389), "2h 03m 09s");
    assert_eq!(fmt_uptime(360000), "100h 00m 00s");
    assert_eq!(fmt_uptime_long(93784), "1d 02h 03m 04s");
    assert_eq!(fmt_uptime_long(59), "0d 00h 00m 59s");
    assert_eq!(fmt_uptime_short(7389), "Up 2h 03m");
    for s in [0u64, 1, 59, 60, 3599, 3600, 86399, 86400, 123456789, u64::MAX] {
        assert_eq!(fmt_uptime(s), format!("{}h {:02}m {:02}s", s / 3600, (s % 3600) / 60, s % 60));
        assert_eq!(
            fmt_uptime_long(s),
            format!("{}d {:02}h {:02}m {:02}s", s / 86400, (s % 86400) / 3600, (s % 3600) / 60, s % 60)
        );
        assert_eq!(fmt_uptime_short(s), format!("Up {}h {:02}m", s / 3600, (s % 3600) / 60));
    }
}

#[test]
fn uptime_arithmetic() {
    assert_eq!(uptime_secs(100, 40), 60);
    assert_eq!(uptime_secs(40, 100), 0);
    assert_eq!(days_running(172800), 2);
    assert_eq!(unix_secs_or_zero(Some(5)), 5);
    assert_eq!(unix_secs_or_zero(None), 0);
}

#[test]
fn now_unix_is_after_2020() {
    assert!(specs_ultra::clock::now_unix() > 1_577_836_800);
}

#[test]
fn uptime_fields_recompose_the_seconds() {
    for s in [0u64, 59, 61, 3661, 86399, 90061, 987654321] {
        let text = fmt_uptime_long(s);
        let parts: Vec<u64> = text
            .split(' ')
            .map(|p| p[..p.len() - 1].parse::<u64>().unwrap())
            .collect();
        assert_eq!(parts[0] * 86400 + parts[1] * 3600 + parts[2] * 60 + parts[3], s);
        for p in text.split(' ').skip(1) {
            assert_eq!(p.len(), 3);
        }
        let short = fmt_uptime(s);
        let parts: Vec<u64> = short
            .split(' ')
            .map(|p| p[..p.len() - 1].parse::<u64>().unwrap())
            .collect();
        assert_eq!(parts[0] * 3600 + parts[1] * 60 + parts[2], s);
    }
}
