use diskvis::binary64::{hundredths, percent_scaled, share_of_cells, tenths, Double};
use diskvis::display::{human_size, whole_percent};

const KB: u64 = 1024;

fn formatted(bytes: u64) -> String {
    let b = bytes as f64;
    let k = KB as f64;
    if bytes >= KB * KB * KB * KB {
        format!("{:.2} TB", b / (k * k * k * k))
    } else if bytes >= KB * KB * KB {
        format!("{:.2} GB", b / (k * k * k))
    } else if bytes >= KB * KB {
        format!("{:.2} MB", b / (k * k))
    } else if bytes >= KB {
        format!("{:.2} KB", b / k)
    } else {
        format!("{} B", bytes)
    }
}

/// Numbers that spread over all magnitudes.
fn spread(n: usize) -> Vec<u64> {
    let mut x: u64 = 0x9E37_79B9_7F4A_7C15;
    let mut v = vec![0, 1, 2, 3, 5, 7, 10, 99, 100, 1000, u64::MAX, u64::MAX - 1];
    for k in 0..64u32 {
        v.push(1u64 << k);
        v.push((1u64 << k).wrapping_sub(1));
        v.push((1u64 << k) | 1);
    }
    for i in 0..n {
        x ^= x << 13;
        x ^= x >> 7;
        x ^= x << 17;
        v.push(x >> (i % 64));
    }
    v
}

#[test]
fn human_size_examples() {
    assert_eq!(human_size(0), "0 B");
    assert_eq!(human_size(1023), "1023 B");
    assert_eq!(human_size(1024), "1.00 KB");
    assert_eq!(human_size(1536), "1.50 KB");
    assert_eq!(human_size(1_048_575), "1024.00 KB");
    assert_eq!(human_size(1_048_576), "1.00 MB");
    assert_eq!(human_size(1_572_864), "1.50 MB");
    assert_eq!(human_size(1_073_741_824), "1.00 GB");
    assert_eq!(human_size(1_099_511_627_776), "1.00 TB");
    assert_eq!(human_size(u64::MAX), "16777216.00 TB");
}

#[test]
fn human_size_rounds_as_doubles_do() {
    for b in spread(3000) {
        assert_eq!(human_size(b), formatted(b), "{}", b);
    }
}

#[test]
fn human_size_ties_go_to_even() {
    // 1.125, 1.375 and 1.625 KB.
    assert_eq!(human_size(1024 + 128), "1.12 KB");
    assert_eq!(human_size(1024 + 384), "1.38 KB");
    assert_eq!(human_size(1024 + 640), "1.62 KB");
}

#[test]
fn percent_rounds_as_doubles_do() {
    let v = spread(60);
    for &a in &v {
        for &b in &v {
            if b == 0 {
                continue;
            }
            let p = (a as f64 / b as f64) * 100.0;
            if p < 1e16 {
                assert_eq!(tenths(percent_scaled(a, b, 10)), format!("{:.1}", p), "{} {}", a, b);
                assert_eq!(whole_percent(a, b), format!("{:.0}", p), "{} {}", a, b);
            }
        }
    }
}

#[test]
fn whole_is_a_hundred_percent() {
    for b in spread(200) {
        if b > 0 {
            assert_eq!(percent_scaled(b, b, 10), 1000);
            assert_eq!(percent_scaled(0, b, 10), 0);
        }
    }
    assert_eq!(whole_percent(3, 0), "0");
    assert_eq!(whole_percent(1, 3), "33");
    assert_eq!(whole_percent(1, 8), "12");
    assert_eq!(whole_percent(3, 8), "38");
}

#[test]
fn arithmetic_is_that_of_doubles() {
    let v = spread(40);
    for &a in &v {
        for &b in &v {
            if a == 0 || b == 0 {
                continue;
            }
            let x = Double::of(a);
            let y = Double::of(b);
            let q = x.div(y);
            let q2 = q.mant as f64 * 2f64.powi(q.exp);
            assert_eq!(q2, a as f64 / b as f64);
            let p = x.mul(y);
            assert_eq!(p.mant as f64 * 2f64.powi(p.exp), a as f64 * b as f64);
            assert_eq!(x.lt(y), (a as f64) < (b as f64));
        }
    }
}

#[test]
fn shares_of_cells_round_as_doubles_do() {
    let v = spread(60);
    for &a in &v {
        for &b in &v {
            if a == 0 || a > b {
                continue;
            }
            for &cells in &[0u16, 1, 2, 3, 7, 20, 80, 133, 500, 65535] {
                let ratio = (a as f64 / b as f64).clamp(0.05, 0.95);
                let want = (cells as f64 * ratio).round() as u128;
                assert_eq!(share_of_cells(cells, a, b), want, "{} {} {}", a, b, cells);
            }
        }
    }
}

#[test]
fn decimals_are_written_out() {
    assert_eq!(tenths(0), "0.0");
    assert_eq!(tenths(7), "0.7");
    assert_eq!(tenths(1000), "100.0");
    assert_eq!(hundredths(5), "0.05");
    assert_eq!(hundredths(1234), "12.34");
}
