use sysmon::units::fmt_bytes;

fn reference(b: u64) -> String {
    if b < 1024 {
        format!("{} B", b)
    } else if b < 1_048_576 {
        format!("{:.1} KB", b as f64 / 1024.0)
    } else if b < 1_073_741_824 {
        format!("{:.1} MB", b as f64 / 1_048_576.0)
    } else {
        format!("{:.2} GB", b as f64 / 1_073_741_824.0)
    }
}

#[test]
fn bytes_exact_values() {
    assert_eq!(fmt_bytes(0), "0 B");
    assert_eq!(fmt_bytes(1023), "1023 B");
    assert_eq!(fmt_bytes(1024), "1.0 KB");
    assert_eq!(fmt_bytes(1536), "1.5 KB");
    assert_eq!(fmt_bytes(1048575), "1024.0 KB");
    assert_eq!(fmt_bytes(1048576), "1.0 MB");
    assert_eq!(fmt_bytes(1073741824), "1.00 GB");
    assert_eq!(fmt_bytes(u64::MAX), "17179869184.00 GB");
}

#[test]
fn bytes_ties_round_to_even() {
    // 1.25 KB and 1.75 KB are exact halves of a tenth
    assert_eq!(fmt_bytes(1280), "1.2 KB");
    assert_eq!(fmt_bytes(1792), "1.8 KB");
}

#[test]
fn bytes_agree_with_float_formatting() {
    let mut b: u64 = 1;
    while b < u64::MAX / 3 {
        for d in [0u64, 1, 2, 511, 512, 513, 1023] {
            let x = b.saturating_add(d);
            assert_eq!(fmt_bytes(x), reference(x), "{}", x);
            let y = b.saturating_mul(3).saturating_sub(d);
            assert_eq!(fmt_bytes(y), reference(y), "{}", y);
        }
        b = b * 2 + 1;
    }
    for x in 0u64..5000 {
        assert_eq!(fmt_bytes(x * 97), reference(x * 97));
    }
    for x in [(1u64 << 53) + 1, (1u64 << 54) + 2, (1u64 << 54) + 6, (1u64 << 63) + 1024, u64::MAX - 1] {
        assert_eq!(fmt_bytes(x), reference(x), "{}", x);
    }
}
