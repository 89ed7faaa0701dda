use librsdu::units::{double_of, filled_length, generate_bar, human_readable_size, push_blanks, push_decimal};

fn by_floats(size: u64) -> String {
    let kb: f64 = 1024.0;
    let mb: f64 = kb * 1024.0;
    let gb: f64 = mb * 1024.0;
    let tb: f64 = gb * 1024.0;
    let size_f = size as f64;
    if size_f >= tb {
        format!("{:.1} TiB", size_f / tb)
    } else if size_f >= gb {
        format!("{:.1} GiB", size_f / gb)
    } else if size_f >= mb {
        format!("{:.1} MiB", size_f / mb)
    } else if size_f >= kb {
        format!("{:.1} KiB", size_f / kb)
    } else {
        format!("{} B", size)
    }
}

#[test]
fn size_boundaries() {
    assert_eq!(human_readable_size(1023), "1023 B");
    assert_eq!(human_readable_size(1024), "1.0 KiB");
    assert_eq!(human_readable_size(1048576), "1.0 MiB");
    assert_eq!(human_readable_size(1099511627776), "1.0 TiB");
}

#[test]
fn size_of_nothing_and_small_counts() {
    assert_eq!(human_readable_size(0), "0 B");
    assert_eq!(human_readable_size(9), "9 B");
    assert_eq!(human_readable_size(10), "10 B");
    assert_eq!(human_readable_size(512), "512 B");
}

#[test]
fn size_just_below_each_unit() {
    assert_eq!(human_readable_size(1048575), "1024.0 KiB");
    assert_eq!(human_readable_size(1073741823), "1024.0 MiB");
    assert_eq!(human_readable_size(1073741824), "1.0 GiB");
    assert_eq!(human_readable_size(1099511627775), "1024.0 GiB");
}

#[test]
fn size_rounds_to_one_decimal() {
    assert_eq!(human_readable_size(1536), "1.5 KiB");
    assert_eq!(human_readable_size(2048), "2.0 KiB");
    assert_eq!(human_readable_size(1100), "1.1 KiB");
    assert_eq!(human_readable_size(1126), "1.1 KiB");
    assert_eq!(human_readable_size(1127), "1.1 KiB");
    assert_eq!(human_readable_size(1178), "1.2 KiB");
}

#[test]
fn size_ties_go_to_the_even_digit() {
    assert_eq!(human_readable_size(1280), "1.2 KiB");
    assert_eq!(human_readable_size(1792), "1.8 KiB");
    assert_eq!(human_readable_size(1075), "1.0 KiB");
    assert_eq!(human_readable_size(1076), "1.1 KiB");
}

#[test]
fn size_of_the_largest_count() {
    assert_eq!(human_readable_size(u64::MAX), "16777216.0 TiB");
}

#[test]
fn size_agrees_with_floating_point_formatting() {
    let mut samples: Vec<u64> = vec![0, 1, 1023, 1024, 1025, 1075, 1076, 1280, 1792, u64::MAX];
    let mut shift: u32 = 0;
    while shift < 64 {
        let p: u64 = 1u64 << shift;
        for delta in [0u64, 1, 2, 3, 255, 256, 257, 511, 512, 513, 1023, 1024, 1025, 2047, 2048] {
            samples.push(p.wrapping_add(delta));
            samples.push(p.wrapping_sub(delta));
            samples.push(p.wrapping_mul(5).wrapping_add(delta));
            samples.push(p.wrapping_mul(13).wrapping_sub(delta));
        }
        shift += 1;
    }
    let mut k: u64 = 1;
    while k < 400 {
        for delta in [0u64, 1, 511, 512, 513, 1023, 1024, 1025] {
            samples.push((k << 38).wrapping_add(delta).wrapping_add(1u64 << 62));
            samples.push((k << 38).wrapping_sub(delta).wrapping_add(1u64 << 62));
            samples.push((k << 38).wrapping_add(delta).wrapping_add(1u64 << 63));
            samples.push((k << 38).wrapping_sub(delta).wrapping_add(1u64 << 63));
            samples.push(k * 256 + delta);
        }
        k += 1;
    }
    let mut seed: u64 = 0x9e3779b97f4a7c15;
    let mut n = 0;
    while n < 20000 {
        seed ^= seed << 13;
        seed ^= seed >> 7;
        seed ^= seed << 17;
        samples.push(seed);
        samples.push(seed >> (n % 64));
        n += 1;
    }
    for size in samples {
        assert_eq!(human_readable_size(size), by_floats(size), "size {}", size);
    }
}

#[test]
fn double_of_matches_the_cast() {
    for size in [0u64, 1, 9007199254740992, 9007199254740993, 9007199254740994, 9007199254740995,
        u64::MAX, u64::MAX - 1023, u64::MAX - 1024, (1u64 << 63) + 1024, (1u64 << 63) + 1025,
        (1u64 << 63) + 3072, (1u64 << 60) + 128, (1u64 << 60) + 129, (1u64 << 60) + 384]
    {
        assert_eq!(double_of(size), (size as f64) as u128, "size {}", size);
    }
}

#[test]
fn bar_scaling() {
    assert_eq!(generate_bar(100, 100, 10), "##########");
    assert_eq!(generate_bar(50, 100, 10), "#####     ");
    assert_eq!(generate_bar(0, 100, 10), "          ");
    assert_eq!(filled_length(100, 100, 10), 10);
    assert_eq!(filled_length(50, 100, 10), 5);
    assert_eq!(filled_length(0, 100, 10), 0);
}

#[test]
fn bar_rounds_to_the_nearest_cell() {
    assert_eq!(filled_length(1, 3, 30), 10);
    assert_eq!(filled_length(1, 60, 30), 1);
    assert_eq!(filled_length(1, 61, 30), 0);
    assert_eq!(filled_length(49, 1000, 10), 0);
    assert_eq!(filled_length(50, 1000, 10), 1);
    assert_eq!(filled_length(2048, 2048, 30), 30);
}

#[test]
fn bar_never_exceeds_its_width() {
    assert_eq!(filled_length(200, 100, 10), 10);
    assert_eq!(generate_bar(u64::MAX, 1, 4), "####");
    assert_eq!(filled_length(u64::MAX, u64::MAX, usize::MAX), usize::MAX);
    assert_eq!(filled_length(5, 0, 7), 7);
}

#[test]
fn bar_of_empty_siblings_is_blank() {
    assert_eq!(generate_bar(0, 0, 5), "     ");
    assert_eq!(generate_bar(0, 1, 30).len(), 30);
    assert_eq!(generate_bar(7, 9, 0), "");
}

#[test]
fn decimal_and_blanks_append() {
    let mut out = String::from("n=");
    push_decimal(&mut out, 0);
    push_blanks(&mut out, 2);
    push_decimal(&mut out, 18446744073709551615);
    push_blanks(&mut out, 0);
    push_decimal(&mut out, 1000);
    assert_eq!(out, "n=0  184467440737095516151000");
}

#[test]
fn bar_agrees_with_floating_point_rounding() {
    for max in 1u64..200 {
        for size in 0..=max {
            for width in [10usize, 30, 7] {
                let ratio = size as f64 / max as f64;
                let by_floats = (ratio * width as f64).round() as usize;
                assert_eq!(filled_length(size, max, width), by_floats, "{} of {}", size, max);
                let bar = generate_bar(size, max, width);
                assert_eq!(bar, format!("{}{}", "#".repeat(by_floats), " ".repeat(width - by_floats)));
            }
        }
    }
}
