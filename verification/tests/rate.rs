use chagle::rate::{parse_bandwidth_limit, NumberError, RateError};

#[test]
fn whole_limits() {
    assert_eq!(parse_bandwidth_limit("0B").unwrap(), 0);
    assert_eq!(parse_bandwidth_limit("  2 KB ").unwrap(), 2048);
    assert_eq!(parse_bandwidth_limit("9007199254740992B").unwrap(), 9007199254740992);
}

#[test]
fn broken_limits_are_cut_off() {
    assert_eq!(parse_bandwidth_limit("1.5KB").unwrap(), 1536);
    assert_eq!(parse_bandwidth_limit("0.1KB").unwrap(), 102);
    assert_eq!(parse_bandwidth_limit("1e3B").unwrap(), 1000);
    assert_eq!(parse_bandwidth_limit("2.5B").unwrap(), 2);
}

#[test]
fn limits_agree_with_floating_point() {
    let numbers = [
        "0.3", "1.1", "123.456", "0.0009765625", "1e-3", "9007199254740993", "1e22", "3.14159e5",
        ".5", "7.", "+4.25", "-1", "1e400", "1e-400", "inf", "NaN", "-inf", "+INFINITY", "-nan",
        "4.9e-324", "2.2250738585072011e-308", "1.7976931348623157e308", "0e999999999999", "-0.0",
        "18446744073709551615", "18446744073709551616", "17592186044415.9999999999999999",
        "0.1000000000000000055511151231257827",
    ];
    for n in numbers {
        for (suffix, unit) in [("B", 1u64), ("KB", 1024), ("MB", 1024 * 1024)] {
            let value: f64 = n.parse().unwrap();
            let expected = (value * unit as f64) as u64;
            let text = format!("{}{}", n, suffix);
            assert_eq!(parse_bandwidth_limit(&text).unwrap(), expected, "{}", text);
        }
    }
}

#[test]
fn many_limits_agree_with_floating_point() {
    let mut seed: u64 = 88172645463325252;
    let mut next = move |n: u64| {
        seed ^= seed << 13;
        seed ^= seed >> 7;
        seed ^= seed << 17;
        seed % n
    };
    for _ in 0..3000 {
        let mut n = String::new();
        for _ in 0..next(25) {
            n.push(char::from(b'0' + next(10) as u8));
        }
        if next(2) == 0 {
            n.push('.');
            for _ in 0..next(25) {
                n.push(char::from(b'0' + next(10) as u8));
            }
        }
        if next(3) == 0 {
            n.push_str(&format!("e{}", next(60) as i64 - 30));
        }
        let (suffix, unit) = [("B", 1u64), ("KB", 1024), ("MB", 1024 * 1024)][next(3) as usize];
        let text = format!("{}{}", n, suffix);
        match n.parse::<f64>() {
            Ok(value) => {
                let expected = (value * unit as f64) as u64;
                assert_eq!(parse_bandwidth_limit(&text).unwrap(), expected, "{}", text);
            }
            Err(_) => assert!(parse_bandwidth_limit(&text).is_err(), "{}", text),
        }
    }
}

#[test]
fn wrong_limits() {
    let e = parse_bandwidth_limit("12").unwrap_err();
    assert!(matches!(e, RateError::InvalidUnit));
    assert_eq!(e.cause(), None);
    assert_eq!(e.message(), "Invalid bandwidth unit. Use MB, KB, or B");
    let e = parse_bandwidth_limit("1GB").unwrap_err();
    assert!(matches!(&e, RateError::InvalidNumber(n, NumberError::Invalid) if n == "1G"));
    assert_eq!(e.message(), "Invalid bandwidth number: 1G");
    for wrong in ["B", "KB", "one MB", "1_000B", "0x10B", "1e B", "--1B", "1.2.3KB"] {
        assert!(parse_bandwidth_limit(wrong).is_err(), "{}", wrong);
    }
}

#[test]
fn wrong_numbers_are_explained() {
    for n in ["", "  ", "+", "-", ".", "e5", "x", "1 2"] {
        let e = parse_bandwidth_limit(&format!("{}KB", n)).unwrap_err();
        let expected = n.trim().parse::<f64>().unwrap_err().to_string();
        assert_eq!(e.cause().unwrap().message(), expected, "{}", n);
    }
}
