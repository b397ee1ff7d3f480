use dockfoxbuild::duration::{Duration, DurationError};
use dockfoxbuild::size::{Size, SizeError, LARGEST_WHOLE};

#[test]
fn durations_are_read() {
    assert_eq!(Duration::from_str("6h").unwrap().0, 21_600);
    assert_eq!(Duration::from_str("90m").unwrap().0, 5_400);
    assert_eq!(Duration::from_str("2d").unwrap().0, 172_800);
    assert_eq!(Duration::from_str(" 2 w ").unwrap().0, 1_209_600);
    assert_eq!(Duration::from_str("336h").unwrap().0, Duration::from_str("2w").unwrap().0);
    assert_eq!(Duration::from_str("+17").unwrap().0, 17);
    assert_eq!(*Duration::from_str("1m").unwrap(), 60);
    for bad in ["", "h", "1.5h", "-1m", "1y", "1 000", "18446744073709551616"] {
        assert_eq!(Duration::from_str(bad).unwrap_err(), DurationError::NotANumber);
    }
}

#[test]
fn durations_that_do_not_fit() {
    assert!(Duration::fits("18446744073709551615"));
    assert!(!Duration::fits("18446744073709551615m"));
    assert!(Duration::fits("no number"));
    assert!(Duration::fits("307445734561825860m"));
    assert!(!Duration::fits("307445734561825861m"));
}

#[test]
fn durations_are_written_and_read_back() {
    let cases = [
        (0, "0w"),
        (1, "1"),
        (60, "1m"),
        (3600, "1h"),
        (90_000, "25h"),
        (86_400, "1d"),
        (1_209_600, "2w"),
        (u64::MAX, "18446744073709551615"),
    ];
    for (n, text) in cases {
        assert_eq!(Duration(n).to_string(), text);
        assert_eq!(Duration::from_str(text).unwrap().0, n);
    }
}

#[test]
fn sizes_are_read() {
    assert_eq!(Size::from_str("512MB").unwrap().0, 536_870_912);
    assert_eq!(Size::from_str(" 100 GB").unwrap().0, 107_374_182_400);
    assert_eq!(Size::from_str("1KB").unwrap().0, 1024);
    assert_eq!(Size::from_str("123").unwrap().0, 123);
    assert_eq!(*Size::from_str("0GB").unwrap(), 0);
    assert_eq!(Size::from_str("9007199254740992GB").unwrap().0, u64::MAX);
    assert_eq!(Size::default().0, 0);
    for bad in ["", "123B", "1.5", "-1", "x"] {
        assert!(matches!(Size::from_str(bad), Err(SizeError::NotANumber)));
    }
}

#[test]
fn fractional_sizes_are_left_to_floating_point() {
    match Size::from_str("1.5 GB") {
        Err(SizeError::Fractional { mantissa, unit }) => {
            assert_eq!(mantissa, "1.5");
            assert_eq!(unit, 1_073_741_824);
        }
        other => panic!("{:?}", other),
    }
    assert!(matches!(Size::from_str("KB"), Err(SizeError::Fractional { .. })));
    assert!(matches!(Size::from_str("9007199254740993KB"), Err(SizeError::Fractional { .. })));
}

#[test]
fn whole_sizes_agree_with_floating_point() {
    for n in [0u64, 1, 7, 1023, 4_294_967_297, LARGEST_WHOLE - 1, LARGEST_WHOLE] {
        for (unit, factor) in [("KB", 1024.0f64), ("MB", 1048576.0), ("GB", 1073741824.0)] {
            let text = format!("{}{}", n, unit);
            let want = (n.to_string().parse::<f64>().unwrap() * factor) as u64;
            assert_eq!(Size::from_str(&text).unwrap().0, want);
        }
    }
}

#[test]
fn sizes_are_written_and_read_back() {
    let cases = [
        (0, "0GB"),
        (1024, "1KB"),
        (1_572_864, "1536KB"),
        (1_048_576, "1MB"),
        (107_374_182_400, "100GB"),
        (0x8000_0000_0000_0000, "8589934592GB"),
    ];
    for (n, text) in cases {
        assert_eq!(Size(n).to_string(), text);
        assert_eq!(Size::from_str(text).unwrap().0, n);
    }
    assert_eq!(Size(1025).to_string(), "1025B");
}
