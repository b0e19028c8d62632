use sasse::bytes::{ByteSize, SizeError, GB, MB};
use sasse::config::Config;

#[test]
fn a_bare_number_is_bytes() {
    assert_eq!(ByteSize::parse("4096").unwrap().bytes(), 4096);
    assert_eq!(ByteSize::parse("512B").unwrap().bytes(), 512);
}

#[test]
fn suffixes_are_powers_of_1024() {
    assert_eq!(ByteSize::parse("1KB").unwrap().bytes(), 1024);
    assert_eq!(ByteSize::parse("2MB").unwrap().bytes(), 2 * 1024 * 1024);
    assert_eq!(ByteSize::parse("1GB").unwrap().bytes(), 1024 * 1024 * 1024);
}

#[test]
fn spelling_and_spacing_are_forgiving() {
    for spelling in ["200MB", "200mb", "200 MB", " 200MiB ", "200M"] {
        assert_eq!(
            ByteSize::parse(spelling).unwrap().bytes(),
            200 * 1024 * 1024,
            "{spelling} should be 200MB"
        );
    }
}

#[test]
fn nonsense_is_rejected_rather_than_guessed() {
    for bad in ["", "   ", "MB", "twenty", "10 parsecs", "1.5MB", "-1"] {
        assert!(ByteSize::parse(bad).is_err(), "{bad:?} should be rejected");
    }
}

/// A size that overflows must not silently wrap into a tiny budget.
#[test]
fn an_unrepresentable_size_is_an_error() {
    assert!(ByteSize::parse("99999999999999999999GB").is_err());
    assert!(ByteSize::parse(&format!("{}GB", u64::MAX)).is_err());
}

#[test]
fn display_uses_the_largest_exact_unit() {
    for (bytes, spelled) in [
        (512u64, "512B"),
        (1024, "1KB"),
        (4096, "4KB"),
        (2 * 1024 * 1024, "2MB"),
        (1024 * 1024 * 1024, "1GB"),
    ] {
        assert_eq!(ByteSize::new(bytes).to_text(), spelled);
    }
}

/// A size that is not a whole multiple is shown in bytes rather than rounded,
/// because a rounded form would not parse back.
#[test]
fn an_inexact_size_is_shown_in_bytes() {
    assert_eq!(ByteSize::new(1536).to_text(), "1536B");
    assert_eq!(ByteSize::new(3 * 1024 * 1024 + 1).to_text(), "3145729B");
}

/// Anything sasse prints has to be something sasse accepts, or a size it
/// reported cannot be pasted into a config file.
#[test]
fn every_displayed_size_parses_back_to_itself() {
    let interesting = [
        0u64,
        1,
        512,
        1023,
        1024,
        1025,
        4096,
        1536,
        MB - 1,
        MB,
        MB + 1,
        200 * MB,
        GB,
        3 * GB + 7,
        u64::MAX,
    ];

    for bytes in interesting {
        let size = ByteSize::new(bytes);
        let written = size.to_text();
        assert_eq!(
            ByteSize::parse(&written).unwrap(),
            size,
            "{bytes} displayed as {written} did not parse back"
        );
    }
}

#[test]
fn both_written_forms_deserialize() {
    let config =
        Config::parse("gate = \"x\"\nlog_budget = \"2MB\"\nmax_log_size = 2097152").unwrap();
    assert_eq!(config.log_budget, config.max_log_size);
}

#[test]
fn each_way_a_size_can_be_wrong_says_so() {
    assert!(matches!(ByteSize::parse("  "), Err(SizeError::Empty)));
    assert!(matches!(ByteSize::parse("MB"), Err(SizeError::NoNumber { .. })));
    assert!(matches!(
        ByteSize::parse("10 parsecs"),
        Err(SizeError::UnknownSuffix { .. })
    ));
    assert!(matches!(
        ByteSize::parse(&format!("{}GB", u64::MAX)),
        Err(SizeError::TooLarge { .. })
    ));
    for bad in ["", "MB", "10 parsecs", "99999999999999999999GB", "18446744073709551615GB"] {
        assert!(!ByteSize::parse(bad).unwrap_err().message().is_empty());
    }
}
