use rudb::{format_size, page_budget, parse_size, size_parts, size_scale};
use rudb::{Config, Error, ErrorCode, Measured, Timeout};

const CEILING: f64 = 18_446_744_073_709_551_616.0;

fn measured(text: &str) -> Option<Measured> {
    let (number, unit) = size_parts(text);
    let number: f64 = number.parse().ok()?;
    let bytes = number * size_scale(unit).unwrap_or(1) as f64;
    if !bytes.is_finite() || bytes < 0.0 {
        Some(Measured::NotASize)
    } else if bytes >= CEILING {
        Some(Measured::TooLarge)
    } else {
        Some(Measured::Bytes(bytes as u64))
    }
}

fn size(text: &str) -> Result<u64, Error> {
    parse_size(text, measured(text))
}

fn config() -> Config {
    Config::new(Some(8_000_000_000), Some(4))
}

#[test]
fn the_defaults_are_most_of_the_machine_and_every_core() {
    let config = Config::new(Some(8_000_000_000), Some(4));
    assert_eq!(config.memory_limit(), Some(8_000_000_000));
    assert_eq!(config.query_timeout(), None);
    assert!(config.threads() >= 1);
    assert_eq!(config.threads(), 4);
    assert_eq!(Config::new(None, None).threads(), 1);
}

#[test]
fn a_setting_reads_back_as_what_it_was_set_to() {
    let config = config()
        .with_memory_limit(1024)
        .with_threads(4)
        .expect("four is a thread count")
        .with_query_timeout(Timeout::from_secs(30));
    assert_eq!(config.memory_limit(), Some(1024));
    assert_eq!(config.threads(), 4);
    assert_eq!(config.query_timeout(), Some(Timeout::from_secs(30)));
}

#[test]
fn a_limit_can_be_taken_off_again() {
    let config = config()
        .with_memory_limit(1024)
        .with_no_memory_limit()
        .with_query_timeout(Timeout::from_secs(1))
        .with_no_query_timeout();
    assert_eq!(config.memory_limit(), None);
    assert_eq!(config.query_timeout(), None);
}

#[test]
fn no_threads_at_all_is_refused_rather_than_silently_made_one() {
    let error = config().with_threads(0).expect_err("zero threads runs nothing");
    assert!(error.message.contains("at least 1"), "{error:?}");
    assert_eq!(error.code(), ErrorCode::InvalidInput);
}

#[test]
fn a_decimal_unit_is_a_power_of_a_thousand_and_a_binary_one_a_power_of_1024() {
    assert_eq!(size("1024").expect("a number is bytes"), 1024);
    assert_eq!(size("1KB").expect("a kilobyte"), 1000);
    assert_eq!(size("1MB").expect("a megabyte"), 1_000_000);
    assert_eq!(size("10GB").expect("ten gigabytes"), 10_000_000_000);
    assert_eq!(size("1TB").expect("a terabyte"), 1_000_000_000_000);
    assert_eq!(size("1KiB").expect("a kibibyte"), 1024);
    assert_eq!(size("1MiB").expect("a mebibyte"), 1024 * 1024);
    assert_eq!(size("1GiB").expect("a gibibyte"), 1024u64.pow(3));
    assert_eq!(size("1TiB").expect("a tebibyte"), 1024u64.pow(4));
}

#[test]
fn the_two_spellings_of_a_gigabyte_are_two_different_numbers() {
    let decimal = size("1GB").expect("a gigabyte");
    let binary = size("1GiB").expect("a gibibyte");
    assert_eq!(decimal, 1_000_000_000);
    assert_eq!(binary, 1_073_741_824);
}

#[test]
fn case_and_a_space_before_the_unit_are_both_allowed() {
    assert_eq!(size("512mb").expect("lower case"), 512_000_000);
    assert_eq!(size("512 MB").expect("a space"), 512_000_000);
    assert_eq!(size("  512MiB  ").expect("surrounding space"), 512 * 1024 * 1024);
    assert_eq!(size("512 gib").expect("both at once"), 512 * 1024u64.pow(3));
}

#[test]
fn a_fraction_is_a_size_because_duckdb_takes_one() {
    assert_eq!(size("1.5GB").expect("a gigabyte and a half"), 1_500_000_000);
    assert_eq!(size("0.5MiB").expect("half a mebibyte"), 512 * 1024);
}

#[test]
fn something_that_is_not_a_size_says_so() {
    assert!(size("").is_err());
    assert!(size("lots").is_err());
    assert!(size("-1").is_err());
    let error = size("5PB").expect_err("petabytes are not a unit here");
    assert!(error.message.contains("Unknown unit"), "{error:?}");
    assert!(error.message.contains("'pb'"), "the unit is named in lower case: {error:?}");
    let error = size("16777216TiB").expect_err("that does not fit in a u64");
    assert!(error.message.contains("64 bit"), "{error:?}");
}

#[test]
fn each_refusal_of_a_size_says_which_one_it_is() {
    assert_eq!(size("lots").unwrap_err().message, "Memory must have a number (e.g. 1GB)");
    assert_eq!(size(" -1 ").unwrap_err().message, "\"-1\" is not a size");
    assert_eq!(
        size("16777216TiB").unwrap_err().message,
        "\"16777216TiB\" is larger than a 64 bit size"
    );
    assert_eq!(size("lots").unwrap_err().code(), ErrorCode::Parser);
}

#[test]
fn a_written_size_comes_apart_into_a_number_and_a_unit() {
    assert_eq!(size_parts(" 12.5 GiB "), ("12.5", "GiB"));
    assert_eq!(size_parts("7"), ("7", ""));
    assert_eq!(size_parts("MB"), ("", "MB"));
    assert_eq!(size_scale("gIb"), Some(1_073_741_824));
    assert_eq!(size_scale("PB"), None);
}

#[test]
fn a_size_prints_back_as_the_unit_it_was_written_in() {
    assert_eq!(format_size(1024), "1KiB");
    assert_eq!(format_size(10 * 1024u64.pow(3)), "10GiB");
    assert_eq!(format_size(2_000_000_000), "2GB");
    assert_eq!(format_size(0), "0B");
    assert_eq!(format_size(1025), "1025B");
}

#[test]
fn a_printed_size_reads_back_as_the_bytes_it_was_printed_from() {
    for bytes in [0, 1, 999, 1000, 1024, 1536, 2_000_000_000, 10 * 1024u64.pow(3), 3 << 40] {
        assert_eq!(size(&format_size(bytes)).unwrap(), bytes, "{bytes}");
    }
}

#[test]
fn the_settings_list_is_what_print_config_prints() {
    let config = config()
        .with_memory_limit_text("2GB", measured("2GB"))
        .expect("two gigabytes")
        .with_threads(8)
        .expect("eight is a thread count")
        .with_query_timeout(Timeout::from_millis(1500));
    let settings = config.settings();
    assert_eq!(settings[0], ("memory-limit", "2GB".to_string()));
    assert_eq!(settings[1], ("threads", "8".to_string()));
    assert_eq!(settings[2], ("query-timeout", "1500ms".to_string()));
}

#[test]
fn a_limit_taken_off_prints_as_the_absence_of_one_rather_than_as_a_number() {
    let settings = config().with_no_memory_limit().settings();
    assert_eq!(settings[0].1, "unlimited");
    assert_eq!(settings[2].1, "none");
}

#[test]
fn the_default_limit_prints_as_a_size() {
    let printed = config().settings()[0].1.clone();
    assert_ne!(printed, "unlimited");
    assert!(printed.ends_with('B'), "{printed}");
}

#[test]
fn half_of_the_limit_is_kept_in_pages() {
    assert_eq!(page_budget(None), usize::MAX);
    assert_eq!(page_budget(Some(1001)), 500);
}

#[test]
fn a_timeout_counts_its_milliseconds() {
    assert_eq!(Timeout::from_millis(2345).as_millis(), 2345);
    assert_eq!(Timeout::from_secs(3).as_millis(), 3000);
}

#[test]
fn a_printed_size_reads_back_in_any_case_and_spacing() {
    for bytes in [0, 999, 1000, 1 << 10, 16 << 30, 2_000_000_000, 3 << 40, u64::MAX] {
        let printed = format_size(bytes);
        let (number, unit) = size_parts(&printed);
        for spaced in [
            printed.clone(),
            format!("{number} {unit}"),
            format!("  {number}\t{}\n", unit.to_lowercase()),
            format!("{number}{} ", unit.to_uppercase()),
        ] {
            let (number, unit) = size_parts(&spaced);
            let scale = size_scale(unit).unwrap();
            assert_eq!(number.parse::<u64>().unwrap() * scale, bytes, "{spaced:?}");
        }
    }
}
