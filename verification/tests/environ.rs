use cadence::environ::{
    cpu_model, device_recorded, isolcpus, parse_count, parse_rates, tsc_flags,
    valid_tail_environment,
};
use cadence::text::{chars_of, parse_number, split_text, string_of, trim, Separator};

#[test]
fn rates_are_read_from_a_list() {
    assert_eq!(parse_rates(Some("10000, 500000 ,1000000")), vec![10_000, 500_000, 1_000_000]);
    assert_eq!(parse_rates(Some("x,7,-3,+8,")), vec![7, 8]);
    assert_eq!(parse_rates(Some("18446744073709551615,18446744073709551616")), vec![u64::MAX]);
    assert_eq!(parse_rates(Some("none")), vec![10_000, 100_000, 1_000_000]);
    assert_eq!(parse_rates(Some("")), vec![10_000, 100_000, 1_000_000]);
    assert_eq!(parse_rates(None), vec![10_000, 100_000, 1_000_000]);
}

#[test]
fn counts_fall_back_to_the_default() {
    assert_eq!(parse_count(Some("25"), 10), 25);
    assert_eq!(parse_count(Some("0"), 10), 0);
    assert_eq!(parse_count(Some(" 25"), 10), 10);
    assert_eq!(parse_count(Some("99999999999999999999"), 10), 10);
    assert_eq!(parse_count(None, 10), 10);
}

#[test]
fn numbers_agree_with_the_standard_library() {
    for text in ["", "+", "-1", "+0", "007", "1_0", "12a", "٣", "18446744073709551615", "++1"] {
        let ours = parse_number(&chars_of(text), u64::MAX);
        assert_eq!(ours, text.parse::<u64>().ok(), "{text:?}");
    }
}

#[test]
fn model_name_is_found() {
    let info = "processor\t: 0\nmodel name\t: Example CPU @ 3.0GHz: x\nmodel name\t: Other\n";
    assert_eq!(cpu_model(info), "Example CPU @ 3.0GHz");
    assert_eq!(cpu_model("model name\nmodel name: B"), "unknown");
    assert_eq!(cpu_model("cpu model name: A"), "unknown");
    assert_eq!(cpu_model(""), "unknown");
}

#[test]
fn tsc_flags_are_listed() {
    assert_eq!(tsc_flags("flags: nonstop_tsc fpu constant_tsc"), "constant_tsc,nonstop_tsc");
    assert_eq!(tsc_flags("constant_tsc"), "constant_tsc");
    assert_eq!(tsc_flags("a nonstop_tsc"), "nonstop_tsc");
    assert_eq!(tsc_flags("tsc"), "none (TSC may be unreliable)");
}

#[test]
fn isolated_cores_are_found() {
    assert_eq!(isolcpus("ro  isolcpus=2,3 quiet isolcpus=4"), "isolcpus=2,3");
    assert_eq!(isolcpus("root=/dev/sda xisolcpus=1"), "none");
    assert_eq!(isolcpus(""), "none");
}

#[test]
fn environments_are_judged() {
    assert!(valid_tail_environment("linux", "isolcpus=2"));
    assert!(!valid_tail_environment("linux", "none"));
    assert!(!valid_tail_environment("macos", "isolcpus=2"));
    assert!(device_recorded("/dev/nvme0n1"));
    assert!(!device_recorded("unset (record the block device!)"));
}

#[test]
fn trimming_and_splitting_agree_with_the_standard_library() {
    for text in ["", " ", " a ", "\u{3000}x\u{85}", "a b", "\t\na\u{200b} ", "a:b::c", ":"] {
        assert_eq!(trim(text), text.trim(), "{text:?}");
        let pieces: Vec<String> = split_text(&chars_of(text), Separator::At(':'))
            .iter()
            .map(|p| string_of(p))
            .collect();
        assert_eq!(pieces, text.split(':').collect::<Vec<_>>(), "{text:?}");
        let words: Vec<String> = split_text(&chars_of(text), Separator::White)
            .iter()
            .map(|p| string_of(p))
            .filter(|w| !w.is_empty())
            .collect();
        assert_eq!(words, text.split_whitespace().collect::<Vec<_>>(), "{text:?}");
    }
}
