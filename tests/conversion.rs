use numconverter::{
    as_string_base, convert_to_base_10, format_line, get_bases, get_from_base, group_digits,
    pad_digits, parse_numeral, run_conversions, ErrorCode, Opt,
};

fn opt_with(from_base_char: &str, from_num: Option<&str>, to_bases: &[&str]) -> Opt {
    Opt {
        pad: 0,
        sep_length: 4,
        sep_char: '_',
        no_sep: false,
        from_base: 10,
        silent: false,
        bare: false,
        verbosity: 0,
        from_base_char: from_base_char.to_owned(),
        from_num: from_num.map(|s| s.to_owned()),
        to_bases: to_bases.iter().map(|s| s.to_string()).collect(),
    }
}

#[test]
fn test_bin() {
    assert_eq!(as_string_base(&4, 2).unwrap(), "100");
    assert_eq!(as_string_base(&12, 2).unwrap(), "1100");
    assert_eq!(as_string_base(&187, 2).unwrap(), "10111011");
    assert_eq!(as_string_base(&69, 2).unwrap(), "1000101");
}

#[test]
fn test_oct() {
    assert_eq!(as_string_base(&4, 8).unwrap(), "4");
    assert_eq!(as_string_base(&12, 8).unwrap(), "14");
    assert_eq!(as_string_base(&187, 8).unwrap(), "273");
    assert_eq!(as_string_base(&69, 8).unwrap(), "105");
}

#[test]
fn test_hex() {
    assert_eq!(as_string_base(&4, 16).unwrap(), "4");
    assert_eq!(as_string_base(&12, 16).unwrap(), "C");
    assert_eq!(as_string_base(&187, 16).unwrap(), "BB");
    assert_eq!(as_string_base(&69, 16).unwrap(), "45");
}

#[test]
fn test_get_bases() {
    let mut opt = Opt {
        pad: 0,
        sep_length: 4,
        sep_char: '_',
        no_sep: false,
        from_base: 10,
        silent: false,
        bare: false,
        verbosity: 0,
        from_base_char: "b".to_owned(),
        from_num: Some("187".to_owned()),
        to_bases: Vec::new(),
    };

    let mut to_bases: Vec<String> = opt.to_bases.clone();
    let res = get_bases(&opt, &mut to_bases);
    assert_eq!(res.0, 2);
    assert_eq!(res.1, Some("187".to_owned()));
    assert!(to_bases.is_empty());

    opt.from_base_char = "80".to_owned();
    let res = get_bases(&opt, &mut to_bases);
    assert_eq!(res.0, 10);
    assert_eq!(res.1, Some("80".to_owned()));
    assert!(!to_bases.is_empty());
}

#[test]
fn test_convert_to_base_10() {
    assert_eq!(convert_to_base_10(Some("10111011".to_owned()), 2, '_'), Ok(187));
    assert_eq!(convert_to_base_10(Some("273".to_owned()), 8, '_'), Ok(187));
    assert_eq!(convert_to_base_10(Some("187".to_owned()), 10, '_'), Ok(187));
    assert_eq!(convert_to_base_10(Some("BB".to_owned()), 16, '_'), Ok(187));
    assert_eq!(convert_to_base_10(None, 10, '_'), Err(ErrorCode::InputBaseErr));
}

#[test]
fn zero_renders_as_single_digit() {
    assert_eq!(as_string_base(&0, 2).unwrap(), "0");
    assert_eq!(as_string_base(&0, 33).unwrap(), "0");
}

#[test]
fn render_refuses_bases_outside_range() {
    assert!(as_string_base(&187, 0).is_err());
    assert!(as_string_base(&187, 1).is_err());
    assert!(as_string_base(&187, 34).is_err());
    assert!(as_string_base(&187, u32::MAX).is_err());
    assert_eq!(as_string_base(&32, 33).unwrap(), "W");
    assert_eq!(as_string_base(&33, 33).unwrap(), "10");
}

#[test]
fn render_largest_value() {
    assert_eq!(as_string_base(&u128::MAX, 16).unwrap(), "F".repeat(32));
    assert_eq!(as_string_base(&u128::MAX, 2).unwrap(), "1".repeat(128));
}

#[test]
fn round_trip_in_every_base() {
    let values: [u128; 6] = [0, 1, 187, 1_000_000_007, u64::MAX as u128, u128::MAX];
    for b in 2u32..=33 {
        for v in values.iter() {
            let s = as_string_base(v, b).unwrap();
            assert_eq!(parse_numeral(&s, b), Ok(*v));
        }
    }
}

#[test]
fn decimal_rendering_matches_display() {
    let values: [u128; 5] = [0, 7, 10, 187, u128::MAX];
    for v in values.iter() {
        assert_eq!(as_string_base(v, 10).unwrap(), format!("{}", v));
    }
}

#[test]
fn base_aliases() {
    assert_eq!(get_from_base("b"), Some(2));
    assert_eq!(get_from_base("o"), Some(8));
    assert_eq!(get_from_base("d"), Some(10));
    assert_eq!(get_from_base("h"), Some(16));
    assert_eq!(get_from_base("x"), Some(16));
    assert_eq!(get_from_base("80"), None);
    assert_eq!(get_from_base(""), None);
    assert_eq!(get_from_base("B"), None);
    assert_eq!(get_from_base("bb"), None);
}

#[test]
fn shift_correction_prepends_numeral_slot() {
    let opt = opt_with("80", Some("187"), &["2"]);
    let mut to_bases = opt.to_bases.clone();
    let res = get_bases(&opt, &mut to_bases);
    assert_eq!(res, (10, Some("80".to_owned())));
    assert_eq!(to_bases, vec!["187".to_owned(), "2".to_owned()]);
}

#[test]
fn shift_correction_without_numeral_slot() {
    let mut opt = opt_with("187", None, &["16"]);
    opt.from_base = 8;
    let mut to_bases = opt.to_bases.clone();
    let res = get_bases(&opt, &mut to_bases);
    assert_eq!(res, (8, Some("187".to_owned())));
    assert_eq!(to_bases, vec!["16".to_owned()]);
}

#[test]
fn alias_keeps_output_bases() {
    let opt = opt_with("x", Some("BB"), &["2", "8"]);
    let mut to_bases = opt.to_bases.clone();
    let res = get_bases(&opt, &mut to_bases);
    assert_eq!(res, (16, Some("BB".to_owned())));
    assert_eq!(to_bases, vec!["2".to_owned(), "8".to_owned()]);
}

#[test]
fn parse_errors() {
    assert_eq!(convert_to_base_10(Some(String::new()), 10, '_'), Err(ErrorCode::InputBaseErr));
    assert_eq!(convert_to_base_10(Some("12".to_owned()), 2, '_'), Err(ErrorCode::BaseConversionErr));
    assert_eq!(convert_to_base_10(Some("1G".to_owned()), 16, '_'), Err(ErrorCode::BaseConversionErr));
    assert_eq!(convert_to_base_10(Some("+5".to_owned()), 10, '_'), Err(ErrorCode::BaseConversionErr));
    assert_eq!(convert_to_base_10(Some("___".to_owned()), 10, '_'), Err(ErrorCode::BaseConversionErr));
    assert_eq!(convert_to_base_10(Some("5".to_owned()), 1, '_'), Err(ErrorCode::BaseConversionErr));
    assert_eq!(convert_to_base_10(Some("5".to_owned()), 37, '_'), Err(ErrorCode::BaseConversionErr));
}

#[test]
fn parse_overflow() {
    let max = u128::MAX.to_string();
    assert_eq!(convert_to_base_10(Some(max), 10, '_'), Ok(u128::MAX));
    let over = "340282366920938463463374607431768211456".to_owned();
    assert_eq!(convert_to_base_10(Some(over), 10, '_'), Err(ErrorCode::BaseConversionErr));
    let long = "1".repeat(129);
    assert_eq!(convert_to_base_10(Some(long), 2, '_'), Err(ErrorCode::BaseConversionErr));
}

#[test]
fn parse_strips_separators_and_folds_case() {
    assert_eq!(convert_to_base_10(Some("1011_1011".to_owned()), 2, '_'), Ok(187));
    assert_eq!(convert_to_base_10(Some("_1_0__11_1011_".to_owned()), 2, '_'), Ok(187));
    assert_eq!(convert_to_base_10(Some("b,b".to_owned()), 16, ','), Ok(187));
    assert_eq!(convert_to_base_10(Some("zz".to_owned()), 36, '_'), Ok(1295));
}

#[test]
fn grouping_from_the_right() {
    let s = group_digits("101110111", '_', 4);
    assert_eq!(s, "1_0111_0111");
    assert_eq!(s.matches('_').count(), 2);
    assert_eq!(group_digits("10111011", '_', 4), "1011_1011");
    assert_eq!(group_digits("BB", ' ', 4), "BB");
    assert_eq!(group_digits("12345", ',', 1), "1,2,3,4,5");
    assert_eq!(group_digits("12345", ',', 0), "12345");
    assert_eq!(group_digits("", ',', 3), "");
}

#[test]
fn padding_with_zeros() {
    assert_eq!(pad_digits("BB", 4), "00BB");
    assert_eq!(pad_digits("BB", 2), "BB");
    assert_eq!(pad_digits("BB", 0), "BB");
    assert_eq!(pad_digits("", 3), "000");
}

#[test]
fn line_formatting() {
    let opt = opt_with("b", Some("10111011"), &[]);
    assert_eq!(format_line(187, "2", &opt), Ok("Base 02: 1011_1011".to_owned()));
    assert_eq!(format_line(187, "16", &opt), Ok("Base 16: BB".to_owned()));
    let mut bare = opt.clone();
    bare.bare = true;
    bare.no_sep = true;
    assert_eq!(format_line(187, "2", &bare), Ok("10111011".to_owned()));
    let mut padded = opt.clone();
    padded.pad = 6;
    padded.bare = true;
    assert_eq!(format_line(187, "16", &padded), Ok("00_00BB".to_owned()));
}

#[test]
fn line_errors() {
    let opt = opt_with("d", Some("187"), &[]);
    assert_eq!(format_line(187, "hex", &opt), Err(ErrorCode::TargetBaseErr));
    assert_eq!(format_line(187, "", &opt), Err(ErrorCode::TargetBaseErr));
    assert_eq!(format_line(187, "4294967296", &opt), Err(ErrorCode::TargetBaseErr));
    assert_eq!(format_line(187, "34", &opt), Err(ErrorCode::InputBaseErr));
    assert_eq!(format_line(187, "1", &opt), Err(ErrorCode::InputBaseErr));
}

#[test]
fn run_with_default_bases() {
    let opt = opt_with("d", Some("187"), &[]);
    let lines = run_conversions(&opt).unwrap();
    assert_eq!(
        lines,
        vec![
            "Base 02: 1011_1011".to_owned(),
            "Base 08: 273".to_owned(),
            "Base 10: 187".to_owned(),
            "Base 16: BB".to_owned(),
        ]
    );
}

#[test]
fn run_with_shifted_arguments() {
    let opt = opt_with("187", Some("16"), &["8"]);
    let lines = run_conversions(&opt).unwrap();
    assert_eq!(lines, vec!["Base 16: BB".to_owned(), "Base 08: 273".to_owned()]);
}

#[test]
fn run_stops_at_first_failure() {
    let opt = opt_with("d", Some("187"), &["2", "40", "zz"]);
    assert_eq!(run_conversions(&opt), Err(ErrorCode::InputBaseErr));
    let opt = opt_with("b", Some("12"), &["2"]);
    assert_eq!(run_conversions(&opt), Err(ErrorCode::BaseConversionErr));
    let opt = opt_with("b", None, &["2"]);
    assert_eq!(run_conversions(&opt), Err(ErrorCode::InputBaseErr));
}

#[test]
fn error_descriptions() {
    assert_eq!(ErrorCode::BaseConversionErr.description(), "Base Conversion Error");
    assert_eq!(ErrorCode::TargetBaseErr.description(), "Target Base Error");
    assert_eq!(ErrorCode::InputBaseErr.description(), "Input Base Error");
}
