use subaru_web_ql::dataset::{band_unit_for_display, column_for_name, text_equals, Column};
use subaru_web_ql::text::{push_decimal, scan_column_id, scan_i32, scan_u64, trim};

#[test]
fn trim_removes_unicode_whitespace_at_both_ends() {
    assert_eq!(trim("  ID \t"), "ID");
    assert_eq!(trim("\u{3000}x y\u{a0}\u{2028}"), "x y");
    assert_eq!(trim(""), "");
    assert_eq!(trim(" \n\r "), "");
    assert_eq!(trim("name"), "name");
}

#[test]
fn trim_agrees_with_std() {
    for s in ["  a b  ", "\u{85}q\u{205f}", "\u{2000}\u{200a}", "x\u{200b}", "\u{b}z\u{c}"] {
        assert_eq!(trim(s), s.trim());
    }
}

#[test]
fn column_id_scans_like_scan_fmt() {
    assert_eq!(scan_column_id("C12"), Some(12));
    assert_eq!(scan_column_id(" C 7"), Some(7));
    assert_eq!(scan_column_id("C+5"), Some(5));
    assert_eq!(scan_column_id("C-3"), Some(-3));
    assert_eq!(scan_column_id("C12abc"), Some(12));
    assert_eq!(scan_column_id("C007"), Some(7));
    assert_eq!(scan_column_id("D12"), None);
    assert_eq!(scan_column_id("C"), None);
    assert_eq!(scan_column_id("C  "), None);
    assert_eq!(scan_column_id("C+"), None);
    assert_eq!(scan_column_id("C-+4"), None);
    assert_eq!(scan_column_id("Cx"), None);
    assert_eq!(scan_column_id(""), None);
    assert_eq!(scan_column_id("C2147483647"), Some(i32::MAX));
    assert_eq!(scan_column_id("C2147483648"), None);
    assert_eq!(scan_column_id("C-2147483648"), Some(i32::MIN));
    assert_eq!(scan_column_id("C-2147483649"), None);
}

#[test]
fn decimal_scans_like_scan_fmt() {
    assert_eq!(scan_u64("1234"), Some(1234));
    assert_eq!(scan_u64("  42 MB"), Some(42));
    assert_eq!(scan_u64("+9"), Some(9));
    assert_eq!(scan_u64("-1"), None);
    assert_eq!(scan_u64("-0"), None);
    assert_eq!(scan_u64("abc"), None);
    assert_eq!(scan_u64("18446744073709551615"), Some(u64::MAX));
    assert_eq!(scan_u64("18446744073709551616"), None);
    assert_eq!(scan_i32("-17x"), Some(-17));
    assert_eq!(scan_i32("\t\n99"), Some(99));
}

#[test]
fn decimal_printing_is_exact() {
    let mut s = String::from("size=");
    push_decimal(&mut s, 0);
    assert_eq!(s, "size=0");
    let mut s = String::new();
    push_decimal(&mut s, 1234567);
    assert_eq!(s, "1234567");
    let mut s = String::new();
    push_decimal(&mut s, u64::MAX);
    assert_eq!(s, u64::MAX.to_string());
}

#[test]
fn printed_decimal_scans_back() {
    for n in [0u64, 7, 10, 99, 1000, 123456789, u64::MAX] {
        let mut s = String::new();
        push_decimal(&mut s, n);
        assert_eq!(scan_u64(&s), Some(n));
    }
}

#[test]
fn band_units_are_shown_as_entities() {
    assert_eq!(band_unit_for_display(&"A".to_string()), "&#8491;");
    assert_eq!(band_unit_for_display(&"um".to_string()), "&#181;m");
    assert_eq!(band_unit_for_display(&"nm".to_string()), "nm");
    assert_eq!(band_unit_for_display(&" A".to_string()), " A");
    for u in ["A", "um", "", "x"] {
        let shown = band_unit_for_display(&u.to_string());
        assert_ne!(shown, "A");
        assert_ne!(shown, "um");
    }
}

#[test]
fn column_names_are_recognised() {
    assert_eq!(column_for_name("DATA_ID"), Some(Column::DataId));
    assert_eq!(column_for_name("PROC_ID"), Some(Column::ProcessId));
    assert_eq!(column_for_name("BAND_REFVAL"), Some(Column::BandRef));
    assert_eq!(column_for_name("CENTER_DEC"), Some(Column::Dec));
    assert_eq!(column_for_name("PATH"), Some(Column::FilePath));
    assert_eq!(column_for_name("ACCESS_REF"), Some(Column::FileUrl));
    assert_eq!(column_for_name("data_id"), None);
    assert_eq!(column_for_name(" PATH"), None);
    assert!(text_equals("abc", "abc"));
    assert!(!text_equals("abc", "abd"));
}

fn scan_fmt_i32(input: &str, format: &str) -> Option<i32> {
    scan_fmt::parse::scan(input, format).next().and_then(|t| t.parse::<i32>().ok())
}

fn scan_fmt_u64(input: &str) -> Option<u64> {
    scan_fmt::parse::scan(input, "{d}").next().and_then(|t| t.parse::<u64>().ok())
}

#[test]
fn scanning_agrees_with_scan_fmt() {
    let inputs = [
        "C12", " C 7", "C+5", "C-3", "C12abc", "D12", "C", "C  ", "C+", "C-+4", "Cx", "", "  ",
        "C2147483647", "C2147483648", "C-2147483648", "C-2147483649", "\tC\n42", "C 0012 3",
        "12", "-5", "+", "-", "+-1", "18446744073709551615", "18446744073709551616", "7 8",
        "c12", "C\u{a0}3",
    ];
    for s in inputs {
        assert_eq!(scan_column_id(s), scan_fmt_i32(s, "C{d}"), "C{{d}} on {:?}", s);
        assert_eq!(scan_i32(s), scan_fmt_i32(s, "{d}"), "{{d}} on {:?}", s);
        assert_eq!(scan_u64(s), scan_fmt_u64(s), "u64 {{d}} on {:?}", s);
    }
}
