use asitop::soc::{parse_count, parse_gpu_count, power_budget_for_soc, read_soc_info};
use asitop::text::{
    begins_with, chars_of, decimal, find_line_with, is_before, is_white_space, parse_unsigned,
    part_after_last, same_text, signed_decimal, trim,
};

#[test]
fn characters_of_a_text() {
    assert_eq!(chars_of("aé▏"), vec!['a', 'é', '▏']);
    assert_eq!(chars_of("").len(), 0);
}

#[test]
fn numerals_agree_with_formatting() {
    for n in [0_u64, 7, 9, 10, 99, 100, 65535, u64::MAX] {
        assert_eq!(decimal(n), format!("{}", n));
    }
    for n in [0_i64, -1, 12, i64::MIN, i64::MAX] {
        assert_eq!(signed_decimal(n), format!("{}", n));
    }
}

#[test]
fn numerals_read_back() {
    for n in [0_u64, 5, 10, 4095, u64::MAX] {
        assert_eq!(parse_unsigned(decimal(n).as_str(), u64::MAX), Some(n));
    }
    assert_eq!(parse_unsigned("300", 299), None);
    assert_eq!(parse_unsigned("299", 299), Some(299));
}

#[test]
fn unsigned_numbers_agree_with_parsing() {
    for text in [
        "", "+", "-", "0", "+7", "-7", "++7", "007", "12a", " 12", "12 ", "1_000",
        "18446744073709551615", "18446744073709551616", "99999999999999999999999", "٣",
    ] {
        assert_eq!(parse_unsigned(text, u64::MAX), text.parse::<u64>().ok());
    }
}

#[test]
fn white_space_agrees_with_characters() {
    for n in 0..=0x10ffff_u32 {
        if let Some(c) = char::from_u32(n) {
            assert_eq!(is_white_space(c), c.is_whitespace());
        }
    }
}

#[test]
fn trimming_agrees_with_texts() {
    for text in ["", " ", "a", " a ", "\t\n a b \r\n", "\u{2003}x\u{a0}", "x  "] {
        assert_eq!(trim(text), text.trim());
    }
}

#[test]
fn texts_compare_by_their_characters() {
    assert!(same_text("", ""));
    assert!(same_text("abc", "abc"));
    assert!(!same_text("abc", "abd"));
    assert!(!same_text("abc", "ab"));
    assert!(begins_with("E-Cluster", 'E'));
    assert!(!begins_with("P0", 'E'));
    assert!(!begins_with("", 'E'));
}

#[test]
fn the_order_of_texts_agrees_with_strings() {
    let texts = [
        "", "a", "ab", "b", "2024-01-01T00:00:00Z", "2024-01-01T00:00:01Z", "é", "\u{10000}", "▏",
    ];
    for a in texts {
        for b in texts {
            assert_eq!(is_before(a, b), a < b);
        }
    }
}

#[test]
fn the_first_line_with_a_part() {
    let text = "one\ntwo: x\r\nthree: x\n";
    assert_eq!(find_line_with(text, "x"), Some("two: x\r"));
    assert_eq!(find_line_with(text, "three"), Some("three: x"));
    assert_eq!(find_line_with(text, "four"), None);
    assert_eq!(find_line_with("", "a"), None);
    assert_eq!(find_line_with("last", "last"), Some("last"));
}

#[test]
fn what_follows_the_last_part() {
    for text in ["a: b: c", "a: b: ", "none", "", ": ", "a:b", "x: "] {
        assert_eq!(Some(part_after_last(text, ": ")), text.rsplit(": ").next());
    }
    assert_eq!(part_after_last("abc", ""), "");
}

#[test]
fn counts_between_white_space() {
    assert_eq!(parse_count(" 8\n"), 8);
    assert_eq!(parse_count("8 cores"), 0);
    assert_eq!(parse_count(""), 0);
    assert_eq!(parse_count("-1"), 0);
}

#[test]
fn graphics_cores_in_a_listing() {
    let listing = "Graphics/Displays:\n\n    Apple M1 Pro:\n\n      Chipset Model: Apple M1 Pro\n      Type: GPU\n      Total Number of Cores: 16\n      Vendor: Apple (0x106b)\n";
    assert_eq!(parse_gpu_count(listing), 16);
    assert_eq!(parse_gpu_count("Total Number of Cores: 8\r\nTotal Number of Cores: 9\r\n"), 8);
    assert_eq!(parse_gpu_count("Total Number of Cores: eight\nTotal Number of Cores: 9"), 0);
    assert_eq!(parse_gpu_count("Total Number of Cores 8"), 0);
    assert_eq!(parse_gpu_count("Cores: 8"), 0);
}

#[test]
fn power_budgets() {
    assert_eq!(power_budget_for_soc("Apple M1 Max"), (30, 60));
    assert_eq!(power_budget_for_soc("Apple M1 Pro"), (30, 30));
    assert_eq!(power_budget_for_soc("Apple M1 Ultra"), (60, 120));
    assert_eq!(power_budget_for_soc("Apple M2"), (25, 15));
    assert_eq!(power_budget_for_soc("Apple M1"), (20, 20));
    assert_eq!(power_budget_for_soc("Apple M2 Pro"), (20, 20));
    assert_eq!(power_budget_for_soc(""), (20, 20));
}

#[test]
fn the_chip_from_what_commands_print() {
    let soc = read_soc_info(
        "Apple M1 Max\n",
        Some("2\n"),
        Some("8\n"),
        Some("      Total Number of Cores: 32\n"),
    );
    assert_eq!(soc.name, "Apple M1 Max");
    assert_eq!(soc.e_core_count, 2);
    assert_eq!(soc.p_core_count, 8);
    assert_eq!(soc.gpu_core_count, 32);
    assert_eq!(soc.cpu_max_power, 30);
    assert_eq!(soc.gpu_max_power, 60);
    let bare = read_soc_info("  Unknown  ", None, Some("x"), None);
    assert_eq!(bare.name, "Unknown");
    assert_eq!(bare.e_core_count, 0);
    assert_eq!(bare.p_core_count, 0);
    assert_eq!(bare.gpu_core_count, 0);
    assert_eq!((bare.cpu_max_power, bare.gpu_max_power), (20, 20));
}
