//! The reader of property lists goes exactly as far as the library expects.

use std::io::Cursor;

use asitop::markup::holds_far_date;
use plist::Value;

const FAR: &str = "<date>9999-12-31T23:59:59-01:00</date>";

/// Whether the reader takes the XML text.
fn is_taken(text: &[u8]) -> bool {
    Value::from_reader_xml(Cursor::new(text)).is_ok()
}

/// Whether the library expects the reader to come to a date behind the text.
fn is_passed(text: &[u8]) -> bool {
    holds_far_date(&[text, FAR.as_bytes()].concat())
}

/// All texts of up to `longest` of the letters.
fn texts(letters: &[&str], longest: usize) -> Vec<String> {
    let mut all = vec![String::new()];
    let mut first = 0;
    for _ in 0..longest {
        let last = all.len();
        for k in first..last {
            for letter in letters {
                all.push(format!("{}{}", all[k], letter));
            }
        }
        first = last;
    }
    all
}

/// Compares the two on a value of every one of the texts; tells how many the reader takes.
fn compare_values(name: &str, texts: &[String]) -> usize {
    let mut taken = 0;
    for text in texts {
        let value = format!("<{}>{}</{}>", name, text, name);
        assert_eq!(is_taken(value.as_bytes()), is_passed(value.as_bytes()), "{}", value);
        if is_taken(value.as_bytes()) {
            taken += 1;
        }
    }
    taken
}

/// A sequence of numbers that looks random.
struct Dice {
    state: u64,
}

impl Dice {
    fn below(&mut self, n: usize) -> usize {
        self.state = self.state.wrapping_mul(6364136223846793005).wrapping_add(1442695040888963407);
        (self.state >> 33) as usize % n
    }
}

#[test]
fn integers_are_told_from_other_text() {
    assert!(compare_values("integer", &texts(&["0", "x", "7", "f", "+", "-", "g", " "], 4)) > 50);
    let limits = [
        "18446744073709551615", "18446744073709551616", "+18446744073709551615",
        "000018446744073709551615", "-9223372036854775808", "-9223372036854775809",
        "0xffffffffffffffff", "0x10000000000000000", "0x0x+FF", "0X1", "-0", "99999999999999999999",
        "&#49;", "&#233;1", "\u{663}", "1<!-- 2 -->3", "1<![CDATA[x]]>", "&amp;", "&none;1", "&#x31;",
    ];
    let limits: Vec<String> = limits.iter().map(|text| text.to_string()).collect();
    assert_eq!(compare_values("integer", &limits), 12);
}

#[test]
fn reals_are_told_from_other_text() {
    assert!(compare_values("real", &texts(&["1", ".", "e", "E", "+", "-", "x"], 5)) > 100);
    let words = [
        "inf", "-Infinity", "+NaN", "nan", "iNf", "infinit", "infinityx", "in", "1e999", "1e-999",
        "0.1e+12", " 1", "1 ", "1_0", "0x1", "1e1.", "\u{ff11}", "nan0", "--1", "+-1", "1e+", "5.",
    ];
    let words: Vec<String> = words.iter().map(|text| text.to_string()).collect();
    assert_eq!(compare_values("real", &words), 9);
}

#[test]
fn data_are_told_from_other_text() {
    assert!(compare_values("data", &texts(&["A", "B", "Q", "g", "=", "-"], 5)) > 100);
    assert!(compare_values("data", &texts(&["w", "/", "+", "=", " "], 6)) > 100);
    let lines = ["QUJD\n\tREVG\r\nR0g=", "QUJD\u{b}", "QUJD\u{c}", "Q\u{a0}UJD", "&#65;AAA", "AAA&#233;"];
    let lines: Vec<String> = lines.iter().map(|text| text.to_string()).collect();
    assert_eq!(compare_values("data", &lines), 3);
}

#[test]
fn dates_are_told_from_other_text() {
    let mut dates: Vec<String> = Vec::new();
    for base in ["2024-02-29T07:08:09Z", "1999-12-31T23:59:60.5-00:00", "2000-01-01T00:59:60+01:00"] {
        dates.push(base.to_string());
        for k in 0..base.len() {
            for letter in ["0", "1", "2", "3", "5", "6", "9", "-", "+", ":", ".", "z", "Z", "", "11", "&#233;"] {
                dates.push(format!("{}{}{}", &base[..k], letter, &base[k + 1..]));
            }
        }
    }
    for year in ["0000", "1900", "2000", "2023", "2024"] {
        for month in 0..14 {
            for day in [0, 1, 28, 29, 30, 31, 32] {
                dates.push(format!("{}-{:02}-{:02}T00:00:00Z", year, month, day));
                dates.push(format!("{}-{:02}-{:02}t23:59:60z", year, month, day));
                dates.push(format!("{}-{:02}-{:02} 00:01:60+00:02", year, month, day));
                dates.push(format!("{}-{:02}-{:02}T23:58:60-00:01", year, month, day));
            }
        }
    }
    for zone in ["-23:59", "+23:59", "-24:00", "+00:60", "-1:00", "-01:0", "-0100", "-01:00 ", "Z0", ""] {
        dates.push(format!("2024-05-06T07:08:09{}", zone));
        dates.push(format!("9999-12-31T00:00:00{}", zone));
        dates.push(format!("9999-12-31T23:59:60{}", zone));
    }
    for far in [
        "9999-12-31T23:60:59-01:00", "9999-12-31T24:00:00-01:00", "9999-12-31T23:59:61-01:00",
        "9999-12-31T23:59:59-24:00", "9999-12-31T23:59:59-00:60", "9999-12-31T23:59:59.-01:00",
        "9999-12-31&#233;23:59:59-01:00", "9999-12-31\u{e9}23:59:59-01:00", "9999-13-31T23:59:59-01:00",
        "9999-12-32T23:59:59-01:00", "9999-12-31T23:59:60-01:00", "9999-12-31T23:59:5-01:00",
    ] {
        dates.push(far.to_string());
    }
    assert!(compare_values("date", &dates) > 100);
}

#[test]
fn values_end_where_they_should() {
    for text in [
        "<string>a</string>", "<string>a</string >", "<string>a</ string>", "<string>a</key>",
        "<x:string>a</x:string>", "<x:string>a</string>", "<string/>", "<string />", "<data/>",
        "<real/>", "<integer/>", "<date/>", "<string a='>'>a</string>", "<string>a</string", "<key>a</key\n>",
        "<string>a<b/></string>", "<string>a<b></b></string>", "<string>&</string>", "<string>&;</string>",
        "<string>&#0;</string>", "<string>&#xd800;</string>", "<string>&#x110000;</string>",
        "<string>&#+9;</string>", "<string>&a b;</string>", "<string><!DOCTYPE></string>",
        "<string><!DOCTYPE a></string>", "<true/>", "<true></true>", "<true></false>", "<dict></dict>",
        "<dict></array>", "<array></dict>", "<plist><true/></plist>", "<plist><true/></plist></plist>",
    ] {
        assert_eq!(is_taken(text.as_bytes()), is_passed(text.as_bytes()), "{}", text);
    }
}

#[test]
fn bytes_that_are_no_utf8_stop_the_reader() {
    let bad: [&[u8]; 13] = [
        b"\xff", b"\xc3", b"\xc3\xa9", b"\xc0\x80", b"\xe2\x82", b"\xe2\x82\xac", b"\xe0\x80\x80",
        b"\xed\xa0\x80", b"\xed\x9f\xbf", b"\xf0\x9f\x98\x80", b"\xf0\x80\x80\x80", b"\xf4\x90\x80\x80", b"\x80",
    ];
    for bytes in bad {
        for (before, behind) in [
            ("<!--", "-->"), ("<![CDATA[", "]]>"), ("<?a ", "?>"), ("<plist a='", "'>"), ("<!DOCTYPE ", ">"),
            ("<!DOCTYPE a[<!--", "-->]>"),
        ] {
            let text = [before.as_bytes(), bytes, behind.as_bytes()].concat();
            let whole = [&text[..], b"<true/>"].concat();
            assert_eq!(is_taken(&whole), is_passed(&text), "{:?}", text);
        }
        let value = [b"<string>", bytes, b"</string>"].concat();
        assert_eq!(is_taken(&value), is_passed(&value), "{:?}", value);
        let parted = [b"<string>", &bytes[..1], b"<!---->", &bytes[1..], b"</string>"].concat();
        assert_eq!(is_taken(&parted), is_passed(&parted), "{:?}", parted);
    }
    assert!(holds_far_date(&[FAR.as_bytes(), b"\xff"].concat()));
}

#[test]
fn what_precedes_the_values_is_followed() {
    let pieces = [
        "<", ">", "!", "-", "--", "-->", "->", "<!--", "<![CDATA[", "]]>", "]", "[", "<?", "?>", "?", "xml",
        "<!DOCTYPE", "<!doctype", "<!DOCTYPE a [", "]>", " ", "\n", "a", "'", "\"", "<!ELEMENT", "<!ENTITY",
        "<!ATTLIST", "<!NOTATION", "<!E", "<!>", "<plist>", "</plist>", "<plist/>", "<x:plist>", "</x:plist>",
        "</plist >", "&#32;", "&#9;", "&lt;", "&a;", "&", ";", "\u{feff}", "\u{2003}", "\u{e9}", "=",
    ];
    let mut dice = Dice { state: 7 };
    let mut taken = 0;
    for round in 0..60_000 {
        let mut text = String::new();
        if round % 3 == 0 {
            text.push_str("<!DOCTYPE a[");
        }
        for _ in 0..1 + dice.below(9) {
            text.push_str(pieces[dice.below(pieces.len())]);
        }
        if round % 3 == 0 {
            text.push_str("]>");
        }
        let whole = format!("{}<true/>", text);
        assert_eq!(is_taken(whole.as_bytes()), is_passed(text.as_bytes()), "{:?}", text);
        if is_taken(whole.as_bytes()) {
            taken += 1;
        }
    }
    assert!(taken > 1000);
}

#[test]
fn comments_in_a_document_type_are_followed_over_long_texts() {
    let mut taken = 0;
    for marks in texts(&["-", "x"], 3) {
        for ending in ["->", "-->", ">", "x->", "x-->", "--->"] {
            for shift in 0..3 {
                let mut text = b"<!DOCTYPE a[<!--".to_vec();
                text.resize(8192 - marks.len() + shift, b'x');
                text.extend_from_slice(marks.as_bytes());
                text.resize(2 * 8192 - ending.len() + shift, b'y');
                text.extend_from_slice(ending.as_bytes());
                text.extend_from_slice(b"]><!-- --> ");
                let whole = [&text[..], b"<true/>"].concat();
                assert_eq!(is_taken(&whole), is_passed(&text), "{} {} {}", marks, ending, shift);
                if is_taken(&whole) {
                    taken += 1;
                }
            }
        }
    }
    assert!(taken > 100);
    let mut text = b"<!DOCTYPE a[<!--".to_vec();
    text.resize(8191, b'x');
    text.push(b'-');
    text.resize(2 * 8192 - 1, b'x');
    text.extend_from_slice(b"->]>");
    assert!(is_taken(&[&text[..], b"<true/>"].concat()));
    assert!(is_passed(&text));
}

#[test]
fn declarations_in_a_document_type_are_followed_over_long_texts() {
    for markup in ["<!ELEMENT a>", "<!ENTITY '>'>", "<!NOTATION \">\">", "<!--x-->", "<?a?>", "<!x>", "<b>", "<!ELEM>"] {
        for left in 0..=markup.len() {
            let mut text = b"<!DOCTYPE a[".to_vec();
            text.resize(8192 - left, b' ');
            text.extend_from_slice(markup.as_bytes());
            text.extend_from_slice(b"]>");
            let whole = [&text[..], b"<true/>"].concat();
            assert!(is_taken(&whole), "{} {}", markup, left);
            assert!(is_passed(&text), "{} {}", markup, left);
        }
    }
}

#[test]
fn markup_is_followed_over_long_texts() {
    for markup in [
        "<!-- - -> -->", "<!---->", "<![CDATA[]>] ]]]>", "<?a ? > ?>", "<?xml ?>", "<plist a='>' b=\">\"/>",
        "<plist></plist >", "&#32;", "\u{2003}", "<!DOCTYPE a 'x' []>", "<!--\u{e9}\u{20ac}-->",
    ] {
        for left in 0..=markup.len() {
            let mut text = b"<plist>".to_vec();
            text.resize(8192 - left, b' ');
            text.extend_from_slice(markup.as_bytes());
            let whole = [&text[..], b"<true/>"].concat();
            assert!(is_taken(&whole), "{} {}", markup, left);
            assert!(is_passed(&text), "{} {}", markup, left);
        }
    }
}

#[test]
fn a_date_behind_other_values_is_come_to() {
    let pieces = [
        "<string>a</string>", "<string>", "</string>", "<key>", "</key>", "<integer>1</integer>", "<integer>",
        "</integer>", "<real>-1.5e3</real>", "<real>nan</real>", "<data> QUI= </data>", "<data>", "</data>",
        "<date>2024-02-29T00:00:00Z</date>", "<date>", "</date>", "<true/>", "<false></false>", "<array>",
        "</array>", "<array/>", "<dict/>", "<plist>", "</plist>", "<!--a-->", "<?a?>", "<![CDATA[b]]>", " ",
        "\n", "7", "&#55;", "&amp;", "&a;", "<x:array>", "</x:array>", "<!DOCTYPE a [<!--b-->]>", "+", "0x",
    ];
    let mut dice = Dice { state: 11 };
    let mut taken = 0;
    for _ in 0..60_000 {
        let mut text = String::from("<array>");
        for _ in 0..1 + dice.below(8) {
            text.push_str(pieces[dice.below(pieces.len())]);
        }
        for closing in ["</array>", "</array></array>", "</x:array></array>", "</plist></array>"] {
            let whole = format!("{}<true/>{}", text, closing);
            if is_taken(whole.as_bytes()) {
                assert!(is_passed(text.as_bytes()), "{}", text);
                taken += 1;
            }
        }
    }
    assert!(taken > 1000);
}
