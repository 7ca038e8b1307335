use asitop::document::{
    date_text, latest_document, split_newest_first, Item, Moment,
};
use asitop::markup::holds_far_date;
use asitop::readings::{
    get_string, parse_snapshot, read_latest_plist, read_sample_file, value_as_f64, value_as_timestamp, value_as_u64,
    FileOutcome, Number, SnapshotError, Stamp,
};

fn plist(body: &str) -> Vec<u8> {
    format!(
        "<?xml version=\"1.0\" encoding=\"UTF-8\"?>\n<plist version=\"1.0\">{}</plist>\n",
        body
    )
    .into_bytes()
}

fn sample(timestamp: &str) -> Vec<u8> {
    plist(&format!(
        "<dict><key>timestamp</key>{}<key>thermal_pressure</key><string>Nominal</string>\
         <key>processor</key><dict><key>clusters</key><array>\
         <dict><key>name</key><string>E-Cluster</string><key>freq_hz</key><real>1.0e9</real>\
         <key>idle_ratio</key><real>0.75</real><key>cpus</key><array>\
         <dict><key>cpu</key><integer>0</integer><key>freq_hz</key><real>972000000</real>\
         <key>idle_ratio</key><real>0.5</real></dict></array></dict>\
         <dict><key>name</key><string>P0-Cluster</string><key>freq_hz</key><integer>3</integer>\
         <key>idle_ratio</key><string>0.25</string><key>cpus</key><array/></dict>\
         </array><key>ane_energy</key><integer>12</integer><key>cpu_energy</key><real>34.5</real>\
         <key>combined_power</key><integer>-7</integer></dict>\
         <key>gpu</key><dict><key>idle_ratio</key><real>0.125</real>\
         <key>freq_hz</key><real>396.0</real></dict></dict>",
        timestamp
    ))
}

fn value_of(number: &Number) -> Option<f64> {
    match number {
        Number::Real(bits) => Some(f64::from_bits(*bits)),
        _ => None,
    }
}

fn ratio_of(number: &Option<Number>) -> Option<f64> {
    number.as_ref().and_then(value_of)
}

fn joined(parts: &[&[u8]]) -> Vec<u8> {
    let mut out: Vec<u8> = Vec::new();
    for (i, part) in parts.iter().enumerate() {
        if i > 0 {
            out.push(0);
        }
        out.extend_from_slice(part);
    }
    out
}

fn root(body: &str) -> Item {
    match latest_document(&plist(body)) {
        Some(item) => item,
        None => panic!("no document"),
    }
}

#[test]
fn chunks_come_newest_first_without_empty_ones() {
    let chunks = split_newest_first(b"\0ab\0\0c\0");
    assert_eq!(chunks, vec![b"c".as_slice(), b"ab".as_slice()]);
    assert_eq!(split_newest_first(b"").len(), 0);
    assert_eq!(split_newest_first(b"\0\0").len(), 0);
    assert_eq!(split_newest_first(b"abc"), vec![b"abc".as_slice()]);
}

#[test]
fn a_sample_is_read_from_its_document() {
    let bytes = sample("<date>2024-05-06T07:08:09Z</date>");
    let readings = read_latest_plist(&bytes).unwrap().unwrap();
    assert_eq!(readings.timestamp.to_text("").unwrap(), "2024-05-06T07:08:09Z");
    assert_eq!(readings.thermal_pressure, "Nominal");
    assert_eq!(readings.clusters.len(), 2);
    let e = &readings.clusters[0];
    assert_eq!(e.name, "E-Cluster");
    assert_eq!(value_of(&e.freq_hz), Some(1.0e9));
    assert_eq!(ratio_of(&e.idle_ratio), Some(0.75));
    assert_eq!(e.cpus.len(), 1);
    assert_eq!(e.cpus[0].cpu, 0);
    assert_eq!(value_of(&e.cpus[0].freq_hz), Some(972000000.0));
    assert_eq!(ratio_of(&e.cpus[0].idle_ratio), Some(0.5));
    let p = &readings.clusters[1];
    assert_eq!(p.name, "P0-Cluster");
    assert!(matches!(p.freq_hz, Number::Signed(3)));
    assert!(matches!(&p.idle_ratio, Some(Number::Text(text)) if text == "0.25"));
    assert_eq!(p.cpus.len(), 0);
    assert_eq!(ratio_of(&readings.gpu_idle_ratio), Some(0.125));
    assert_eq!(value_of(&readings.gpu_freq_hz), Some(396.0));
    assert!(matches!(readings.ane_energy, Number::Signed(12)));
    assert_eq!(value_of(&readings.cpu_energy), Some(34.5));
    assert!(matches!(readings.combined_power, Number::Signed(-7)));
    assert_eq!(value_of(&readings.gpu_energy), Some(0.0));
}

#[test]
fn the_newest_readable_document_counts() {
    let old = sample("<string>1</string>");
    let new = sample("<string>2</string>");
    let cut = &new[..new.len() / 2];
    let both = joined(&[&old, &new]);
    let read = |bytes: &[u8]| read_latest_plist(bytes).unwrap().unwrap().timestamp.to_text("");
    assert_eq!(read(&both).unwrap(), "2");
    assert_eq!(read(&joined(&[&old, &new, cut])).unwrap(), "2");
    assert_eq!(read(&joined(&[&old, cut])).unwrap(), "1");
    assert_eq!(read(&joined(&[&old, b"", b""])).unwrap(), "1");
}

#[test]
fn nothing_readable_is_no_sample() {
    assert!(read_latest_plist(b"").unwrap().is_none());
    assert!(read_latest_plist(b"\0\0").unwrap().is_none());
    assert!(read_latest_plist(b"<plist><dict>").unwrap().is_none());
}

#[test]
fn what_is_missing_is_reported() {
    let message = |body: &str| read_latest_plist(&plist(body)).unwrap_err().message();
    assert_eq!(message("<array/>"), "powermetrics plist root is not a dictionary");
    assert_eq!(message("<dict/>"), "missing dictionary key processor");
    assert_eq!(
        message("<dict><key>processor</key><dict/></dict>"),
        "missing dictionary key gpu"
    );
    assert_eq!(
        message("<dict><key>processor</key><dict/><key>gpu</key><dict/></dict>"),
        "missing array key clusters"
    );
    let clusters = |inner: &str| {
        format!(
            "<dict><key>processor</key><dict><key>clusters</key><array>{}</array></dict>\
             <key>gpu</key><dict/></dict>",
            inner
        )
    };
    assert_eq!(message(&clusters("<true/>")), "cluster entry is not a dictionary");
    assert_eq!(message(&clusters("<dict/>")), "missing array key cpus");
    assert_eq!(
        message(&clusters("<dict><key>cpus</key><array><true/></array></dict>")),
        "cpu entry is not a dictionary"
    );
}

#[test]
fn a_fault_of_the_newest_document_hides_older_ones() {
    let bytes = joined(&[&sample("<string>1</string>"), &plist("<array/>")]);
    assert!(matches!(read_latest_plist(&bytes), Err(SnapshotError::RootNotDictionary)));
}

#[test]
fn defaults_stand_in_for_what_is_absent() {
    let body = "<dict><key>processor</key><dict><key>clusters</key><array>\
                <dict><key>cpus</key><array><dict/></array></dict></array></dict>\
                <key>gpu</key><dict/></dict>";
    let readings = read_latest_plist(&plist(body)).unwrap().unwrap();
    assert_eq!(readings.thermal_pressure, "Unknown");
    assert_eq!(readings.timestamp.to_text("").unwrap(), "");
    assert_eq!(readings.clusters[0].name, "");
    assert_eq!(readings.clusters[0].cpus[0].cpu, 0);
    assert_eq!(value_of(&readings.clusters[0].cpus[0].freq_hz), Some(0.0));
    assert_eq!(value_of(&readings.clusters[0].freq_hz), Some(0.0));
    assert_eq!(value_of(&readings.gpu_freq_hz), Some(0.0));
    assert!(readings.clusters[0].idle_ratio.is_none());
    assert!(readings.clusters[0].cpus[0].idle_ratio.is_none());
    assert!(readings.gpu_idle_ratio.is_none());
}

#[test]
fn values_of_every_kind_are_carried_over() {
    let item = root(
        "<array><integer>18446744073709551615</integer><integer>-5</integer><real>2.5</real>\
         <string>a&amp;b</string><true/><date>1970-01-01T00:00:01Z</date>\
         <date>1969-12-31T23:59:59Z</date><dict><key>k</key><string>v</string></dict></array>",
    );
    let items = match item {
        Item::Array(items) => items,
        _ => panic!("no array"),
    };
    assert_eq!(items.len(), 8);
    assert!(matches!(items[0], Item::Integer(18446744073709551615)));
    assert!(matches!(items[1], Item::Integer(-5)));
    assert!(matches!(items[2], Item::Real(bits) if f64::from_bits(bits) == 2.5));
    assert!(matches!(&items[3], Item::String(text) if text == "a&b"));
    assert!(matches!(items[4], Item::Other));
    assert!(matches!(items[5], Item::Date(Moment::After { secs: 1, nanos: 0 })));
    assert!(matches!(items[6], Item::Date(Moment::Before { secs: 1, nanos: 0 })));
    match &items[7] {
        Item::Dictionary(entries) => {
            assert_eq!(get_string(entries, "k").unwrap(), "v");
            assert!(get_string(entries, "q").is_none());
        }
        _ => panic!("no dictionary"),
    }
}

#[test]
fn counts_of_values() {
    assert_eq!(value_as_u64(&Item::Integer(5)), Some(5));
    assert_eq!(value_as_u64(&Item::Integer(-1)), Some(u64::MAX));
    assert_eq!(value_as_u64(&Item::String("17".to_string())), Some(17));
    assert_eq!(value_as_u64(&Item::String("x".to_string())), None);
    assert_eq!(value_as_u64(&Item::Real(0)), None);
}

#[test]
fn numbers_of_values() {
    assert!(matches!(value_as_f64(&Item::Integer(-1)), Some(Number::Signed(-1))));
    let large = Item::Integer(u64::MAX as i128);
    assert!(matches!(value_as_f64(&large), Some(Number::Unsigned(u64::MAX))));
    assert!(matches!(value_as_f64(&Item::Real(9)), Some(Number::Real(9))));
    assert!(value_as_f64(&Item::Other).is_none());
}

#[test]
fn time_stamps_of_values() {
    let words = |item: &Item| value_as_timestamp(item).map(|stamp| stamp.to_text("2.5").unwrap());
    assert_eq!(words(&Item::Integer(-12)).unwrap(), "-12");
    assert_eq!(words(&Item::Integer(u64::MAX as i128)).unwrap(), "18446744073709551615");
    assert_eq!(words(&Item::String("now".to_string())).unwrap(), "now");
    assert_eq!(words(&Item::Real(2.5_f64.to_bits())).unwrap(), "2.5");
    assert!(words(&Item::Other).is_none());
    let day = Moment::After { secs: 86400, nanos: 0 };
    assert_eq!(words(&Item::Date(day)).unwrap(), "1970-01-02T00:00:00Z");
}

#[test]
fn dates_are_written_within_four_digit_years() {
    let written = |moment: Moment| date_text(moment);
    assert_eq!(written(Moment::After { secs: 0, nanos: 0 }).unwrap(), "1970-01-01T00:00:00Z");
    assert_eq!(
        written(Moment::After { secs: 253_402_300_799, nanos: 0 }).unwrap(),
        "9999-12-31T23:59:59Z"
    );
    assert!(written(Moment::After { secs: 253_402_300_800, nanos: 0 }).is_none());
    assert_eq!(
        written(Moment::Before { secs: 62_167_219_200, nanos: 0 }).unwrap(),
        "0000-01-01T00:00:00Z"
    );
    assert!(written(Moment::Before { secs: 62_167_219_200, nanos: 1 }).is_none());
    let late = Stamp::Date(Moment::After { secs: u64::MAX, nanos: 0 });
    assert!(late.to_text("").is_none());
}

fn stamp_of(bytes: &[u8]) -> Option<String> {
    read_latest_plist(bytes).unwrap().map(|found| found.timestamp.to_text("").unwrap())
}

const FAR: &str = "<date>9999-12-31T23:59:59-01:00</date>";

#[test]
fn dates_past_the_year_9999_are_not_handed_to_the_reader() {
    for date in [
        FAR,
        "<date>9999-12-31T23:59:59.25-00:01</date>",
        "<date>9999-12-31 00:01:00-23:59</date>",
        "<x:date a='>' b=\">\">9999-12-31T23:59:59-01:00</x:date>",
        "<date >99<!-- - -> -->99<![CDATA[x]]>-12-<?y?>31T23:59:59-01:00</date >",
        "<date>&#57;&#x39;99-12-31T23:59:59&#45;&none;01:00</date>",
    ] {
        assert!(holds_far_date(&sample(date)), "{}", date);
        assert_eq!(stamp_of(&sample(date)), None);
        let older = sample("<string>1</string>");
        assert_eq!(stamp_of(&joined(&[&older, &sample(date)])).unwrap(), "1");
    }
    assert!(holds_far_date(FAR.as_bytes()));
    assert!(holds_far_date(format!("\u{feff} \u{2003}&#32;<array>{}", FAR).as_bytes()));
    assert!(holds_far_date(format!("<plist></plist>{}", FAR).as_bytes()));
    assert!(holds_far_date(format!("<!DOCTYPE a 'x>' [ ] >{}", FAR).as_bytes()));
    assert!(holds_far_date(format!("<!DOCTYPE a [<!ELEMENT b>]>{}", FAR).as_bytes()));
    assert!(holds_far_date(format!("<!DOCTYPE a [<!-- ]> -->]>{}", FAR).as_bytes()));
    assert!(holds_far_date(format!("<real>1</real>{}", FAR).as_bytes()));
}

#[test]
fn other_dates_are_read() {
    for (date, expected) in [
        ("<date >2024-05-06T07:08:09Z</date>", "2024-05-06T07:08:09Z"),
        ("<date\n\ta='<'>2024-05-06T07:08:09Z</date>", "2024-05-06T07:08:09Z"),
        ("<date><!-- x -->2024-05-06T07:08:09Z</date>", "2024-05-06T07:08:09Z"),
        ("<date>&#50;024-05-06T07:08:09Z</date>", "2024-05-06T07:08:09Z"),
        ("<date>9999-12-31T10:00:00-05:00</date>", "9999-12-31T15:00:00Z"),
        ("<date>9999-12-31T22:59:59-01:00</date>", "9999-12-31T23:59:59Z"),
        ("<date>9999-12-31T23:59:59Z</date>", "9999-12-31T23:59:59Z"),
        ("<date>9999-12-31T23:59:59+01:00</date>", "9999-12-31T22:59:59Z"),
        ("<date>9999-12-31T23:59:59-00:00</date>", "9999-12-31T23:59:59Z"),
        ("<date>9999-12-30T23:59:59-23:59</date>", "9999-12-31T23:58:59Z"),
        ("<string>up:date now</string>", "up:date now"),
        ("<string><![CDATA[<date>9999-12-31T23:59:59-01:00</date>]]>a</string>", "a"),
        ("<string>&lt;date>9999-12-31T23:59:59-01:00</string>", "<date>9999-12-31T23:59:59-01:00"),
        ("<string a='<date>9999-12-31T23:59:59-01:00</date>'>b</string>", "b"),
        ("<string>c</string><!-- <date>9999-12-31T23:59:59-01:00</date> -->", "c"),
        ("<?x <date>9999-12-31T23:59:59-01:00</date>?><string>d</string>", "d"),
    ] {
        assert!(!holds_far_date(&sample(date)), "{}", date);
        assert_eq!(stamp_of(&sample(date)).unwrap(), expected);
    }
}

#[test]
fn bytes_that_are_no_list_hold_no_date() {
    for text in [
        ":date x",
        "<date",
        "<date>",
        "<date>9999-12-31T23:59:59-01:00",
        "x <date>9999-12-31T23:59:59-01:00</date>",
        "</a><date>9999-12-31T23:59:59-01:00</date>",
        "<other/><date>9999-12-31T23:59:59-01:00</date>",
        "<integer/><date>9999-12-31T23:59:59-01:00</date>",
        "&#65;<date>9999-12-31T23:59:59-01:00</date>",
        "&<date>9999-12-31T23:59:59-01:00</date>",
        "\u{e9}<date>9999-12-31T23:59:59-01:00</date>",
        "<!x><date>9999-12-31T23:59:59-01:00</date>",
        "<?><date>9999-12-31T23:59:59-01:00</date>",
        "<string><b/></string><date>9999-12-31T23:59:59-01:00</date>",
        "{ a = \"<date>9999-12-31T23:59:59-01:00</date>\"; }",
        "",
    ] {
        assert!(!holds_far_date(text.as_bytes()), "{}", text);
    }
    assert_eq!(stamp_of(b":date x"), None);
    let list = sample("<string>1</string>");
    assert_eq!(stamp_of(&joined(&[&list, b":date x"])).unwrap(), "1");
    assert_eq!(stamp_of(&joined(&[b":date x", &list])).unwrap(), "1");
}

#[test]
fn lists_in_plain_notation_are_read() {
    let text = "{ timestamp = \"<date>9999-12-31T23:59:59-01:00</date>\"; gpu = {}; processor = { clusters = (); }; }";
    assert_eq!(
        stamp_of(text.as_bytes()).unwrap(),
        "<date>9999-12-31T23:59:59-01:00</date>"
    );
}

#[test]
fn a_document_type_is_passed_over() {
    let mut bytes = b"<?xml version=\"1.0\"?><!DOCTYPE plist PUBLIC \"-//Apple//DTD PLIST 1.0//EN\" \"http://www.apple.com/DTDs/PropertyList-1.0.dtd\">".to_vec();
    let list = sample("<date>2024-05-06T07:08:09Z</date>");
    bytes.extend_from_slice(&list[39..]);
    assert_eq!(stamp_of(&bytes).unwrap(), "2024-05-06T07:08:09Z");
    let mut declared = b"<!DOCTYPE a 'x' [<!ELEMENT b (c)> <?d ]>?> <!ENTITY e ']>'> <!ATTLIST f g '>'> <!NOTATION h \">\">] ><!-- <date>9999-12-31T23:59:59-01:00</date> -->".to_vec();
    declared.extend_from_slice(&list[39..]);
    assert!(!holds_far_date(&declared));
    assert_eq!(stamp_of(&declared).unwrap(), "2024-05-06T07:08:09Z");
}

#[test]
fn markup_in_the_brackets_of_a_document_type_is_passed_over() {
    let list = sample("<date>2024-05-06T07:08:09Z</date>");
    let older = sample("<string>1</string>");
    for brackets in ["<!---->", "<!-- ]> -> --->", "<x>", "<!>", "<!-x>", "<![CDATA[>", "<!ELEMENTS '>"] {
        let mut bytes = format!("<!DOCTYPE a[{}]><!--{}-->", brackets, FAR).into_bytes();
        bytes.extend_from_slice(&list[39..]);
        assert!(!holds_far_date(&bytes), "{}", brackets);
        assert_eq!(stamp_of(&bytes).unwrap(), "2024-05-06T07:08:09Z");
        assert_eq!(stamp_of(&joined(&[&older, &bytes])).unwrap(), "2024-05-06T07:08:09Z");
    }
    let empty = format!("<!DOCTYPE a[<!---->]><!--{}--><dict/>", FAR);
    let error = read_latest_plist(empty.as_bytes()).unwrap_err();
    assert_eq!(error.message(), "missing dictionary key processor");
}

#[test]
fn plain_notation_takes_over_where_no_list_has_begun() {
    let older = sample("<string>1</string>");
    for before in [
        "<real>x</real>", "<integer>1.5</integer>", "<data>=</data>", "<date>now</date>", "<string>a</key>",
        "<plist></x>", "<!DOCTYPE>", "<date>9999-12-31T23:60:00-01:00</date>",
    ] {
        let text = format!("{}{}", before, FAR);
        assert!(!holds_far_date(text.as_bytes()), "{}", text);
        let bytes = joined(&[&older, text.as_bytes()]);
        assert!(matches!(latest_document(&bytes), Some(Item::String(found)) if found == text));
        assert!(matches!(read_latest_plist(&bytes), Err(SnapshotError::RootNotDictionary)));
    }
    let text = [&b"<!-- //\xff -->"[..], FAR.as_bytes()].concat();
    assert!(!holds_far_date(&text));
    assert!(matches!(latest_document(&text), Some(Item::String(found)) if found == "<!--"));
    let started = format!("<!DOCTYPE a><real>x</real>{}", FAR);
    assert_eq!(stamp_of(&joined(&[&older, started.as_bytes()])).unwrap(), "1");
}

#[test]
fn files_that_are_not_there_have_no_sample() {
    assert!(read_sample_file(&FileOutcome::NotFound).unwrap().is_none());
    let failed = read_sample_file(&FileOutcome::Failed).unwrap_err();
    assert!(matches!(failed, SnapshotError::FileNotRead));
    assert_eq!(failed.message(), "read powermetrics output");
    assert!(read_sample_file(&FileOutcome::Bytes(Vec::new())).unwrap().is_none());
    let list = FileOutcome::Bytes(sample("<string>1</string>"));
    let found = read_sample_file(&list).unwrap().unwrap();
    assert_eq!(found.timestamp.to_text("").unwrap(), "1");
}

#[test]
fn a_document_is_parsed_without_its_bytes() {
    let item = Item::Dictionary(vec![
        ("processor".to_string(), Item::Dictionary(vec![(
            "clusters".to_string(),
            Item::Array(Vec::new()),
        )])),
        ("gpu".to_string(), Item::Dictionary(Vec::new())),
        ("timestamp".to_string(), Item::Integer(7)),
    ]);
    let readings = parse_snapshot(&item).unwrap();
    assert_eq!(readings.timestamp.to_text("").unwrap(), "7");
    assert_eq!(readings.clusters.len(), 0);
    assert!(parse_snapshot(&Item::Other).is_err());
}
