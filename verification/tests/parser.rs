use graphite_source::metric::{TagMap, Telemetry};
use graphite_source::number::{is_numeric, parse_i64, Decimal};
use graphite_source::protocols::graphite::{parse_chars, parse_graphite, parse_tag};
use graphite_source::text::{chars_of, is_space, split_whitespace, string_of};

fn chars(s: &str) -> Vec<char> {
    s.chars().collect()
}

fn words(s: &str) -> Vec<String> {
    split_whitespace(&chars(s)).iter().map(|w| w.iter().collect::<String>()).collect()
}

fn parse_one(line: &str, template: &Telemetry) -> Option<Telemetry> {
    let mut res: Vec<Telemetry> = Vec::new();
    if parse_graphite(line, &mut res, template) {
        assert_eq!(res.len(), 1);
        res.pop()
    } else {
        assert!(res.is_empty());
        None
    }
}

#[test]
fn chars_of_and_string_of_are_inverse() {
    let v = chars_of("sys.cpu é\u{3000}x");
    assert_eq!(v, vec!['s', 'y', 's', '.', 'c', 'p', 'u', ' ', 'é', '\u{3000}', 'x']);
    assert_eq!(string_of(&v), "sys.cpu é\u{3000}x");
    assert_eq!(string_of(&Vec::new()), "");
}

#[test]
fn whitespace_is_the_unicode_property() {
    for c in ['\t', '\n', '\u{0B}', '\u{0C}', '\r', ' ', '\u{85}', '\u{A0}', '\u{1680}', '\u{2000}',
        '\u{200A}', '\u{2028}', '\u{2029}', '\u{202F}', '\u{205F}', '\u{3000}']
    {
        assert!(is_space(c), "{:?}", c);
        assert!(c.is_whitespace());
    }
    for c in ['a', '0', ':', '.', '\u{08}', '\u{0E}', '\u{1F}', '\u{200B}', '\u{2060}', '\u{FEFF}'] {
        assert!(!is_space(c), "{:?}", c);
        assert!(!c.is_whitespace());
    }
}

#[test]
fn whitespace_agrees_with_std_on_every_char() {
    let mut n: u32 = 0;
    while n <= 0x10FFFF {
        if let Some(c) = char::from_u32(n) {
            assert_eq!(is_space(c), c.is_whitespace(), "{:#x}", n);
        }
        n += 1;
    }
}

#[test]
fn splitting_drops_every_run_of_whitespace() {
    assert_eq!(words("a 1 2\n"), vec!["a", "1", "2"]);
    assert_eq!(words("  a\t\t1 \r\n"), vec!["a", "1"]);
    assert_eq!(words("a\u{A0}b\u{3000}c"), vec!["a", "b", "c"]);
    assert_eq!(words(""), Vec::<String>::new());
    assert_eq!(words(" \n\t"), Vec::<String>::new());
    assert_eq!(words("one"), vec!["one"]);
}

#[test]
fn splitting_agrees_with_std() {
    for line in ["sys.cpu 42.0 1614556800 env:staging\n", "\u{2003}x\u{2003}\u{2003}y", "a  b   c    d"] {
        let expected: Vec<String> = line.split_whitespace().map(|w| w.to_string()).collect();
        assert_eq!(words(line), expected);
    }
}

#[test]
fn integers_of_64_bits() {
    assert_eq!(parse_i64(&chars("0")), Some(0));
    assert_eq!(parse_i64(&chars("1614556800")), Some(1614556800));
    assert_eq!(parse_i64(&chars("-17")), Some(-17));
    assert_eq!(parse_i64(&chars("+17")), Some(17));
    assert_eq!(parse_i64(&chars("-0")), Some(0));
    assert_eq!(parse_i64(&chars("0000000000000000000000000042")), Some(42));
    assert_eq!(parse_i64(&chars("9223372036854775807")), Some(i64::MAX));
    assert_eq!(parse_i64(&chars("-9223372036854775808")), Some(i64::MIN));
    assert_eq!(parse_i64(&chars("9223372036854775808")), None);
    assert_eq!(parse_i64(&chars("-9223372036854775809")), None);
    assert_eq!(parse_i64(&chars("99999999999999999999999999999999999999999999")), None);
    assert_eq!(parse_i64(&chars("")), None);
    assert_eq!(parse_i64(&chars("+")), None);
    assert_eq!(parse_i64(&chars("-")), None);
    assert_eq!(parse_i64(&chars("12a")), None);
    assert_eq!(parse_i64(&chars("1.0")), None);
    assert_eq!(parse_i64(&chars("--1")), None);
    assert_eq!(parse_i64(&chars("١٢")), None);
}

#[test]
fn integers_agree_with_std() {
    for text in ["0", "-1", "+1", "007", "9223372036854775807", "9223372036854775808",
        "-9223372036854775808", "-9223372036854775809", "", "+", "1_000", " 1", "1e3"]
    {
        assert_eq!(parse_i64(&chars(text)), text.parse::<i64>().ok(), "{:?}", text);
    }
}

#[test]
fn decimals() {
    for text in ["0", "42", "42.0", "-1", "+1", ".5", "5.", "-.5", "+5.", "6.02e23", "6.02E23",
        "1e-3", "1e+3", "1.e3", ".1e3", "0000.0000", "1e0000000000000000000000000001"]
    {
        assert!(is_numeric(&chars(text)), "{:?}", text);
        assert!(text.parse::<f64>().is_ok(), "{:?}", text);
    }
    for text in ["", ".", "+", "-", "+.", "e5", ".e5", "1e", "1e+", "1e-", "1.2.3", "1..2", "1e5.0",
        "1e5e5", "a", "1a", "0x10", "1,5", "1 ", "--1", "nan", "NaN", "inf", "-inf", "infinity",
        "1_000", "٣"]
    {
        assert!(!is_numeric(&chars(text)), "{:?}", text);
    }
}

#[test]
fn decimal_keeps_its_text() {
    let d = Decimal::from_text("42.0").unwrap();
    assert_eq!(d.as_str(), "42.0");
    assert_eq!(d.as_str().parse::<f64>().unwrap(), 42.0);
    assert_eq!(d, Decimal::parse(&chars("42.0")).unwrap());
    assert_ne!(d, Decimal::from_text("42").unwrap());
    assert_eq!(d.clone(), d);
    assert!(Decimal::from_text("forty-two").is_none());
    assert!(Decimal::parse(&chars("")).is_none());
}

#[test]
fn tag_words() {
    assert_eq!(parse_tag(&chars("env:prod")), Some(("env".to_string(), "prod".to_string())));
    assert_eq!(parse_tag(&chars("a:b:c")), Some(("a".to_string(), "b:c".to_string())));
    assert_eq!(parse_tag(&chars("env:")), Some(("env".to_string(), "".to_string())));
    assert_eq!(parse_tag(&chars("e::")), Some(("e".to_string(), ":".to_string())));
    assert_eq!(parse_tag(&chars(":prod")), None);
    assert_eq!(parse_tag(&chars(":")), None);
    assert_eq!(parse_tag(&chars("env")), None);
    assert_eq!(parse_tag(&chars("")), None);
}

#[test]
fn valid_line_gives_one_event_with_its_fields() {
    let template = Telemetry::default();
    let event = parse_one("a.b.c -12.5e3 -7 x:1 y:2\n", &template).unwrap();
    assert_eq!(event.name.as_deref(), Some("a.b.c"));
    assert_eq!(event.value.as_ref().unwrap().as_str(), "-12.5e3");
    assert_eq!(event.timestamp, Some(-7));
    assert_eq!(event.tags.len(), 2);
    assert_eq!(event.tags.get("x").map(|v| v.as_str()), Some("1"));
    assert_eq!(event.tags.get("y").map(|v| v.as_str()), Some("2"));
    assert_eq!(event.tags.get("z"), None);
}

#[test]
fn line_needs_no_newline_and_bears_any_whitespace() {
    let template = Telemetry::default();
    let plain = parse_one("m 1 2", &template).unwrap();
    let spaced = parse_one("\t m \u{A0} 1\t2 \r\n", &template).unwrap();
    assert_eq!(plain, spaced);
    assert_eq!(plain, Telemetry::new().name("m").value(Decimal::from_text("1").unwrap()).timestamp(2));
}

#[test]
fn tags_of_the_line_lie_over_those_of_the_template() {
    let template = Telemetry::default().overlay_tag("env", "prod").overlay_tag("host", "h1");
    let event = parse_one("m 1 2 env:staging dc:east\n", &template).unwrap();
    assert_eq!(event.tags.len(), 3);
    assert_eq!(event.tags.get("env").map(|v| v.as_str()), Some("staging"));
    assert_eq!(event.tags.get("host").map(|v| v.as_str()), Some("h1"));
    assert_eq!(event.tags.get("dc").map(|v| v.as_str()), Some("east"));
    assert_eq!(template.tags.get("env").map(|v| v.as_str()), Some("prod"));
    assert_eq!(template.tags.len(), 2);
}

#[test]
fn last_of_two_tags_with_one_key_stays() {
    let event = parse_one("m 1 2 k:a k:b\n", &Telemetry::default()).unwrap();
    assert_eq!(event.tags.len(), 1);
    assert_eq!(event.tags.get("k").map(|v| v.as_str()), Some("b"));
}

#[test]
fn malformed_lines_give_no_event() {
    let template = Telemetry::default().overlay_tag("env", "prod");
    for line in ["", "\n", "   \n", "name\n", "name 1\n", "name x 3\n", "name 1 x\n", "name 1 2.0\n",
        "name 1 9223372036854775808\n", "name nan 3\n", "name inf 3\n", "name 1 2 tag\n",
        "name 1 2 :v\n", "name 1 2 a:b c\n", "not a valid line\n", "1 2\n"]
    {
        assert!(parse_one(line, &template).is_none(), "{:?}", line);
    }
}

#[test]
fn failed_parse_leaves_earlier_events() {
    let template = Telemetry::default();
    let mut res: Vec<Telemetry> = Vec::new();
    assert!(parse_graphite("a 1 1\n", &mut res, &template));
    assert!(!parse_graphite("b one 2\n", &mut res, &template));
    assert!(parse_chars(&chars("c 3 3\n"), &mut res, &template));
    assert_eq!(res.len(), 2);
    assert_eq!(res[0].name.as_deref(), Some("a"));
    assert_eq!(res[1].name.as_deref(), Some("c"));
}

#[test]
fn same_line_over_same_template_gives_equal_events() {
    let mut tags = TagMap::new();
    tags.insert("env".to_string(), "prod".to_string());
    let template = Telemetry::default().overlay_tags_from_map(&tags);
    let line = "sys.cpu 42.0 1614556800 env:staging region:eu\n";
    let first = parse_one(line, &template).unwrap();
    let second = parse_one(line, &template).unwrap();
    assert_eq!(first, second);
    assert_eq!(first.name, second.name);
    assert_eq!(first.value, second.value);
    assert_eq!(first.timestamp, second.timestamp);
    assert_eq!(first.tags, second.tags);
}
