use graphite_source::metric::{TagMap, Telemetry};
use graphite_source::number::Decimal;

fn map(pairs: &[(&str, &str)]) -> TagMap {
    let mut m = TagMap::new();
    for (k, v) in pairs {
        m.insert(k.to_string(), v.to_string());
    }
    m
}

#[test]
fn empty_map() {
    let m = TagMap::new();
    assert!(m.is_empty());
    assert_eq!(m.len(), 0);
    assert_eq!(m.get("a"), None);
    assert!(!m.contains_key("a"));
    assert_eq!(m, TagMap::default());
    assert!(m.to_vec().is_empty());
}

#[test]
fn insert_sets_and_replaces() {
    let mut m = TagMap::new();
    m.insert("a".to_string(), "1".to_string());
    m.insert("b".to_string(), "2".to_string());
    assert_eq!(m.len(), 2);
    assert!(!m.is_empty());
    m.insert("a".to_string(), "3".to_string());
    assert_eq!(m.len(), 2);
    assert_eq!(m.get("a").map(|v| v.as_str()), Some("3"));
    assert_eq!(m.get("b").map(|v| v.as_str()), Some("2"));
    assert!(m.contains_key("b"));
    assert!(!m.contains_key("c"));
    assert!(!m.contains_key(""));
}

#[test]
fn equality_ignores_the_order_of_insertion() {
    let ab = map(&[("a", "1"), ("b", "2")]);
    let ba = map(&[("b", "2"), ("a", "1")]);
    assert_eq!(ab, ba);
    assert_ne!(ab, map(&[("a", "1")]));
    assert_ne!(ab, map(&[("a", "1"), ("b", "3")]));
    assert_ne!(ab, map(&[("a", "1"), ("c", "2")]));
    assert_ne!(ab, map(&[("a", "1"), ("b", "2"), ("c", "3")]));
    assert_eq!(ab.clone(), ab);
}

#[test]
fn overlay_prefers_the_upper_map() {
    let mut lower = map(&[("env", "prod"), ("host", "h1")]);
    let upper = map(&[("env", "staging"), ("dc", "east")]);
    lower.overlay(&upper);
    assert_eq!(lower, map(&[("env", "staging"), ("host", "h1"), ("dc", "east")]));
    assert_eq!(upper, map(&[("env", "staging"), ("dc", "east")]));
}

#[test]
fn overlay_twice_is_overlay_once() {
    let upper = map(&[("env", "staging"), ("dc", "east")]);
    let mut once = map(&[("env", "prod"), ("host", "h1")]);
    once.overlay(&upper);
    let mut twice = once.clone();
    twice.overlay(&upper);
    assert_eq!(once, twice);
    let mut nothing = once.clone();
    nothing.overlay(&TagMap::new());
    assert_eq!(once, nothing);
}

#[test]
fn to_vec_holds_each_key_once() {
    let m = map(&[("a", "1"), ("b", "2"), ("a", "3")]);
    let mut pairs = m.to_vec();
    pairs.sort();
    assert_eq!(pairs, vec![("a".to_string(), "3".to_string()), ("b".to_string(), "2".to_string())]);
}

#[test]
fn template_holds_only_tags() {
    let tags = map(&[("env", "prod")]);
    let template = Telemetry::default().overlay_tags_from_map(&tags);
    assert_eq!(template.name, None);
    assert_eq!(template.value, None);
    assert_eq!(template.timestamp, None);
    assert_eq!(template.tags, tags);
    assert_eq!(Telemetry::new(), Telemetry::default());
    assert!(Telemetry::new().tags.is_empty());
}

#[test]
fn builders_set_one_field_each() {
    let value = Decimal::from_text("1.5").unwrap();
    let t = Telemetry::new().name("m").value(value.clone()).timestamp(9).overlay_tag("k", "v");
    assert_eq!(t.name.as_deref(), Some("m"));
    assert_eq!(t.value, Some(value));
    assert_eq!(t.timestamp, Some(9));
    assert_eq!(t.tags, map(&[("k", "v")]));
    let renamed = t.clone().name("n");
    assert_eq!(renamed.name.as_deref(), Some("n"));
    assert_eq!(renamed.timestamp, Some(9));
    assert_ne!(renamed, t);
    assert_eq!(t.clone(), t);
    let retagged = t.clone().overlay_tag("k", "w");
    assert_eq!(retagged.tags, map(&[("k", "w")]));
    assert_ne!(retagged, t);
    assert_ne!(t.clone().timestamp(10), t);
    assert_ne!(t.clone().value(Decimal::from_text("1.50").unwrap()), t);
}
