use graphite_source::metric::{TagMap, Telemetry};
use graphite_source::protocols::graphite::parse_graphite;
use graphite_source::source::graphite::{ConnectionHandler, Counter, GraphiteConfig, StreamAction};

fn prod_config() -> GraphiteConfig {
    let mut config = GraphiteConfig::default();
    config.tags.insert("env".to_string(), "prod".to_string());
    config
}

#[test]
fn line_without_tags_takes_the_tags_of_the_source() {
    let config = prod_config();
    assert_eq!(config.host, "localhost");
    assert_eq!(config.port, 2003);
    let handler = ConnectionHandler::new(&config.tags);
    let line = "sys.cpu 42.0 1614556800\n";
    match handler.on_read(Some(line.len()), line) {
        StreamAction::Forward(events) => {
            assert_eq!(events.len(), 1);
            let event = &events[0];
            assert_eq!(event.name.as_deref(), Some("sys.cpu"));
            let value = event.value.as_ref().unwrap();
            assert_eq!(value.as_str(), "42.0");
            assert_eq!(value.as_str().parse::<f64>().unwrap(), 42.0);
            assert_eq!(event.timestamp, Some(1614556800));
            assert_eq!(event.tags.len(), 1);
            assert_eq!(event.tags.get("env").map(|v| v.as_str()), Some("prod"));
        }
        other => panic!("expected one event, got {:?}", other),
    }
}

#[test]
fn tag_of_the_line_wins_over_the_tag_of_the_source() {
    let config = prod_config();
    let handler = ConnectionHandler::new(&config.tags);
    let line = "sys.cpu 42.0 1614556800 env:staging\n";
    match handler.on_read(Some(line.len()), line) {
        StreamAction::Forward(events) => {
            assert_eq!(events.len(), 1);
            assert_eq!(events[0].tags.len(), 1);
            assert_eq!(events[0].tags.get("env").map(|v| v.as_str()), Some("staging"));
        }
        other => panic!("expected one event, got {:?}", other),
    }
}

#[test]
fn malformed_line_counts_a_bad_packet_and_keeps_the_connection() {
    let config = prod_config();
    let handler = ConnectionHandler::new(&config.tags);
    let bad = "not a valid line\n";
    let action = handler.on_read(Some(bad.len()), bad);
    assert!(matches!(action, StreamAction::Reject));
    assert_eq!(action.counter(), Some(Counter::BadPacket));
    assert_eq!(Counter::BadPacket.name(), "source.bad_packet");
    let mut res: Vec<Telemetry> = Vec::new();
    let template = Telemetry::default().overlay_tags_from_map(&TagMap::new());
    assert!(!parse_graphite(bad, &mut res, &template));
    assert!(res.is_empty());
    let good = "sys.cpu 42.0 1614556800\n";
    let next = handler.on_read(Some(good.len()), good);
    assert!(matches!(next, StreamAction::Forward(_)));
    assert_eq!(next.counter(), Some(Counter::Packet));
}
