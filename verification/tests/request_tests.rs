use before::chronicler::{
    default_tournament, game_updates_request, pick_game_update, GameUpdate, Stream, StreamStep,
    StreamValue, Version, VersionStream, Versions,
};
use before::request::{Order, RequestBuilder};
use before::time::Timestamp;

#[test]
fn bare_request_has_empty_query() {
    let req = RequestBuilder::new("v2/entities".to_string()).build();
    assert_eq!(req.query_string(), "");
    assert_eq!(
        req.request_url("https://example.org/"),
        "https://example.org/v2/entities?"
    );
}

#[test]
fn query_fields_follow_the_endpoint_order() {
    let req = RequestBuilder::new("v2/versions".to_string())
        .page("abc".to_string())
        .count(7)
        .order(Order::Desc)
        .build();
    assert_eq!(req.query_string(), "page=abc&count=7&order=desc");
}

#[test]
fn query_orders_render_lowercase() {
    let asc = RequestBuilder::new("r".to_string()).order(Order::Asc).build();
    assert_eq!(asc.query_string(), "order=asc");
    let desc = RequestBuilder::new("r".to_string()).order(Order::Desc).build();
    assert_eq!(desc.query_string(), "order=desc");
}

#[test]
fn query_encodes_reserved_bytes() {
    let req = RequestBuilder::new("r".to_string())
        .id("a b:c".to_string())
        .build();
    assert_eq!(req.query_string(), "id=a+b%3Ac");
}

#[test]
fn query_renders_timestamps_as_rfc3339() {
    let req = RequestBuilder::new("r".to_string())
        .at(Timestamp::new(1, 0))
        .build();
    assert_eq!(req.query_string(), "at=1970-01-01T00%3A00%3A01Z");
}

#[test]
fn query_renders_negative_and_boolean_fields() {
    let req = RequestBuilder::new("r".to_string())
        .started(true)
        .season(-1)
        .day(42)
        .build();
    assert_eq!(req.query_string(), "started=true&season=-1&day=42");
}

fn item(id: &str) -> Version<String> {
    Version {
        valid_from: Timestamp::new(0, 0),
        entity_id: id.to_string(),
        data: "{}".to_string(),
    }
}

#[test]
fn version_stream_chains_three_pages_in_order() {
    let req = RequestBuilder::new("v2/versions".to_string()).build();
    let mut stream: VersionStream<String> = VersionStream::new(req);
    let pages = vec![
        Versions { next_page: Some("p2".to_string()), items: vec![item("a"), item("b")] },
        Versions { next_page: Some("p3".to_string()), items: vec![item("c"), item("d")] },
        Versions { next_page: None, items: vec![item("e")] },
    ];
    let mut pages = pages.into_iter();
    let mut yielded: Vec<String> = Vec::new();
    let mut fetched: Vec<Option<String>> = Vec::new();
    loop {
        match stream.step() {
            StreamStep::Yield(v) => yielded.push(v.entity_id),
            StreamStep::Fetch(q) => {
                fetched.push(q.page.clone());
                stream.provide_page(pages.next().expect("no more pages than fetches"));
            }
            StreamStep::Done => break,
        }
    }
    assert_eq!(yielded, vec!["a", "b", "c", "d", "e"]);
    assert_eq!(stream.pages_provided(), 3);
    assert_eq!(
        fetched,
        vec![None, Some("p2".to_string()), Some("p3".to_string())]
    );
    assert!(pages.next().is_none());
}

#[test]
fn pick_game_update_takes_the_first_update_before_the_instant() {
    let updates = vec![
        GameUpdate { timestamp: Timestamp::new(10, 0), data: "ten".to_string() },
        GameUpdate { timestamp: Timestamp::new(5, 0), data: "five".to_string() },
        GameUpdate { timestamp: Timestamp::new(1, 0), data: "one".to_string() },
    ];
    assert_eq!(
        pick_game_update(&updates, &Timestamp::new(7, 0)),
        Some("five".to_string())
    );
    assert_eq!(
        pick_game_update(&updates, &Timestamp::new(11, 0)),
        Some("ten".to_string())
    );
    assert_eq!(pick_game_update(&updates, &Timestamp::new(0, 0)), None);
}

#[test]
fn game_updates_request_builds_the_query_or_asks_nothing() {
    assert!(game_updates_request(String::new()).is_none());
    let req = game_updates_request("cafe".to_string()).expect("non-empty id");
    assert_eq!(req.route, "v1/games/updates");
    assert_eq!(req.game.as_deref(), Some("cafe"));
    assert_eq!(req.count, Some(1000));
    assert!(matches!(req.order, Some(Order::Desc)));
    assert_eq!(req.query_string(), "count=1000&order=desc&game=cafe");
}

#[test]
fn stream_is_empty_only_without_any_feed() {
    let empty = Stream {
        value: StreamValue { games: None, leagues: None, temporal: None, fights: None },
    };
    assert!(empty.is_empty());
    let with_games = Stream {
        value: StreamValue {
            games: Some("[]".to_string()),
            leagues: None,
            temporal: None,
            fights: None,
        },
    };
    assert!(!with_games.is_empty());
}

#[test]
fn default_tournament_is_minus_one() {
    assert_eq!(default_tournament(), -1);
}
