use before::media::{
    content_type_for, parse_range_header, serve_bytes, ByteRange, InvalidRange, Served,
};

fn body(len: usize) -> Vec<u8> {
    (0..len).map(|i| (i % 251) as u8).collect()
}

#[test]
fn first_hundred_bytes_of_a_thousand() {
    let data = body(1000);
    let served = serve_bytes(data.clone(), "video/mp4".to_string(), Some(b"bytes=0-99"))
        .expect("a valid range");
    match served {
        Served::Partial { data: part, content_type, content_range } => {
            assert_eq!(part.len(), 100);
            assert_eq!(part, &data[0..100]);
            assert_eq!(content_type, "video/mp4");
            assert_eq!(content_range, "bytes 0-99/1000");
        }
        Served::Full { .. } => panic!("expected a partial response"),
    }
}

#[test]
fn a_range_past_the_end_is_rejected() {
    let r = serve_bytes(body(1000), "video/mp4".to_string(), Some(b"bytes=990-1099"));
    assert_eq!(r.err(), Some(InvalidRange));
}

#[test]
fn two_ranges_are_rejected() {
    let r = serve_bytes(body(1000), "video/mp4".to_string(), Some(b"bytes=0-1,5-6"));
    assert_eq!(r.err(), Some(InvalidRange));
}

#[test]
fn suffix_and_open_ranges_resolve_against_the_total() {
    assert_eq!(
        parse_range_header(b"bytes=-100", 1000),
        Ok(ByteRange { start: 900, length: 100 })
    );
    assert_eq!(
        parse_range_header(b"bytes=100-", 1000),
        Ok(ByteRange { start: 100, length: 900 })
    );
    assert_eq!(
        parse_range_header(b"bytes=0-99", 1000),
        Ok(ByteRange { start: 0, length: 100 })
    );
}

#[test]
fn malformed_headers_are_rejected() {
    for h in [
        &b"bites=0-1"[..],
        b"bytes=",
        b"bytes=a-b",
        b"bytes=5-2",
        b"bytes=-0",
        b"bytes=-",
        b"bytes=12",
        b"bytes=-1200",
        b"bytes=1000-",
        b"bytes=184467440737095516150-",
        b"",
    ] {
        assert!(parse_range_header(h, 1000).is_err(), "accepted {:?}", h);
    }
}

#[test]
fn no_range_serves_the_whole_body() {
    let data = body(64);
    match serve_bytes(data.clone(), "application/json".to_string(), None).expect("no range") {
        Served::Full { data: whole, content_type } => {
            assert_eq!(whole, data);
            assert_eq!(content_type, "application/json");
        }
        Served::Partial { .. } => panic!("expected the full body"),
    }
}

#[test]
fn content_types_follow_the_extension() {
    assert_eq!(content_type_for(b"foo/bar.html"), "text/html; charset=utf-8");
    assert_eq!(content_type_for(b"x.png"), "image/png");
    assert_eq!(content_type_for(b"a/b/c.jpeg"), "image/jpeg");
    assert_eq!(content_type_for(b"a/b/c.jpg"), "image/jpeg");
    assert_eq!(content_type_for(b"style.css"), "text/css; charset=utf-8");
    assert_eq!(content_type_for(b"app.js"), "application/javascript");
    assert_eq!(content_type_for(b"clip.webm"), "video/webm");
    assert_eq!(content_type_for(b"noext"), "application/octet-stream");
    assert_eq!(content_type_for(b"dir.d/file"), "application/octet-stream");
    assert_eq!(content_type_for(b"trailing."), "application/octet-stream");
}
