use before::api::{gen_tarot, parse_cookie_i32, parse_spread};
use before::config::Config;
use before::time::Timestamp;

#[test]
fn tarot_spreads_hold_three_distinct_cards_in_range() {
    for _ in 0..200 {
        let spread = gen_tarot();
        assert_eq!(spread.len(), 3);
        for &card in &spread {
            assert!((-1..20).contains(&card));
        }
        assert_ne!(spread[0], spread[1]);
        assert_ne!(spread[0], spread[2]);
        assert_ne!(spread[1], spread[2]);
    }
}

#[test]
fn the_stock_configuration_matches_the_service_defaults() {
    let c = Config::default();
    assert!(c.siesta_mode);
    assert!(!c.chronplete);
    assert_eq!(c.chronicler_base_url, "https://api.sibr.dev/chronicler/");
    assert_eq!(c.upnuts_base_url, "https://api.sibr.dev/upnuts/");
    assert_eq!(c.static_dir, "static");
    assert!(c.static_zip_path.is_none());
    assert!(c.site_cache);
    assert!(c.stream_cache_size.is_none());
    assert!(c.matomo_base_url.is_none());
    assert!(c.matomo_site_id.is_none());
}

#[test]
fn private_clone_copies_every_field() {
    let mut c = Config::default();
    c.stream_cache_size = Some(8);
    c.matomo_base_url = Some("https://stats.example".to_string());
    let d = c.private_clone();
    assert_eq!(d.chronicler_base_url, c.chronicler_base_url);
    assert_eq!(d.stream_cache_size, Some(8));
    assert_eq!(d.matomo_base_url, c.matomo_base_url);
    assert_eq!(d.site_cache, c.site_cache);
}

#[test]
fn timestamps_order_chronologically() {
    let early = Timestamp::new(5, 10);
    let late = Timestamp::new(5, 11);
    assert!(early.before(&late));
    assert!(!late.before(&early));
    assert!(!early.before(&early));
    assert!(Timestamp::new(4, 999_999_999).before(&Timestamp::new(5, 0)));
}

#[test]
fn cookie_numbers_parse_exactly_as_integers() {
    assert_eq!(parse_cookie_i32(b"0"), Some(0));
    assert_eq!(parse_cookie_i32(b"1000"), Some(1000));
    assert_eq!(parse_cookie_i32(b"-17"), Some(-17));
    assert_eq!(parse_cookie_i32(b"+5"), Some(5));
    assert_eq!(parse_cookie_i32(b"2147483647"), Some(i32::MAX));
    assert_eq!(parse_cookie_i32(b"2147483648"), None);
    assert_eq!(parse_cookie_i32(b"-2147483648"), Some(i32::MIN));
    assert_eq!(parse_cookie_i32(b"-2147483649"), None);
    assert_eq!(parse_cookie_i32(b""), None);
    assert_eq!(parse_cookie_i32(b"-"), None);
    assert_eq!(parse_cookie_i32(b"12a"), None);
    assert_eq!(parse_cookie_i32(b" 12"), None);
}

#[test]
fn tarot_spread_cookies_parse_whole_or_not_at_all() {
    assert_eq!(parse_spread(b"1,2,3"), Some(vec![1, 2, 3]));
    assert_eq!(parse_spread(b"-1,19,0"), Some(vec![-1, 19, 0]));
    assert_eq!(parse_spread(b"7"), Some(vec![7]));
    assert_eq!(parse_spread(b""), None);
    assert_eq!(parse_spread(b"1,,3"), None);
    assert_eq!(parse_spread(b"1,x"), None);
    assert_eq!(parse_spread(b"1,2,"), None);
}
