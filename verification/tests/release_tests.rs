use ahqstore_appimage::release::{
    cache_expired, cache_path_of, parse, Asset, Cache, FetchAction, FetchEvent, FetchPhase, Fetcher,
    Parsed, Release,
};
use rand::SeedableRng;

fn asset(name: &str, url: &str) -> Asset {
    Asset { name: name.to_string(), browser_download_url: url.to_string() }
}

fn release(tag: &str, assets: Vec<Asset>) -> Release {
    Release { tag_name: tag.to_string(), assets }
}

#[test]
fn parse_picks_the_first_asset_of_each_architecture() {
    let r = release(
        "v1.2",
        vec![
            asset("tool.tar.gz", "u0"),
            asset("tool-aarch64.AppImage", "u1"),
            asset("tool-x86_64.AppImage", "u2"),
            asset("tool-amd64.AppImage", "u3"),
            asset("tool-aarch64-2.AppImage", "u4"),
        ],
    );
    let p = parse(r);
    assert_eq!(p.x86_64.as_deref(), Some("u2"));
    assert_eq!(p.aarch64.as_deref(), Some("u1"));
    assert_eq!(p.tag_name, "v1.2");
}

#[test]
fn parse_without_appimages_finds_nothing() {
    let p = parse(release("t", vec![asset("a.deb", "x"), asset("b-x86_64.AppImage.zsync", "y")]));
    assert_eq!(p.x86_64, None);
    assert_eq!(p.aarch64, None);
    let p = parse(release("empty", vec![]));
    assert_eq!(p.x86_64, None);
    assert_eq!(p.tag_name, "empty");
}

fn cache(time: u64) -> Cache {
    Cache { time, data: Parsed { x86_64: None, aarch64: None, tag_name: "t".to_string() } }
}

#[test]
fn cache_expires_two_hours_after_its_time() {
    assert!(!cache_expired(1_000, &cache(1_000)));
    assert!(!cache_expired(8_199, &cache(1_000)));
    assert!(cache_expired(8_200, &cache(1_000)));
    assert!(cache_expired(100_000, &cache(1_000)));
    assert!(!cache_expired(0, &cache(0)));
    assert!(cache_expired(7_200, &cache(0)));
}

#[test]
fn cache_path_is_the_blake3_hex_of_the_url() {
    let url = "https://api.github.com/repos/a/b/releases/latest";
    let expected = format!("./caches/{}", blake3::hash(url.as_bytes()));
    assert_eq!(cache_path_of(url), expected);
    assert_eq!(cache_path_of(url).len(), 9 + 64);
    assert_ne!(cache_path_of("a"), cache_path_of("b"));
}

fn rng() -> rand::rngs::StdRng {
    rand::rngs::StdRng::seed_from_u64(7)
}

#[test]
fn fetch_returns_a_cached_release_at_once() {
    let (mut f, first) = Fetcher::new("https://example.org/r".to_string());
    match first {
        FetchAction::ReadCache(path) => assert_eq!(path, cache_path_of("https://example.org/r")),
        _ => panic!("expected a cache read"),
    }
    let data = Parsed { x86_64: Some("x".to_string()), aarch64: None, tag_name: "v9".to_string() };
    match f.step(FetchEvent::CacheRead(Some(Cache { time: 5, data })), &mut rng()) {
        FetchAction::Finish(Some(p)) => {
            assert_eq!(p.x86_64.as_deref(), Some("x"));
            assert_eq!(p.tag_name, "v9");
        },
        _ => panic!("expected the cached picks"),
    }
    assert!(matches!(f.phase, FetchPhase::Done));
}

#[test]
fn fetch_requests_parses_and_stores_on_a_miss() {
    let url = "https://api.github.com/repos/o/r/releases/latest";
    let (mut f, _) = Fetcher::new(url.to_string());
    let mut g = rng();
    match f.step(FetchEvent::CacheRead(None), &mut g) {
        FetchAction::Get(u) => assert_eq!(u, url),
        _ => panic!("expected a request"),
    }
    assert!(matches!(f.step(FetchEvent::Responded(200), &mut g), FetchAction::ReadBody));
    let r = release("v2", vec![asset("t-amd64.AppImage", "dl")]);
    let now = 1_700_000_000u64;
    match f.step(FetchEvent::BodyRead(Some(r), now), &mut g) {
        FetchAction::Store(path, c) => {
            assert_eq!(path, cache_path_of(url));
            assert!(c.time >= now + 3600 && c.time < now + 7200);
            assert_eq!(c.data.x86_64.as_deref(), Some("dl"));
            assert_eq!(c.data.tag_name, "v2");
        },
        _ => panic!("expected a cache write"),
    }
    match f.step(FetchEvent::Stored(true), &mut g) {
        FetchAction::Finish(Some(p)) => {
            assert_eq!(p.x86_64.as_deref(), Some("dl"));
            assert_eq!(p.aarch64, None);
        },
        _ => panic!("expected the picks"),
    }
}

#[test]
fn fetch_fails_on_a_bad_status_a_bad_body_or_a_failed_write() {
    let mut g = rng();
    let (mut f, _) = Fetcher::new("u".to_string());
    f.step(FetchEvent::CacheRead(None), &mut g);
    assert!(matches!(f.step(FetchEvent::Responded(403), &mut g), FetchAction::Report));
    assert!(matches!(f.phase, FetchPhase::Done));

    let (mut f, _) = Fetcher::new("u".to_string());
    f.step(FetchEvent::CacheRead(None), &mut g);
    f.step(FetchEvent::Responded(200), &mut g);
    assert!(matches!(f.step(FetchEvent::BodyRead(None, 10), &mut g), FetchAction::Finish(None)));

    let (mut f, _) = Fetcher::new("u".to_string());
    f.step(FetchEvent::CacheRead(None), &mut g);
    f.step(FetchEvent::Responded(200), &mut g);
    f.step(FetchEvent::BodyRead(Some(release("t", vec![])), 10), &mut g);
    assert!(matches!(f.step(FetchEvent::Stored(false), &mut g), FetchAction::Finish(None)));
}

#[test]
fn a_fresh_cache_entry_lives_three_to_four_hours() {
    let mut g = rng();
    for _ in 0..50 {
        let (mut f, _) = Fetcher::new("u".to_string());
        f.step(FetchEvent::CacheRead(None), &mut g);
        f.step(FetchEvent::Responded(200), &mut g);
        let now = 1_000_000u64;
        if let FetchAction::Store(_, c) = f.step(FetchEvent::BodyRead(Some(release("t", vec![])), now), &mut g) {
            assert!(!cache_expired(now + 3 * 3600 - 1, &c));
            assert!(cache_expired(now + 4 * 3600, &c));
        } else {
            panic!("expected a cache write");
        }
    }
}
