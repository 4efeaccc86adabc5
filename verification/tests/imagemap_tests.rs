use imagemap::filter_after;
use imagemap::hash_content;
use imagemap::parse_duration;
use imagemap::select_biased;
use imagemap::select_uniform;
use imagemap::test_keys;
use imagemap::ImageMap;

#[test]
fn parse_valid_json() {
    let json = r#"{"2024-01-01_UTC.jpg": "abc.jpg", "2023-01-01_UTC.jpg": "def.jpg"}"#;
    let map = ImageMap::parse(json).unwrap();
    assert_eq!(map.sorted_keys.len(), 2);
    assert_eq!(map.sorted_keys[0], "2023-01-01_UTC.jpg");
    assert_eq!(map.sorted_keys[1], "2024-01-01_UTC.jpg");
}

#[test]
fn parse_invalid_json() {
    assert!(ImageMap::parse("not json").is_err());
}

#[test]
fn filter_after_year() {
    let keys = test_keys();
    let filtered = filter_after(&keys, "2024");
    assert_eq!(filtered.len(), 3);
    assert!(filtered.iter().all(|k| k.as_str() >= "2024"));
}

#[test]
fn filter_after_year_month() {
    let keys = test_keys();
    let filtered = filter_after(&keys, "2024-06");
    assert_eq!(filtered.len(), 2);
}

#[test]
fn filter_after_full_date() {
    let keys = test_keys();
    let filtered = filter_after(&keys, "2024-06-15");
    assert_eq!(filtered.len(), 2);
}

#[test]
fn filter_after_future_returns_empty() {
    let keys = test_keys();
    let filtered = filter_after(&keys, "2030");
    assert!(filtered.is_empty());
}

#[test]
fn filter_after_past_returns_all() {
    let keys = test_keys();
    let filtered = filter_after(&keys, "2000");
    assert_eq!(filtered.len(), keys.len());
}

#[test]
fn select_uniform_empty() {
    assert!(select_uniform(&[]).is_none());
}

#[test]
fn select_uniform_returns_valid_key() {
    let keys = test_keys();
    let selected = select_uniform(&keys).unwrap();
    assert!(keys.iter().any(|k| k == selected));
}

#[test]
fn select_biased_empty() {
    assert!(select_biased(&[]).is_none());
}

#[test]
fn select_biased_returns_valid_key() {
    let keys = test_keys();
    let selected = select_biased(&keys).unwrap();
    assert!(keys.iter().any(|k| k == selected));
}

#[test]
fn hash_deterministic() {
    let content = r#"{"a": "b"}"#;
    assert_eq!(hash_content(content), hash_content(content));
}

#[test]
fn hash_differs_for_different_content() {
    assert_ne!(hash_content(r#"{"a": "b"}"#), hash_content(r#"{"a": "c"}"#));
}

#[test]
fn parse_duration_seconds() {
    assert_eq!(parse_duration("60s"), Some(60));
}

#[test]
fn parse_duration_minutes() {
    assert_eq!(parse_duration("5m"), Some(300));
}

#[test]
fn parse_duration_hours() {
    assert_eq!(parse_duration("1h"), Some(3600));
}

#[test]
fn parse_duration_days() {
    assert_eq!(parse_duration("7d"), Some(604800));
}

#[test]
fn parse_duration_invalid() {
    assert_eq!(parse_duration("invalid"), None);
    assert_eq!(parse_duration("10x"), None);
}

#[test]
fn parse_duration_edges() {
    assert_eq!(parse_duration(""), None);
    assert_eq!(parse_duration("s"), None);
    assert_eq!(parse_duration("0s"), Some(0));
    assert_eq!(parse_duration("007d"), Some(604800));
}

#[test]
fn parse_duration_overflow_is_none() {
    assert_eq!(parse_duration("99999999999999999999s"), None);
    assert_eq!(parse_duration("300000000000000000d"), None);
}

#[test]
fn parse_rejects_wrong_shapes() {
    assert!(ImageMap::parse(r#"{"a": {"b": "c"}}"#).is_err());
    assert!(ImageMap::parse(r#"{"a": 1}"#).is_err());
    assert!(ImageMap::parse(r#"["a", "b"]"#).is_err());
    assert!(ImageMap::parse(r#""just a string""#).is_err());
}

#[test]
fn parse_empty_object_is_valid() {
    let map = ImageMap::parse("{}").unwrap();
    assert_eq!(map.sorted_keys.len(), 0);
    assert!(select_uniform(&map.sorted_keys).is_none());
}

#[test]
fn get_present_and_absent() {
    let json = r#"{"2024-01-01_UTC.jpg": "abc.jpg", "2023-01-01_UTC.jpg": "def.jpg"}"#;
    let map = ImageMap::parse(json).unwrap();
    assert_eq!(map.get("2023-01-01_UTC.jpg").unwrap(), "def.jpg");
    assert_eq!(map.get("2024-01-01_UTC.jpg").unwrap(), "abc.jpg");
    assert!(map.get("2025-01-01_UTC.jpg").is_none());
    assert!(map.get("").is_none());
}

#[test]
fn redirect_url_joins_prefix_and_filename() {
    let json = r#"{"2024-01-01_UTC.jpg": "abc.jpg"}"#;
    let map = ImageMap::parse(json).unwrap();
    let url = map.redirect_url("https://cdn.example/images", "2024-01-01_UTC.jpg");
    assert_eq!(url.unwrap(), "https://cdn.example/images/abc.jpg");
    assert!(map.redirect_url("https://cdn.example/images", "missing.jpg").is_none());
}

#[test]
fn store_swap_same_text_returns_false() {
    let text = r#"{"2024-01-01_UTC.jpg": "abc.jpg"}"#;
    let initial = ImageMap::parse(text).unwrap();
    let mut store = imagemap::ImageMapStore::new(initial);
    let fp_before = store.current().fingerprint;
    assert!(!store.swap_if_changed(text));
    assert_eq!(store.current().fingerprint, fp_before);
}

#[test]
fn store_swap_changed_text_replaces_once() {
    let first = r#"{"2024-01-01_UTC.jpg": "abc.jpg"}"#;
    let second = r#"{"2025-01-01_UTC.jpg": "xyz.jpg"}"#;
    let mut store = imagemap::ImageMapStore::new(ImageMap::parse(first).unwrap());
    assert!(store.swap_if_changed(second));
    assert_eq!(store.current().sorted_keys[0], "2025-01-01_UTC.jpg");
    let fp_mid = store.current().fingerprint;
    assert!(!store.swap_if_changed(second));
    assert_eq!(store.current().fingerprint, fp_mid);
}

#[test]
fn store_swap_malformed_keeps_state() {
    let text = r#"{"2024-01-01_UTC.jpg": "abc.jpg"}"#;
    let mut store = imagemap::ImageMapStore::new(ImageMap::parse(text).unwrap());
    let fp_before = store.current().fingerprint;
    assert!(!store.swap_if_changed("not json at all"));
    assert_eq!(store.current().fingerprint, fp_before);
    assert_eq!(store.current().sorted_keys.len(), 1);
    assert_eq!(store.current().sorted_keys[0], "2024-01-01_UTC.jpg");
}

#[test]
fn poll_step_outcomes() {
    let text = r#"{"2024-01-01_UTC.jpg": "abc.jpg"}"#;
    let changed = r#"{"2025-01-01_UTC.jpg": "xyz.jpg"}"#;
    let mut store = imagemap::ImageMapStore::new(ImageMap::parse(text).unwrap());
    let failed = imagemap::poll_step(&mut store, Err(imagemap::FetchError));
    assert_eq!(failed, imagemap::PollOutcome::FetchFailed);
    let unchanged = imagemap::poll_step(&mut store, Ok(text.to_string()));
    assert_eq!(unchanged, imagemap::PollOutcome::Unchanged);
    let rejected = imagemap::poll_step(&mut store, Ok("garbage".to_string()));
    assert_eq!(rejected, imagemap::PollOutcome::ParseRejected);
    assert_eq!(store.current().sorted_keys[0], "2024-01-01_UTC.jpg");
    let replaced = imagemap::poll_step(&mut store, Ok(changed.to_string()));
    assert_eq!(replaced, imagemap::PollOutcome::Replaced);
    assert_eq!(store.current().sorted_keys[0], "2025-01-01_UTC.jpg");
}

#[test]
fn end_to_end_filter_select_redirect() {
    let json = r#"{"2024-01-01_UTC.jpg":"abc.jpg","2023-01-01_UTC.jpg":"def.jpg"}"#;
    let map = ImageMap::parse(json).unwrap();
    assert_eq!(map.sorted_keys[0], "2023-01-01_UTC.jpg");
    assert_eq!(map.sorted_keys[1], "2024-01-01_UTC.jpg");
    let filtered = filter_after(&map.sorted_keys, "2024");
    assert_eq!(filtered.len(), 1);
    assert_eq!(filtered[0], "2024-01-01_UTC.jpg");
    for _ in 0..16 {
        assert_eq!(select_uniform(&filtered).unwrap(), "2024-01-01_UTC.jpg");
        assert_eq!(select_biased(&filtered).unwrap(), "2024-01-01_UTC.jpg");
    }
    let url = map.redirect_url("https://cdn.example", select_uniform(&filtered).unwrap());
    assert_eq!(url.unwrap(), "https://cdn.example/abc.jpg");
}

#[test]
fn filter_after_empty_bound_returns_all() {
    let keys = test_keys();
    let filtered = filter_after(&keys, "");
    assert_eq!(filtered.len(), keys.len());
    for (a, b) in filtered.iter().zip(keys.iter()) {
        assert_eq!(a, b);
    }
}

#[test]
fn select_biased_small_slices() {
    let keys = test_keys();
    let two = &keys[..2];
    for _ in 0..16 {
        let selected = select_biased(two).unwrap();
        assert!(two.iter().any(|k| k == selected));
    }
}
