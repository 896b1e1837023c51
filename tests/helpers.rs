use open_tv::kinds::{MediaType, SortType, SourceType, ViewType};
use open_tv::numeric::{decimal_chars, parse_i64, parse_u64};
use open_tv::settings::{get_settings, update_settings};
use open_tv::text::{contains_ci_chars, trim_string};
use open_tv::types::{Settings, Source};
use open_tv::utils::{get_filename, get_user_agent_from_source, sanitize};

fn chars(s: &str) -> Vec<char> {
    s.chars().collect()
}

#[test]
fn kinds_decode_with_fallback() {
    assert_eq!(MediaType::from(1), MediaType::Movie);
    assert_eq!(MediaType::from(4), MediaType::Season);
    assert_eq!(MediaType::from(200), MediaType::Livestream);
    assert_eq!(MediaType::Group.to_u8(), 3);
    assert_eq!(SortType::from(2), SortType::Provider);
    assert_eq!(SortType::from(9), SortType::AlphabeticalAsc);
    assert_eq!(SourceType::from(2), SourceType::Xtream);
    assert_eq!(SourceType::from(7), SourceType::M3u);
    assert_eq!(ViewType::from(3), ViewType::History);
    assert_eq!(ViewType::from(5), ViewType::All);
}

#[test]
fn numbers_as_text() {
    assert_eq!(parse_u64(&chars("+42")), Some(42));
    assert_eq!(parse_u64(&chars("18446744073709551615")), Some(u64::MAX));
    assert_eq!(parse_u64(&chars("18446744073709551616")), None);
    assert_eq!(parse_u64(&chars("")), None);
    assert_eq!(parse_u64(&chars("-1")), None);
    assert_eq!(parse_u64(&chars("4a")), None);
    assert_eq!(parse_i64(&chars("-9223372036854775808")), Some(i64::MIN));
    assert_eq!(parse_i64(&chars("9223372036854775808")), None);
    assert_eq!(parse_i64(&chars("-17")), Some(-17));
    assert_eq!(decimal_chars(0), chars("0"));
    assert_eq!(decimal_chars(1003), chars("1003"));
}

#[test]
fn trimming_and_matching() {
    assert_eq!(trim_string(&"\u{a0} a b \t".to_string()), "a b");
    assert_eq!(trim_string(&"   ".to_string()), "");
    assert!(contains_ci_chars(&chars("Hello World"), &chars("WORLD")));
    assert!(!contains_ci_chars(&chars("Hello"), &chars("help")));
}

#[test]
fn settings_round_trip() {
    let pairs = vec![
        ("useStreamingCaching".to_string(), "true".to_string()),
        ("defaultView".to_string(), "2".to_string()),
        ("refreshOnStart".to_string(), "yes".to_string()),
        ("defaultSort".to_string(), "300".to_string()),
    ];
    let s = get_settings(&pairs);
    assert_eq!(s.use_stream_caching, Some(true));
    assert_eq!(s.default_view, Some(2));
    assert_eq!(s.refresh_on_start, None);
    assert_eq!(s.default_sort, None);
    assert_eq!(s.force_tv_mode, None);
    let out = update_settings(&Settings {
        use_stream_caching: Some(false),
        default_view: Some(12),
        refresh_on_start: None,
        default_sort: None,
        force_tv_mode: Some(true),
    });
    assert_eq!(
        out,
        vec![
            ("useStreamingCaching".to_string(), "false".to_string()),
            ("defaultView".to_string(), "12".to_string()),
            ("forceTVMode".to_string(), "true".to_string()),
        ]
    );
}

#[test]
fn file_names_for_recordings() {
    assert_eq!(sanitize(&"a<b>:c\"d/e\\f|g?h*i\u{1}j".to_string()), "abcdefghij");
    assert_eq!(get_filename(&"My: Movie".to_string(), &"http://h/x/movie.final.mkv".to_string()), "My Movie.mkv");
    assert_eq!(get_filename(&"N".to_string(), &"noext".to_string()), "N.noext");
}

#[test]
fn user_agent_per_source() {
    let mut s = Source {
        id: None,
        name: "s".to_string(),
        url: None,
        url_origin: None,
        username: None,
        password: None,
        source_type: 0,
        enabled: true,
        user_agent: Some("  ".to_string()),
        use_tvg_id: None,
        max_streams: None,
        last_updated: None,
    };
    assert_eq!(get_user_agent_from_source(&s), None);
    s.user_agent = Some("VLC".to_string());
    assert_eq!(get_user_agent_from_source(&s).as_deref(), Some("VLC"));
}
