use open_tv::kinds::{LIVESTREAM, MOVIE, SERIE};
use open_tv::m3u::IngestError;
use open_tv::store::Catalog;
use open_tv::types::{Channel, Source};
use open_tv::xtream::{
    build_xtream_url, convert_xtream_live_to_channel, episodes_wanted, get_action_url,
    get_cat_name, get_episodes, get_short_epg, get_url, get_xtream, xtream_epg_to_epg,
    XtreamCategory, XtreamData, XtreamEpgItem, XtreamEpisode, XtreamError, XtreamStream,
};

fn api_source() -> Source {
    Source {
        id: None,
        name: "api".to_string(),
        url: Some("http://example.com:8080/player_api.php".to_string()),
        url_origin: None,
        username: Some("user".to_string()),
        password: Some("pass".to_string()),
        source_type: 2,
        enabled: true,
        user_agent: None,
        use_tvg_id: None,
        max_streams: None,
        last_updated: None,
    }
}

fn stream(id: u64, name: &str, cat: &str) -> XtreamStream {
    XtreamStream {
        stream_id: Some(id),
        name: Some(name.to_string()),
        category_id: Some(cat.to_string()),
        stream_icon: None,
        series_id: Some(id + 1000),
        cover: Some(" http://cover ".to_string()),
        container_extension: None,
    }
}

fn cats() -> Vec<XtreamCategory> {
    vec![XtreamCategory { category_id: "1".to_string(), category_name: " Sports ".to_string() }]
}

fn data(live: bool, vod: bool, series: bool) -> XtreamData {
    XtreamData {
        live: if live { Some(vec![stream(1, "Live One", "1")]) } else { None },
        live_cats: Some(cats()),
        vods: if vod { Some(vec![stream(2, "Movie Two", "1")]) } else { None },
        vods_cats: Some(cats()),
        series: if series { Some(vec![stream(3, "Show Three", "1")]) } else { None },
        series_cats: Some(cats()),
    }
}

#[test]
fn origin_and_stream_urls() {
    let mut s = api_source();
    build_xtream_url(&mut s).unwrap();
    assert_eq!(s.url_origin.as_deref(), Some("http://example.com:8080"));
    let u = get_url(&"12".chars().collect(), &s, LIVESTREAM, &None).unwrap();
    assert_eq!(u, "http://example.com:8080/live/user/pass/12.ts");
    let m = get_url(&"5".chars().collect(), &s, MOVIE, &Some("mkv".to_string())).unwrap();
    assert_eq!(m, "http://example.com:8080/movie/user/pass/5.mkv");
    assert_eq!(get_url(&"5".chars().collect(), &s, 9, &None), Err(XtreamError::InvalidStreamType));
    let mut bad = api_source();
    bad.url = Some("not a url".to_string());
    assert_eq!(build_xtream_url(&mut bad), Err(XtreamError::InvalidUrl));
    let mut nouser = api_source();
    nouser.username = None;
    assert_eq!(build_xtream_url(&mut nouser), Err(XtreamError::MissingUsername));
}

#[test]
fn action_url_carries_credentials() {
    let u = get_action_url(&api_source(), &"get_live_streams".to_string(), &Vec::new()).unwrap();
    assert_eq!(
        u,
        "http://example.com:8080/player_api.php?username=user&password=pass&action=get_live_streams"
    );
    let extra = vec![("series_id".to_string(), "4 2".to_string())];
    let v = get_action_url(&api_source(), &"get_series_info".to_string(), &extra).unwrap();
    assert!(v.ends_with("&action=get_series_info&series_id=4+2"));
}

#[test]
fn category_names_and_conversion() {
    let mut s = api_source();
    build_xtream_url(&mut s).unwrap();
    s.id = Some(3);
    let two = vec![
        XtreamCategory { category_id: "1".to_string(), category_name: "First".to_string() },
        XtreamCategory { category_id: "1".to_string(), category_name: "Last".to_string() },
    ];
    assert_eq!(get_cat_name(&two, &Some("1".to_string())).as_deref(), Some("Last"));
    assert_eq!(get_cat_name(&two, &Some("2".to_string())), None);
    assert_eq!(get_cat_name(&two, &None), None);
    let c = convert_xtream_live_to_channel(&stream(3, " Show ", "1"), &s, SERIE, &Some(" G ".to_string())).unwrap();
    assert_eq!(c.url.as_deref(), Some("1003"));
    assert_eq!(c.name, "Show");
    assert_eq!(c.group.as_deref(), Some("G"));
    assert_eq!(c.image.as_deref(), Some("http://cover"));
    assert_eq!(c.source_id, Some(3));
    let mut nameless = stream(1, "x", "1");
    nameless.name = None;
    assert_eq!(convert_xtream_live_to_channel(&nameless, &s, LIVESTREAM, &None).unwrap_err(), XtreamError::MissingName);
}

#[test]
fn one_failed_kind_is_tolerated() {
    let mut cat = Catalog::new();
    get_xtream(&mut cat, &api_source(), &data(true, true, false), false).unwrap();
    let names: Vec<&str> = cat.channels.iter().map(|c| c.name.as_str()).collect();
    assert_eq!(names, vec!["Live One", "Movie Two"]);
    assert_eq!(cat.channels[0].url.as_deref(), Some("http://example.com:8080/live/user/pass/1.ts"));
    assert_eq!(cat.groups.len(), 1);
    assert_eq!(cat.groups[0].name, "Sports");
    assert_eq!(cat.groups[0].media_type, None);
}

#[test]
fn two_failed_kinds_are_tolerated() {
    let mut cat = Catalog::new();
    get_xtream(&mut cat, &api_source(), &data(true, false, false), false).unwrap();
    assert_eq!(cat.channels.len(), 1);
}

#[test]
fn three_failed_kinds_roll_back() {
    let mut cat = Catalog::new();
    get_xtream(&mut cat, &api_source(), &data(true, true, true), false).unwrap();
    let sid = cat.sources[0].id;
    let before = cat.channels.len();
    let mut src = api_source();
    src.id = sid;
    let r = get_xtream(&mut cat, &src, &data(false, false, false), true);
    assert_eq!(r, Err(IngestError::TooManyFailures));
    assert_eq!(cat.channels.len(), before);
    assert_eq!(before, 3);
}

#[test]
fn episodes_sorted_and_under_seasons() {
    let mut cat = Catalog::new();
    get_xtream(&mut cat, &api_source(), &data(false, false, true), false).unwrap();
    let series_row: Channel = cat.channels[0].clone();
    assert_eq!(series_row.media_type, SERIE);
    assert_eq!(episodes_wanted(&cat, &series_row), Ok(Some(1003)));
    let ep = |id: &str, s: u32, e: u32| XtreamEpisode {
        id: id.to_string(),
        title: format!(" S{s}E{e} "),
        container_extension: "mp4".to_string(),
        episode_num: e,
        season: s,
        image: None,
    };
    let eps = vec![ep("c", 2, 1), ep("b", 1, 2), ep("a", 1, 1)];
    get_episodes(&mut cat, &series_row, &eps).unwrap();
    let names: Vec<&str> = cat.channels[1..].iter().map(|c| c.name.as_str()).collect();
    assert_eq!(names, vec!["S1E1", "S1E2", "S2E1"]);
    assert_eq!(cat.channels[1].url.as_deref(), Some("http://example.com:8080/series/user/pass/a.mp4"));
    assert_eq!(cat.seasons.len(), 2);
    assert_eq!(cat.seasons[0].name, "1");
    assert_eq!(cat.channels[1].season_id, Some(cat.seasons[0].id));
    assert_eq!(episodes_wanted(&cat, &series_row), Ok(None));
    let count = cat.channels.len();
    get_episodes(&mut cat, &series_row, &eps).unwrap();
    assert_eq!(cat.channels.len(), count);
}

#[test]
fn guide_listings_are_decoded() {
    let item = XtreamEpgItem {
        id: "9".to_string(),
        title: "SGVsbG8=".to_string(),
        description: "V29ybGQ=".to_string(),
        start_timestamp: "1700000000".to_string(),
        stop_timestamp: "1700003600".to_string(),
    };
    let e = xtream_epg_to_epg(&item).unwrap();
    assert_eq!(e.title, "Hello");
    assert_eq!(e.description, "World");
    assert_eq!(e.start_timestamp, 1700000000);
    assert_eq!(e.start_time.len(), 5);
    assert_eq!(&e.start_time[2..3], "h");
    assert!(e.end_time.chars().filter(|c| c.is_ascii_digit()).count() == 4);
    let mut bad = item.clone();
    bad.title = "***".to_string();
    assert_eq!(xtream_epg_to_epg(&bad).unwrap_err(), XtreamError::InvalidBase64);
    let mut not_text = item.clone();
    not_text.description = "/w==".to_string();
    assert_eq!(xtream_epg_to_epg(&not_text).unwrap_err(), XtreamError::InvalidUtf8);
    let mut late = item.clone();
    late.stop_timestamp = "soon".to_string();
    assert_eq!(get_short_epg(&vec![item.clone(), late]).unwrap_err(), XtreamError::InvalidTimestamp);
    assert_eq!(get_short_epg(&vec![item.clone(), item]).unwrap().len(), 2);
}

#[test]
fn guide_listing_with_empty_description() {
    let item = XtreamEpgItem {
        id: "1".to_string(),
        title: "SGVsbG8=".to_string(),
        description: "".to_string(),
        start_timestamp: "0".to_string(),
        stop_timestamp: "60".to_string(),
    };
    let e = xtream_epg_to_epg(&item).unwrap();
    assert_eq!(e.epg_id, "1");
    assert_eq!(e.title, "Hello");
    assert_eq!(e.description, "");
    assert_eq!(e.start_timestamp, 0);
    let mut bad = item.clone();
    bad.title = "!!".to_string();
    assert!(xtream_epg_to_epg(&bad).is_err());
    let mut first_bad = item.clone();
    first_bad.description = "***".to_string();
    let mut second_bad = item.clone();
    second_bad.start_timestamp = "x".to_string();
    assert_eq!(get_short_epg(&vec![item, first_bad, second_bad]).unwrap_err(), XtreamError::InvalidBase64);
}

#[test]
fn episodes_are_all_or_nothing() {
    let mut cat = Catalog::new();
    get_xtream(&mut cat, &api_source(), &data(false, false, true), false).unwrap();
    let series_row: Channel = cat.channels[0].clone();
    let ep = |id: &str, e: u32| XtreamEpisode {
        id: id.to_string(),
        title: format!("E{e}"),
        container_extension: "mp4".to_string(),
        episode_num: e,
        season: 1,
        image: None,
    };
    let eps = vec![ep("a", 1), ep("b", 2)];
    cat.next_id = i64::MAX - 4;
    assert_eq!(get_episodes(&mut cat, &series_row, &eps), Err(XtreamError::StoreFull));
    assert_eq!(cat.channels.len(), 1);
    assert!(cat.seasons.is_empty());
    cat.next_id = i64::MAX - 5;
    assert_eq!(get_episodes(&mut cat, &series_row, &eps), Ok(()));
    assert_eq!(cat.channels.len(), 3);
}
