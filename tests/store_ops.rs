use open_tv::kinds::{LIVESTREAM, MOVIE};
use open_tv::store::{
    add_last_watched, clear_history, delete_source, favorite_channel, get_enabled_sources,
    has_sources, set_source_enabled, source_name_exists, update_source, Catalog, StoreError,
};
use open_tv::types::{Channel, Source};
use open_tv::utils::{refresh_source, Fetched};

fn source(name: &str) -> Source {
    Source {
        id: None,
        name: name.to_string(),
        url: Some("/tmp/p.m3u".to_string()),
        url_origin: None,
        username: None,
        password: None,
        source_type: 0,
        enabled: true,
        user_agent: None,
        use_tvg_id: None,
        max_streams: None,
        last_updated: None,
    }
}

fn channel(name: &str, url: &str, source_id: i64) -> Channel {
    Channel {
        id: None,
        name: name.to_string(),
        url: Some(url.to_string()),
        group: None,
        image: None,
        media_type: LIVESTREAM,
        source_id: Some(source_id),
        series_id: None,
        group_id: None,
        favorite: false,
        stream_id: None,
        hidden: false,
        last_watched: None,
        season_id: None,
        episode_num: None,
        tv_archive: None,
    }
}

#[test]
fn upsert_same_key_twice_keeps_user_state() {
    let mut cat = Catalog::new();
    let sid = cat.create_or_find_source_by_name(&source("s")).unwrap();
    let id = cat.insert_channel(&channel("A", "http://a", sid)).unwrap();
    favorite_channel(&mut cat, id, true);
    add_last_watched(&mut cat, id, 1000);
    cat.hide_channel(id, true);
    let mut again = channel("A", "http://a", sid);
    again.media_type = MOVIE;
    again.image = Some("http://img".to_string());
    again.stream_id = Some(77);
    let id2 = cat.insert_channel(&again).unwrap();
    assert_eq!(id2, id);
    assert_eq!(cat.channels.len(), 1);
    let row = &cat.channels[0];
    assert!(row.favorite);
    assert!(row.hidden);
    assert_eq!(row.last_watched, Some(1000));
    assert_eq!(row.media_type, MOVIE);
    assert_eq!(row.image.as_deref(), Some("http://img"));
    assert_eq!(row.stream_id, Some(77));
}

#[test]
fn source_find_or_create_by_name() {
    let mut cat = Catalog::new();
    let a = cat.create_or_find_source_by_name(&source("same")).unwrap();
    let b = cat.create_or_find_source_by_name(&source("same")).unwrap();
    let c = cat.create_or_find_source_by_name(&source("other")).unwrap();
    assert_eq!(a, b);
    assert_ne!(a, c);
    assert_eq!(cat.sources.len(), 2);
    assert!(has_sources(&cat));
    assert!(source_name_exists(&cat, &"other".to_string()));
    assert!(!source_name_exists(&cat, &"nope".to_string()));
}

#[test]
fn ids_run_out() {
    let mut cat = Catalog::new();
    cat.next_id = i64::MAX;
    assert_eq!(cat.create_or_find_source_by_name(&source("s")), Err(StoreError::Full));
    assert!(cat.sources.is_empty());
}

#[test]
fn delete_missing_source_is_not_found() {
    let mut cat = Catalog::new();
    let sid = cat.create_or_find_source_by_name(&source("s")).unwrap();
    cat.insert_channel(&channel("A", "http://a", sid)).unwrap();
    assert_eq!(delete_source(&mut cat, sid + 100), Err(StoreError::NotFound));
    assert_eq!(cat.sources.len(), 1);
    assert_eq!(cat.channels.len(), 1);
}

#[test]
fn delete_source_cascades() {
    let mut cat = Catalog::new();
    let s1 = cat.create_or_find_source_by_name(&source("one")).unwrap();
    let s2 = cat.create_or_find_source_by_name(&source("two")).unwrap();
    let mut c = channel("A", "http://a", s1);
    c.group = Some("G".to_string());
    cat.set_channel_group_id(&mut c, s1).unwrap();
    cat.insert_channel(&c).unwrap();
    cat.insert_channel(&channel("B", "http://b", s2)).unwrap();
    assert_eq!(delete_source(&mut cat, s1), Ok(()));
    assert_eq!(cat.sources.len(), 1);
    assert_eq!(cat.channels.len(), 1);
    assert_eq!(cat.channels[0].name, "B");
    assert!(cat.groups.is_empty());
}

#[test]
fn refresh_keeps_favorites_present_upstream() {
    let mut cat = Catalog::new();
    let sid = cat.create_or_find_source_by_name(&source("fav")).unwrap();
    for (n, u) in [("A", "http://a"), ("B", "http://b"), ("C", "http://c"), ("D", "http://d")] {
        let id = cat.insert_channel(&channel(n, u, sid)).unwrap();
        favorite_channel(&mut cat, id, true);
    }
    let mut src = source("fav");
    src.id = Some(sid);
    let text = "#EXTINF:-1,A\nhttp://a2\n#EXTINF:-1,B\nhttp://b\n#EXTINF:-1,C\nhttp://c\n#EXTINF:-1,E\nhttp://e\n";
    let lines: Vec<String> = text.lines().map(|l| l.to_string()).collect();
    refresh_source(&mut cat, &src, &Fetched::Lines(lines), 555).unwrap();
    let names: Vec<&str> = cat.channels.iter().map(|c| c.name.as_str()).collect();
    assert_eq!(names, vec!["A", "B", "C", "E"]);
    assert!(cat.channels[0].favorite && cat.channels[1].favorite && cat.channels[2].favorite);
    assert!(!cat.channels[3].favorite);
    assert!(cat.channels.iter().all(|c| c.name != "D"));
    assert_eq!(cat.sources[0].last_updated, Some(555));
}

#[test]
fn refresh_restores_hidden_groups_and_history() {
    let mut cat = Catalog::new();
    let sid = cat.create_or_find_source_by_name(&source("h")).unwrap();
    let mut c = channel("A", "http://a", sid);
    c.group = Some("G".to_string());
    cat.set_channel_group_id(&mut c, sid).unwrap();
    let id = cat.insert_channel(&c).unwrap();
    add_last_watched(&mut cat, id, 42);
    cat.groups[0].hidden = true;
    let mut src = source("h");
    src.id = Some(sid);
    let lines = vec!["#EXTINF:-1 group-title=\"G\",A".to_string(), "http://a".to_string()];
    refresh_source(&mut cat, &src, &Fetched::Lines(lines), 1).unwrap();
    assert_eq!(cat.channels.len(), 1);
    assert_eq!(cat.channels[0].last_watched, Some(42));
    assert_eq!(cat.groups.len(), 1);
    assert!(cat.groups[0].hidden);
    clear_history(&mut cat);
    assert_eq!(cat.channels[0].last_watched, None);
}

#[test]
fn enabling_and_updating_sources() {
    let mut cat = Catalog::new();
    let a = cat.create_or_find_source_by_name(&source("a")).unwrap();
    cat.create_or_find_source_by_name(&source("b")).unwrap();
    set_source_enabled(&mut cat, false, a);
    let enabled = get_enabled_sources(&cat);
    assert_eq!(enabled.len(), 1);
    assert_eq!(enabled[0].name, "b");
    let mut s = source("a");
    s.id = Some(a);
    s.username = Some("u".to_string());
    s.url = Some("http://new".to_string());
    assert_eq!(update_source(&mut cat, &s), Ok(()));
    assert_eq!(cat.sources[0].username.as_deref(), Some("u"));
    assert_eq!(cat.sources[0].url.as_deref(), Some("http://new"));
    assert_eq!(update_source(&mut cat, &source("z")), Err(StoreError::NotFound));
}

#[test]
fn custom_source_refresh_is_a_no_op() {
    let mut cat = Catalog::new();
    let mut s = source("c");
    s.source_type = 3;
    s.id = Some(9);
    assert_eq!(refresh_source(&mut cat, &s, &Fetched::Nothing, 5), Ok(Vec::new()));
    assert!(cat.sources.is_empty());
    assert_eq!(open_tv::utils::add_source(&mut cat, &s, &Fetched::Nothing), Ok(Vec::new()));
    assert!(source_name_exists(&cat, &"c".to_string()));
    assert_eq!(open_tv::utils::add_source(&mut cat, &s, &Fetched::Nothing), Ok(Vec::new()));
    assert_eq!(cat.sources.len(), 1);
    s.source_type = 9;
    assert!(refresh_source(&mut cat, &s, &Fetched::Nothing, 5).is_err());
}
