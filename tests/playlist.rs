use open_tv::kinds::{LIVESTREAM, MOVIE};
use open_tv::m3u::{get_channel_from_lines, get_m3u8, read_m3u8, read_playlist, EntryError, IngestError};
use open_tv::store::{get_channel_headers_by_id, get_sources, Catalog};
use open_tv::types::Source;

fn lines(text: &str) -> Vec<String> {
    text.lines().map(|l| l.to_string()).collect()
}

fn playlist_source(name: &str) -> Source {
    Source {
        id: None,
        name: name.to_string(),
        url: Some("/tmp/list.m3u".to_string()),
        url_origin: None,
        username: None,
        password: None,
        source_type: 0,
        enabled: true,
        user_agent: None,
        use_tvg_id: None,
        max_streams: None,
        last_updated: None,
    }
}

#[test]
fn well_formed_and_malformed_entries() {
    let text = "#EXTM3U\n\
#EXTINF:-1 tvg-name=\"One\" group-title=\"News\",One\nhttp://a/1\n\
#EXTINF:-1 tvg-name=\"Broken\",Broken\n\
#EXTINF:-1 tvg-name=\"Two\",Two\nhttp://a/2.mp4\n\
#EXTINF:-1,Three\n\n   \nhttp://a/3\n\
#EXTINF:-1 tvg-name=\"Dangling\",Dangling\n";
    let mut cat = Catalog::new();
    let skipped = get_m3u8(&mut cat, &playlist_source("list"), &lines(text)).unwrap();
    assert_eq!(cat.channels.len(), 3);
    assert_eq!(skipped.len(), 2);
    let names: Vec<&str> = cat.channels.iter().map(|c| c.name.as_str()).collect();
    assert_eq!(names, vec!["One", "Two", "Three"]);
    assert_eq!(cat.channels[1].media_type, MOVIE);
    assert_eq!(cat.channels[0].media_type, LIVESTREAM);
    assert_eq!(get_sources(&cat).len(), 1);
}

#[test]
fn content_line_must_follow_the_marker() {
    let text = "#EXTM3U\n#EXTINF:-1,Lonely\n#EXTINF:-1,Fine\nhttp://x/fine\n";
    let entries = read_playlist(&lines(text));
    assert_eq!(entries.len(), 2);
    assert!(entries[0].content.is_none());
    assert_eq!(entries[0].line, 2);
    assert_eq!(entries[1].content.as_deref(), Some("http://x/fine"));
    assert_eq!(entries[1].line, 4);
}

#[test]
fn group_label_repeated_gives_one_group() {
    let text = "#EXTINF:-1 group-title=\"Sports\",A\nhttp://s/a\n\
#EXTINF:-1 group-title=\"Sports\",B\nhttp://s/b\n\
#EXTINF:-1 group-title=\"Sports\",C\nhttp://s/c\n";
    let mut cat = Catalog::new();
    get_m3u8(&mut cat, &playlist_source("s"), &lines(text)).unwrap();
    assert_eq!(cat.groups.len(), 1);
    assert_eq!(cat.channels.len(), 3);
    let gid = cat.groups[0].id;
    assert!(cat.channels.iter().all(|c| c.group_id == Some(gid)));
}

#[test]
fn directives_become_headers() {
    let text = "#EXTINF:-1,Hdr\n#EXTVLCOPT:http-referrer=http://ref\n#EXTVLCOPT:http-user-agent=Agent 1\n#extvlcopt:nothing=here\nhttp://h/1\n\
#EXTINF:-1,Plain\n#EXTVLCOPT:http-origin=   \nhttp://h/2\n";
    let mut cat = Catalog::new();
    get_m3u8(&mut cat, &playlist_source("h"), &lines(text)).unwrap();
    assert_eq!(cat.channels.len(), 2);
    assert_eq!(cat.headers.len(), 1);
    let h = &cat.headers[0];
    assert_eq!(h.channel_id, cat.channels[0].id);
    assert_eq!(h.referrer.as_deref(), Some("http://ref"));
    assert_eq!(h.user_agent.as_deref(), Some("Agent 1"));
    assert_eq!(h.http_origin, None);
    let found = get_channel_headers_by_id(&cat, cat.channels[0].id.unwrap()).unwrap();
    assert_eq!(found.referrer.as_deref(), Some("http://ref"));
    assert!(get_channel_headers_by_id(&cat, cat.channels[1].id.unwrap()).is_none());
}

#[test]
fn name_falls_back_to_title_then_id() {
    let c = get_channel_from_lines(
        &"#EXTINF:-1 tvg-name=\"  \" tvg-id=\"id9\" tvg-logo=\" http://l/x.png \",  Title Here ".to_string(),
        &" http://u/movie.mkv ".to_string(),
        4,
    )
    .unwrap();
    assert_eq!(c.name, "Title Here");
    assert_eq!(c.image.as_deref(), Some("http://l/x.png"));
    assert_eq!(c.url.as_deref(), Some("http://u/movie.mkv"));
    assert_eq!(c.media_type, MOVIE);
    assert_eq!(c.source_id, Some(4));
    let d = get_channel_from_lines(&"#EXTINF:-1 tvg-id=\"id9\"".to_string(), &"http://u".to_string(), 4).unwrap();
    assert_eq!(d.name, "id9");
    let e = get_channel_from_lines(&"#EXTINF:-1".to_string(), &"http://u".to_string(), 4);
    assert_eq!(e.unwrap_err(), EntryError::MissingName);
    let f = get_channel_from_lines(&"#EXTINF:-1,N".to_string(), &"   ".to_string(), 4);
    assert_eq!(f.unwrap_err(), EntryError::MissingContent);
}

#[test]
fn refresh_needs_a_source_id() {
    let mut cat = Catalog::new();
    let r = read_m3u8(&mut cat, &playlist_source("x"), &lines("#EXTINF:-1,A\nhttp://a\n"), true);
    assert_eq!(r.unwrap_err(), IngestError::MissingSourceId);
    assert!(cat.channels.is_empty());
}

#[test]
fn empty_playlist_adds_only_the_source() {
    let mut cat = Catalog::new();
    let skipped = get_m3u8(&mut cat, &playlist_source("empty"), &Vec::new()).unwrap();
    assert!(skipped.is_empty());
    assert!(cat.channels.is_empty());
    assert_eq!(cat.sources.len(), 1);
    assert_eq!(cat.sources[0].id, Some(1));
}

#[test]
fn headers_follow_the_latest_entry() {
    let mut cat = Catalog::new();
    let first = "#EXTINF:-1,Hdr\n#EXTVLCOPT:http-referrer=http://old\nhttp://h/1\n#EXTINF:-1,Gone\n#EXTVLCOPT:http-origin=http://o\nhttp://h/2\n";
    get_m3u8(&mut cat, &playlist_source("h"), &lines(first)).unwrap();
    assert_eq!(cat.headers.len(), 2);
    let second = "#EXTINF:-1,Hdr\n#EXTVLCOPT:http-referrer=http://new\nhttp://h/1\n#EXTINF:-1,Gone\nhttp://h/2\n";
    get_m3u8(&mut cat, &playlist_source("h"), &lines(second)).unwrap();
    assert_eq!(cat.channels.len(), 2);
    assert_eq!(cat.headers.len(), 1);
    assert_eq!(cat.headers[0].channel_id, cat.channels[0].id);
    assert_eq!(cat.headers[0].referrer.as_deref(), Some("http://new"));
}

#[test]
fn deleting_a_source_drops_its_headers() {
    let mut cat = Catalog::new();
    let text = "#EXTINF:-1,Hdr\n#EXTVLCOPT:http-referrer=http://r\nhttp://h/1\n";
    get_m3u8(&mut cat, &playlist_source("h"), &lines(text)).unwrap();
    let sid = cat.sources[0].id.unwrap();
    open_tv::store::delete_source(&mut cat, sid).unwrap();
    assert!(cat.headers.is_empty());
    assert!(cat.channels.is_empty());
}
