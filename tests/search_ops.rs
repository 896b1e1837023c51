use open_tv::kinds::{CATEGORIES, GROUP, HIDDEN, HISTORY, LIVESTREAM, MOVIE, SEASON};
use open_tv::query::{matches_keywords, search};
use open_tv::store::{add_last_watched, Catalog};
use open_tv::types::{Channel, Filters, Season};

fn channel(name: &str, url: &str, source_id: i64) -> Channel {
    Channel {
        id: None,
        name: name.to_string(),
        url: Some(url.to_string()),
        group: None,
        image: None,
        media_type: LIVESTREAM,
        source_id: Some(source_id),
        series_id: None,
        group_id: None,
        favorite: false,
        stream_id: None,
        hidden: false,
        last_watched: None,
        season_id: None,
        episode_num: None,
        tv_archive: None,
    }
}

fn filters(view: u8, page: u8) -> Filters {
    Filters {
        query: None,
        source_ids: vec![1],
        media_types: Some(vec![LIVESTREAM, MOVIE]),
        view_type: view,
        page,
        series_id: None,
        group_id: None,
        season_id: None,
        use_keywords: false,
        sort: 0,
    }
}

fn chars(s: &str) -> Vec<char> {
    s.chars().collect()
}

#[test]
fn keyword_mode_needs_every_token() {
    let q = chars("news hd");
    assert!(matches_keywords(&chars("Sports News HD Channel"), &q, true));
    assert!(!matches_keywords(&chars("News Only"), &q, true));
    assert!(matches_keywords(&chars("HD News Channel"), &q, true));
    assert!(!matches_keywords(&chars("HD News Channel"), &q, false));
    assert!(matches_keywords(&chars("Daily NEWS hd"), &q, false));
    assert!(matches_keywords(&chars("anything"), &chars(""), false));
    assert!(matches_keywords(&chars("Sports News HD"), &chars("news\u{a0}hd"), true));
    assert!(!matches_keywords(&chars("News Only"), &chars("news\u{3000}hd"), true));
}

#[test]
fn page_two_of_a_hundred() {
    let mut cat = Catalog::new();
    for i in 0..100 {
        let name = format!("ch{:03}", i);
        cat.insert_channel(&channel(&name, &format!("http://x/{i}"), 1)).unwrap();
    }
    let rows = search(&cat, &filters(0, 2));
    assert_eq!(rows.len(), 36);
    assert_eq!(rows[0].name, "ch036");
    assert_eq!(rows[35].name, "ch071");
    let last = search(&cat, &filters(0, 3));
    assert_eq!(last.len(), 28);
    assert!(search(&cat, &filters(0, 4)).is_empty());
}

#[test]
fn categories_are_groups_sorted_by_name() {
    let mut cat = Catalog::new();
    for g in ["Zeta", "alpha", "Beta"] {
        cat.get_or_insert_group(&g.to_string(), &None, 1, LIVESTREAM).unwrap();
    }
    cat.get_or_insert_group(&"Other source".to_string(), &None, 2, LIVESTREAM).unwrap();
    let rows = search(&cat, &filters(CATEGORIES, 1));
    let names: Vec<&str> = rows.iter().map(|r| r.name.as_str()).collect();
    assert_eq!(names, vec!["Beta", "Zeta", "alpha"]);
    assert!(rows.iter().all(|r| r.media_type == GROUP));
    let mut desc = filters(CATEGORIES, 1);
    desc.sort = 1;
    let names: Vec<String> = search(&cat, &desc).into_iter().map(|r| r.name).collect();
    assert_eq!(names, vec!["alpha", "Zeta", "Beta"]);
}

#[test]
fn history_orders_by_last_watched() {
    let mut cat = Catalog::new();
    let a = cat.insert_channel(&channel("A", "http://a", 1)).unwrap();
    let b = cat.insert_channel(&channel("B", "http://b", 1)).unwrap();
    cat.insert_channel(&channel("C", "http://c", 1)).unwrap();
    add_last_watched(&mut cat, a, 10);
    add_last_watched(&mut cat, b, 20);
    let mut f = filters(HISTORY, 1);
    f.sort = 0;
    let rows = search(&cat, &f);
    let names: Vec<&str> = rows.iter().map(|r| r.name.as_str()).collect();
    assert_eq!(names, vec!["B", "A"]);
}

#[test]
fn favorites_and_hidden_views() {
    let mut cat = Catalog::new();
    let a = cat.insert_channel(&channel("A", "http://a", 1)).unwrap();
    let b = cat.insert_channel(&channel("B", "http://b", 1)).unwrap();
    open_tv::store::favorite_channel(&mut cat, a, true);
    cat.hide_channel(b, true);
    let fav = search(&cat, &filters(1, 1));
    assert_eq!(fav.len(), 1);
    assert_eq!(fav[0].name, "A");
    let all = search(&cat, &filters(0, 1));
    assert_eq!(all.len(), 1);
    cat.get_or_insert_group(&"Hidden group".to_string(), &None, 1, LIVESTREAM).unwrap();
    cat.groups[0].hidden = true;
    let hidden = search(&cat, &filters(HIDDEN, 1));
    let names: Vec<&str> = hidden.iter().map(|r| r.name.as_str()).collect();
    assert_eq!(names, vec!["B", "Hidden group"]);
    assert_eq!(hidden[1].media_type, GROUP);
}

#[test]
fn series_lists_seasons_then_episodes() {
    let mut cat = Catalog::new();
    for n in [2u32, 1] {
        cat.upsert_season(&Season {
            id: 0,
            name: format!("{n}"),
            image: None,
            series_id: 7,
            season_number: n,
            source_id: 1,
        })
        .unwrap();
    }
    let mut f = filters(0, 1);
    f.series_id = Some(7);
    let seasons = search(&cat, &f);
    assert_eq!(seasons.len(), 2);
    assert_eq!(seasons[0].name, "1");
    assert!(seasons.iter().all(|r| r.media_type == SEASON));
    let season_one = seasons[0].id.unwrap();
    for (name, ep) in [("E2", 2u32), ("E1", 1)] {
        let mut c = channel(name, &format!("http://e/{ep}"), 1);
        c.media_type = MOVIE;
        c.series_id = Some(7);
        c.season_id = Some(season_one);
        c.episode_num = Some(ep);
        cat.insert_channel(&c).unwrap();
    }
    f.season_id = Some(season_one);
    let eps: Vec<String> = search(&cat, &f).into_iter().map(|r| r.name).collect();
    assert_eq!(eps, vec!["E1", "E2"]);
}

#[test]
fn favorites_and_group_hold_inside_a_series() {
    let mut cat = Catalog::new();
    let mut ids = Vec::new();
    for (name, group) in [("E1", Some(5)), ("E2", Some(6)), ("E3", Some(5))] {
        let mut c = channel(name, &format!("http://e/{name}"), 1);
        c.media_type = MOVIE;
        c.series_id = Some(7);
        c.season_id = Some(1);
        c.group_id = group;
        ids.push(cat.insert_channel(&c).unwrap());
    }
    open_tv::store::favorite_channel(&mut cat, ids[0], true);
    open_tv::store::favorite_channel(&mut cat, ids[1], true);
    let mut f = filters(1, 1);
    f.series_id = Some(7);
    f.season_id = Some(1);
    let favs: Vec<String> = search(&cat, &f).into_iter().map(|r| r.name).collect();
    assert_eq!(favs, vec!["E1", "E2"]);
    f.view_type = 0;
    f.group_id = Some(5);
    let grouped: Vec<String> = search(&cat, &f).into_iter().map(|r| r.name).collect();
    assert_eq!(grouped, vec!["E1", "E3"]);
}
