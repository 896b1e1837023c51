//! The catalog's records, each with a view over plain mathematical values.
use vstd::prelude::*;

verus! {

/// A copy of an optional string, with the same characters.
pub fn copy_text(o: &Option<String>) -> (r: Option<String>)
    ensures
        r.deep_view() == o.deep_view(),
{
    match o {
        Some(s) => {
            let c = s.clone();
            let r = Some(c);
            assert(r.deep_view() == Some(c@));
            r
        },
        None => None,
    }
}

/// A playable entry, or a row shaped like one (a group or a season) in search results.
#[derive(Clone, Debug)]
pub struct Channel {
    pub id: Option<i64>,
    pub name: String,
    pub url: Option<String>,
    pub group: Option<String>,
    pub image: Option<String>,
    pub media_type: u8,
    pub source_id: Option<i64>,
    pub series_id: Option<u64>,
    pub group_id: Option<i64>,
    pub favorite: bool,
    pub stream_id: Option<u64>,
    pub hidden: bool,
    pub last_watched: Option<i64>,
    pub season_id: Option<i64>,
    pub episode_num: Option<u32>,
    pub tv_archive: Option<bool>,
}

pub struct ChannelView {
    pub id: Option<i64>,
    pub name: Seq<char>,
    pub url: Option<Seq<char>>,
    pub group: Option<Seq<char>>,
    pub image: Option<Seq<char>>,
    pub media_type: u8,
    pub source_id: Option<i64>,
    pub series_id: Option<u64>,
    pub group_id: Option<i64>,
    pub favorite: bool,
    pub stream_id: Option<u64>,
    pub hidden: bool,
    pub last_watched: Option<i64>,
    pub season_id: Option<i64>,
    pub episode_num: Option<u32>,
    pub tv_archive: Option<bool>,
}

impl View for Channel {
    type V = ChannelView;

    open spec fn view(&self) -> ChannelView {
        ChannelView {
            id: self.id,
            name: self.name@,
            url: self.url.deep_view(),
            group: self.group.deep_view(),
            image: self.image.deep_view(),
            media_type: self.media_type,
            source_id: self.source_id,
            series_id: self.series_id,
            group_id: self.group_id,
            favorite: self.favorite,
            stream_id: self.stream_id,
            hidden: self.hidden,
            last_watched: self.last_watched,
            season_id: self.season_id,
            episode_num: self.episode_num,
            tv_archive: self.tv_archive,
        }
    }
}

impl Channel {
    pub fn duplicate(&self) -> (r: Channel)
        ensures
            r@ == self@,
    {
        Channel {
            id: self.id,
            name: self.name.clone(),
            url: copy_text(&self.url),
            group: copy_text(&self.group),
            image: copy_text(&self.image),
            media_type: self.media_type,
            source_id: self.source_id,
            series_id: self.series_id,
            group_id: self.group_id,
            favorite: self.favorite,
            stream_id: self.stream_id,
            hidden: self.hidden,
            last_watched: self.last_watched,
            season_id: self.season_id,
            episode_num: self.episode_num,
            tv_archive: self.tv_archive,
        }
    }
}

/// One external origin of catalog data.
#[derive(Clone, Debug)]
pub struct Source {
    pub id: Option<i64>,
    pub name: String,
    pub url: Option<String>,
    pub url_origin: Option<String>,
    pub username: Option<String>,
    pub password: Option<String>,
    pub source_type: u8,
    pub enabled: bool,
    pub user_agent: Option<String>,
    pub use_tvg_id: Option<bool>,
    pub max_streams: Option<u8>,
    pub last_updated: Option<i64>,
}

pub struct SourceView {
    pub id: Option<i64>,
    pub name: Seq<char>,
    pub url: Option<Seq<char>>,
    pub url_origin: Option<Seq<char>>,
    pub username: Option<Seq<char>>,
    pub password: Option<Seq<char>>,
    pub source_type: u8,
    pub enabled: bool,
    pub user_agent: Option<Seq<char>>,
    pub use_tvg_id: Option<bool>,
    pub max_streams: Option<u8>,
    pub last_updated: Option<i64>,
}

impl View for Source {
    type V = SourceView;

    open spec fn view(&self) -> SourceView {
        SourceView {
            id: self.id,
            name: self.name@,
            url: self.url.deep_view(),
            url_origin: self.url_origin.deep_view(),
            username: self.username.deep_view(),
            password: self.password.deep_view(),
            source_type: self.source_type,
            enabled: self.enabled,
            user_agent: self.user_agent.deep_view(),
            use_tvg_id: self.use_tvg_id,
            max_streams: self.max_streams,
            last_updated: self.last_updated,
        }
    }
}

impl Source {
    pub fn duplicate(&self) -> (r: Source)
        ensures
            r@ == self@,
    {
        Source {
            id: self.id,
            name: self.name.clone(),
            url: copy_text(&self.url),
            url_origin: copy_text(&self.url_origin),
            username: copy_text(&self.username),
            password: copy_text(&self.password),
            source_type: self.source_type,
            enabled: self.enabled,
            user_agent: copy_text(&self.user_agent),
            use_tvg_id: self.use_tvg_id,
            max_streams: self.max_streams,
            last_updated: self.last_updated,
        }
    }
}

/// A category of channels within one source.
#[derive(Clone, Debug)]
pub struct Group {
    pub id: i64,
    pub name: String,
    pub image: Option<String>,
    pub source_id: i64,
    pub media_type: Option<u8>,
    pub hidden: bool,
}

pub struct GroupView {
    pub id: i64,
    pub name: Seq<char>,
    pub image: Option<Seq<char>>,
    pub source_id: i64,
    pub media_type: Option<u8>,
    pub hidden: bool,
}

impl View for Group {
    type V = GroupView;

    open spec fn view(&self) -> GroupView {
        GroupView {
            id: self.id,
            name: self.name@,
            image: self.image.deep_view(),
            source_id: self.source_id,
            media_type: self.media_type,
            hidden: self.hidden,
        }
    }
}

impl Group {
    pub fn duplicate(&self) -> (r: Group)
        ensures
            r@ == self@,
    {
        Group {
            id: self.id,
            name: self.name.clone(),
            image: copy_text(&self.image),
            source_id: self.source_id,
            media_type: self.media_type,
            hidden: self.hidden,
        }
    }
}

/// A season of one series within one source.
#[derive(Clone, Debug)]
pub struct Season {
    pub id: i64,
    pub name: String,
    pub image: Option<String>,
    pub series_id: u64,
    pub season_number: u32,
    pub source_id: i64,
}

pub struct SeasonView {
    pub id: i64,
    pub name: Seq<char>,
    pub image: Option<Seq<char>>,
    pub series_id: u64,
    pub season_number: u32,
    pub source_id: i64,
}

impl View for Season {
    type V = SeasonView;

    open spec fn view(&self) -> SeasonView {
        SeasonView {
            id: self.id,
            name: self.name@,
            image: self.image.deep_view(),
            series_id: self.series_id,
            season_number: self.season_number,
            source_id: self.source_id,
        }
    }
}

impl Season {
    pub fn duplicate(&self) -> (r: Season)
        ensures
            r@ == self@,
    {
        Season {
            id: self.id,
            name: self.name.clone(),
            image: copy_text(&self.image),
            series_id: self.series_id,
            season_number: self.season_number,
            source_id: self.source_id,
        }
    }
}

/// Transport overrides for one channel.
#[derive(Clone, Debug)]
pub struct ChannelHttpHeaders {
    pub id: Option<i64>,
    pub channel_id: Option<i64>,
    pub referrer: Option<String>,
    pub user_agent: Option<String>,
    pub http_origin: Option<String>,
    pub ignore_ssl: Option<bool>,
}

pub struct HeadersView {
    pub id: Option<i64>,
    pub channel_id: Option<i64>,
    pub referrer: Option<Seq<char>>,
    pub user_agent: Option<Seq<char>>,
    pub http_origin: Option<Seq<char>>,
    pub ignore_ssl: Option<bool>,
}

impl View for ChannelHttpHeaders {
    type V = HeadersView;

    open spec fn view(&self) -> HeadersView {
        HeadersView {
            id: self.id,
            channel_id: self.channel_id,
            referrer: self.referrer.deep_view(),
            user_agent: self.user_agent.deep_view(),
            http_origin: self.http_origin.deep_view(),
            ignore_ssl: self.ignore_ssl,
        }
    }
}

impl ChannelHttpHeaders {
    pub fn duplicate(&self) -> (r: ChannelHttpHeaders)
        ensures
            r@ == self@,
    {
        ChannelHttpHeaders {
            id: self.id,
            channel_id: self.channel_id,
            referrer: copy_text(&self.referrer),
            user_agent: copy_text(&self.user_agent),
            http_origin: copy_text(&self.http_origin),
            ignore_ssl: self.ignore_ssl,
        }
    }
}

/// What a search asks for.
#[derive(Clone, Debug)]
pub struct Filters {
    pub query: Option<String>,
    pub source_ids: Vec<i64>,
    pub media_types: Option<Vec<u8>>,
    pub view_type: u8,
    pub page: u8,
    pub series_id: Option<i64>,
    pub group_id: Option<i64>,
    pub season_id: Option<i64>,
    pub use_keywords: bool,
    pub sort: u8,
}

/// One program-guide listing, decoded for display.
#[derive(Clone, Debug)]
pub struct EPG {
    pub epg_id: String,
    pub title: String,
    pub description: String,
    pub start_time: String,
    pub start_timestamp: i64,
    pub end_time: String,
}

/// User preferences kept as key-value pairs.
#[derive(Clone, Debug)]
pub struct Settings {
    pub use_stream_caching: Option<bool>,
    pub default_view: Option<u8>,
    pub refresh_on_start: Option<bool>,
    pub default_sort: Option<u8>,
    pub force_tv_mode: Option<bool>,
}

} // verus!
