//! Tagged kinds stored as small integers: media kind, sort mode, source kind
//! and view mode. Each decodes from its stored integer, with an unknown value
//! falling back to the first variant.
use vstd::prelude::*;

verus! {

pub const LIVESTREAM: u8 = 0;
pub const MOVIE: u8 = 1;
pub const SERIE: u8 = 2;
pub const GROUP: u8 = 3;
pub const SEASON: u8 = 4;

pub const ALPHABETICAL_ASC: u8 = 0;
pub const ALPHABETICAL_DESC: u8 = 1;
pub const PROVIDER: u8 = 2;

pub const M3U: u8 = 0;
pub const M3U_LINK: u8 = 1;
pub const XTREAM: u8 = 2;
pub const CUSTOM: u8 = 3;

pub const ALL: u8 = 0;
pub const FAVORITES: u8 = 1;
pub const CATEGORIES: u8 = 2;
pub const HISTORY: u8 = 3;
pub const HIDDEN: u8 = 4;

#[derive(Debug, Clone, Copy, PartialEq, Eq, Structural)]
pub enum MediaType {
    Livestream,
    Movie,
    Serie,
    Group,
    Season,
}

#[derive(Debug, Clone, Copy, PartialEq, Eq, Structural)]
pub enum SortType {
    AlphabeticalAsc,
    AlphabeticalDesc,
    Provider,
}

#[derive(Debug, Clone, Copy, PartialEq, Eq, Structural)]
pub enum SourceType {
    M3u,
    M3uLink,
    Xtream,
    Custom,
}

#[derive(Debug, Clone, Copy, PartialEq, Eq, Structural)]
pub enum ViewType {
    All,
    Favorites,
    Categories,
    History,
    Hidden,
}

/// The media kind that a stored integer denotes.
pub open spec fn media_type_of(v: u8) -> MediaType {
    if v == MOVIE {
        MediaType::Movie
    } else if v == SERIE {
        MediaType::Serie
    } else if v == GROUP {
        MediaType::Group
    } else if v == SEASON {
        MediaType::Season
    } else {
        MediaType::Livestream
    }
}

pub open spec fn sort_type_of(v: u8) -> SortType {
    if v == ALPHABETICAL_DESC {
        SortType::AlphabeticalDesc
    } else if v == PROVIDER {
        SortType::Provider
    } else {
        SortType::AlphabeticalAsc
    }
}

pub open spec fn source_type_of(v: u8) -> SourceType {
    if v == M3U_LINK {
        SourceType::M3uLink
    } else if v == XTREAM {
        SourceType::Xtream
    } else if v == CUSTOM {
        SourceType::Custom
    } else {
        SourceType::M3u
    }
}

pub open spec fn view_type_of(v: u8) -> ViewType {
    if v == FAVORITES {
        ViewType::Favorites
    } else if v == CATEGORIES {
        ViewType::Categories
    } else if v == HISTORY {
        ViewType::History
    } else if v == HIDDEN {
        ViewType::Hidden
    } else {
        ViewType::All
    }
}

impl MediaType {
    pub fn from_u8(value: u8) -> (r: MediaType)
        ensures
            r == media_type_of(value),
    {
        match value {
            1 => MediaType::Movie,
            2 => MediaType::Serie,
            3 => MediaType::Group,
            4 => MediaType::Season,
            _ => MediaType::Livestream,
        }
    }

    pub fn to_u8(self) -> (r: u8)
        ensures
            media_type_of(r) == self,
            r <= SEASON,
    {
        match self {
            MediaType::Livestream => LIVESTREAM,
            MediaType::Movie => MOVIE,
            MediaType::Serie => SERIE,
            MediaType::Group => GROUP,
            MediaType::Season => SEASON,
        }
    }
}

impl SortType {
    pub fn from_u8(value: u8) -> (r: SortType)
        ensures
            r == sort_type_of(value),
    {
        match value {
            1 => SortType::AlphabeticalDesc,
            2 => SortType::Provider,
            _ => SortType::AlphabeticalAsc,
        }
    }
}

impl SourceType {
    pub fn from_u8(value: u8) -> (r: SourceType)
        ensures
            r == source_type_of(value),
    {
        match value {
            1 => SourceType::M3uLink,
            2 => SourceType::Xtream,
            3 => SourceType::Custom,
            _ => SourceType::M3u,
        }
    }
}

impl ViewType {
    pub fn from_u8(value: u8) -> (r: ViewType)
        ensures
            r == view_type_of(value),
    {
        match value {
            1 => ViewType::Favorites,
            2 => ViewType::Categories,
            3 => ViewType::History,
            4 => ViewType::Hidden,
            _ => ViewType::All,
        }
    }
}

impl From<u8> for MediaType {
    fn from(value: u8) -> (r: MediaType) {
        MediaType::from_u8(value)
    }
}

impl vstd::std_specs::convert::FromSpecImpl<u8> for MediaType {
    open spec fn obeys_from_spec() -> bool {
        true
    }

    open spec fn from_spec(v: u8) -> MediaType {
        media_type_of(v)
    }
}

impl From<u8> for SortType {
    fn from(value: u8) -> (r: SortType) {
        SortType::from_u8(value)
    }
}

impl vstd::std_specs::convert::FromSpecImpl<u8> for SortType {
    open spec fn obeys_from_spec() -> bool {
        true
    }

    open spec fn from_spec(v: u8) -> SortType {
        sort_type_of(v)
    }
}

impl From<u8> for SourceType {
    fn from(value: u8) -> (r: SourceType) {
        SourceType::from_u8(value)
    }
}

impl vstd::std_specs::convert::FromSpecImpl<u8> for SourceType {
    open spec fn obeys_from_spec() -> bool {
        true
    }

    open spec fn from_spec(v: u8) -> SourceType {
        source_type_of(v)
    }
}

impl From<u8> for ViewType {
    fn from(value: u8) -> (r: ViewType) {
        ViewType::from_u8(value)
    }
}

impl vstd::std_specs::convert::FromSpecImpl<u8> for ViewType {
    open spec fn obeys_from_spec() -> bool {
        true
    }

    open spec fn from_spec(v: u8) -> ViewType {
        view_type_of(v)
    }
}

} // verus!
