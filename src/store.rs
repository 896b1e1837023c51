//! The catalog store: sources, channels, groups, seasons and transport
//! headers, with insert-or-update primitives keyed by each table's natural
//! identity, the destructive wipe of a source, and the snapshot and restore of
//! user state around it.
use vstd::prelude::*;
use crate::types::{copy_text, Channel, ChannelHttpHeaders, ChannelView, Group, GroupView, HeadersView, Season, SeasonView, Source, SourceView};

verus! {

#[derive(Debug, Clone, Copy, PartialEq, Eq, Structural)]
pub enum StoreError {
    /// No row has the id that was asked for.
    NotFound,
    /// Every row id has been handed out.
    Full,
}

/// The index of the first element at or after `i` that satisfies `p`, or the length.
pub open spec fn first_from<T>(s: Seq<T>, p: spec_fn(T) -> bool, i: int) -> int
    decreases s.len() + 1 - i,
{
    if i < 0 || i >= s.len() {
        s.len() as int
    } else if p(s[i]) {
        i
    } else {
        first_from(s, p, i + 1)
    }
}

/// The index of the first element that satisfies `p`, or the length.
pub open spec fn first_index<T>(s: Seq<T>, p: spec_fn(T) -> bool) -> int {
    first_from(s, p, 0)
}

pub proof fn lemma_first_from<T>(s: Seq<T>, p: spec_fn(T) -> bool, i: int)
    requires
        0 <= i <= s.len(),
    ensures
        i <= first_from(s, p, i) <= s.len(),
        first_from(s, p, i) < s.len() ==> p(s[first_from(s, p, i)]),
        forall|k: int| i <= k < first_from(s, p, i) ==> !p(#[trigger] s[k]),
    decreases s.len() - i,
{
    if i < s.len() && !p(s[i]) {
        lemma_first_from(s, p, i + 1);
    }
}

pub proof fn lemma_first_index<T>(s: Seq<T>, p: spec_fn(T) -> bool)
    ensures
        0 <= first_index(s, p) <= s.len(),
        first_index(s, p) < s.len() ==> p(s[first_index(s, p)]),
        forall|k: int| 0 <= k < first_index(s, p) ==> !p(#[trigger] s[k]),
{
    lemma_first_from(s, p, 0);
}

pub proof fn lemma_filter_take_step<T>(s: Seq<T>, p: spec_fn(T) -> bool, i: int)
    requires
        0 <= i < s.len(),
    ensures
        s.take(i + 1).filter(p) == (if p(s[i]) {
            s.take(i).filter(p).push(s[i])
        } else {
            s.take(i).filter(p)
        }),
{
    reveal(Seq::filter);
    assert(s.take(i + 1).drop_last() =~= s.take(i));
}

pub struct CatalogView {
    pub sources: Seq<SourceView>,
    pub channels: Seq<ChannelView>,
    pub groups: Seq<GroupView>,
    pub seasons: Seq<SeasonView>,
    pub headers: Seq<HeadersView>,
    pub next_id: i64,
}

/// The whole catalog, held in memory. Row ids come from `next_id`, which only grows.
pub struct Catalog {
    pub sources: Vec<Source>,
    pub channels: Vec<Channel>,
    pub groups: Vec<Group>,
    pub seasons: Vec<Season>,
    pub headers: Vec<ChannelHttpHeaders>,
    pub next_id: i64,
}

pub open spec fn source_views(v: Seq<Source>) -> Seq<SourceView> {
    v.map_values(|s: Source| s@)
}

pub open spec fn channel_views(v: Seq<Channel>) -> Seq<ChannelView> {
    v.map_values(|c: Channel| c@)
}

pub open spec fn group_views(v: Seq<Group>) -> Seq<GroupView> {
    v.map_values(|g: Group| g@)
}

pub open spec fn season_views(v: Seq<Season>) -> Seq<SeasonView> {
    v.map_values(|s: Season| s@)
}

pub open spec fn text_views(v: Seq<String>) -> Seq<Seq<char>> {
    v.map_values(|n: String| n@)
}

pub open spec fn header_views(v: Seq<ChannelHttpHeaders>) -> Seq<HeadersView> {
    v.map_values(|h: ChannelHttpHeaders| h@)
}

impl View for Catalog {
    type V = CatalogView;

    open spec fn view(&self) -> CatalogView {
        CatalogView {
            sources: source_views(self.sources@),
            channels: channel_views(self.channels@),
            groups: group_views(self.groups@),
            seasons: season_views(self.seasons@),
            headers: header_views(self.headers@),
            next_id: self.next_id,
        }
    }
}

/// Every stored source and channel has an id, and every id is below `next_id`.
pub open spec fn catalog_wf(c: CatalogView) -> bool {
    &&& c.next_id >= 1
    &&& forall|i: int|
        0 <= i < c.sources.len() ==> (#[trigger] c.sources[i]).id is Some && c.sources[i].id->0
            < c.next_id
    &&& forall|i: int|
        0 <= i < c.channels.len() ==> (#[trigger] c.channels[i]).id is Some
            && c.channels[i].id->0 < c.next_id
    &&& forall|i: int| 0 <= i < c.groups.len() ==> (#[trigger] c.groups[i]).id < c.next_id
    &&& forall|i: int| 0 <= i < c.seasons.len() ==> (#[trigger] c.seasons[i]).id < c.next_id
}

pub open spec fn source_named(name: Seq<char>) -> spec_fn(SourceView) -> bool {
    |s: SourceView| s.name == name
}

pub open spec fn source_with_id(id: i64) -> spec_fn(SourceView) -> bool {
    |s: SourceView| s.id == Some(id)
}

/// Two channels share the natural key (name, source, url, series, season).
pub open spec fn same_channel_key(a: ChannelView, b: ChannelView) -> bool {
    a.name == b.name && a.source_id == b.source_id && a.url == b.url && a.series_id
        == b.series_id && a.season_id == b.season_id
}

pub open spec fn channel_keyed(ch: ChannelView) -> spec_fn(ChannelView) -> bool {
    |c: ChannelView| same_channel_key(c, ch)
}

pub open spec fn group_keyed(name: Seq<char>, source_id: i64) -> spec_fn(GroupView) -> bool {
    |g: GroupView| g.name == name && g.source_id == source_id
}

pub open spec fn season_keyed(s: SeasonView) -> spec_fn(SeasonView) -> bool {
    |t: SeasonView|
        t.series_id == s.series_id && t.season_number == s.season_number && t.source_id
            == s.source_id
}

/// A stored channel after a re-ingested copy of it: only the mutable projection
/// moves; favorite, hidden, last-watched, group and id stay.
pub open spec fn merged_channel(old: ChannelView, new: ChannelView) -> ChannelView {
    ChannelView {
        url: new.url,
        media_type: new.media_type,
        stream_id: new.stream_id,
        image: new.image,
        series_id: new.series_id,
        tv_archive: new.tv_archive,
        season_id: new.season_id,
        ..old
    }
}

/// Find-by-name, else create: the catalog after it and the id it yields.
pub open spec fn source_upserted(c: CatalogView, src: SourceView) -> (CatalogView, Result<
    i64,
    StoreError,
>) {
    let k = first_index(c.sources, source_named(src.name));
    if k < c.sources.len() {
        (c, Ok(c.sources[k].id->0))
    } else if c.next_id == i64::MAX {
        (c, Err(StoreError::Full))
    } else {
        (
            CatalogView {
                sources: c.sources.push(
                    SourceView { id: Some(c.next_id), enabled: true, ..src },
                ),
                next_id: (c.next_id + 1) as i64,
                ..c
            },
            Ok(c.next_id),
        )
    }
}

/// Insert a channel, or on a natural-key match update the stored row's mutable projection.
pub open spec fn channel_upserted(c: CatalogView, ch: ChannelView) -> (CatalogView, Result<
    i64,
    StoreError,
>) {
    let k = first_index(c.channels, channel_keyed(ch));
    if k < c.channels.len() {
        (
            CatalogView {
                channels: c.channels.update(k, merged_channel(c.channels[k], ch)),
                ..c
            },
            Ok(c.channels[k].id->0),
        )
    } else if c.next_id == i64::MAX {
        (c, Err(StoreError::Full))
    } else {
        (
            CatalogView {
                channels: c.channels.push(ChannelView { id: Some(c.next_id), ..ch }),
                next_id: (c.next_id + 1) as i64,
                ..c
            },
            Ok(c.next_id),
        )
    }
}

/// The group with this name in this source, created when absent. A group keeps a
/// media-kind hint only while every channel resolved to it has that kind.
pub open spec fn group_upserted(
    c: CatalogView,
    name: Seq<char>,
    image: Option<Seq<char>>,
    source_id: i64,
    media_type: u8,
) -> (CatalogView, Result<i64, StoreError>) {
    let k = first_index(c.groups, group_keyed(name, source_id));
    if k < c.groups.len() {
        let g = c.groups[k];
        let hint = if g.media_type == Some(media_type) {
            g.media_type
        } else {
            None
        };
        (
            CatalogView { groups: c.groups.update(k, GroupView { media_type: hint, ..g }), ..c },
            Ok(g.id),
        )
    } else if c.next_id == i64::MAX {
        (c, Err(StoreError::Full))
    } else {
        (
            CatalogView {
                groups: c.groups.push(
                    GroupView {
                        id: c.next_id,
                        name,
                        image,
                        source_id,
                        media_type: Some(media_type),
                        hidden: false,
                    },
                ),
                next_id: (c.next_id + 1) as i64,
                ..c
            },
            Ok(c.next_id),
        )
    }
}

impl Catalog {
    /// An empty catalog.
    pub fn new() -> (r: Catalog)
        ensures
            r@.sources.len() == 0,
            r@.channels.len() == 0,
            r@.groups.len() == 0,
            r@.seasons.len() == 0,
            r@.headers.len() == 0,
            r@.next_id == 1,
            catalog_wf(r@),
    {
        Catalog {
            sources: Vec::new(),
            channels: Vec::new(),
            groups: Vec::new(),
            seasons: Vec::new(),
            headers: Vec::new(),
            next_id: 1,
        }
    }

    pub fn find_source_by_name(&self, name: &String) -> (r: usize)
        ensures
            r as int == first_index(self@.sources, source_named(name@)),
    {
        let mut i: usize = 0;
        while i < self.sources.len()
            invariant
                i <= self.sources.len(),
                first_index(self@.sources, source_named(name@)) == first_from(
                    self@.sources,
                    source_named(name@),
                    i as int,
                ),
            decreases self.sources.len() - i,
        {
            if self.sources[i].name == *name {
                return i;
            }
            i += 1;
        }
        i
    }

    pub fn find_source_by_id(&self, id: i64) -> (r: usize)
        ensures
            r as int == first_index(self@.sources, source_with_id(id)),
    {
        let mut i: usize = 0;
        while i < self.sources.len()
            invariant
                i <= self.sources.len(),
                first_index(self@.sources, source_with_id(id)) == first_from(
                    self@.sources,
                    source_with_id(id),
                    i as int,
                ),
            decreases self.sources.len() - i,
        {
            if self.sources[i].id == Some(id) {
                return i;
            }
            i += 1;
        }
        i
    }

    /// The id of the source with this name, creating the source when there is none.
    pub fn create_or_find_source_by_name(&mut self, source: &Source) -> (r: Result<
        i64,
        StoreError,
    >)
        requires
            catalog_wf(old(self)@),
        ensures
            (final(self)@, r) == source_upserted(old(self)@, source@),
            catalog_wf(final(self)@),
    {
        let k = self.find_source_by_name(&source.name);
        proof {
            lemma_first_index(self@.sources, source_named(source.name@));
        }
        if k < self.sources.len() {
            return Ok(self.sources[k].id.unwrap());
        }
        if self.next_id == i64::MAX {
            return Err(StoreError::Full);
        }
        let id = self.next_id;
        let mut row = source.duplicate();
        row.id = Some(id);
        row.enabled = true;
        let ghost before = self@;
        self.sources.push(row);
        self.next_id = id + 1;
        assert(self@.sources =~= before.sources.push(SourceView { id: Some(id), enabled: true, ..source@ }));
        Ok(id)
    }

    pub fn find_channel(&self, ch: &Channel) -> (r: usize)
        ensures
            r as int == first_index(self@.channels, channel_keyed(ch@)),
    {
        let mut i: usize = 0;
        while i < self.channels.len()
            invariant
                i <= self.channels.len(),
                first_index(self@.channels, channel_keyed(ch@)) == first_from(
                    self@.channels,
                    channel_keyed(ch@),
                    i as int,
                ),
            decreases self.channels.len() - i,
        {
            let c = &self.channels[i];
            if c.name == ch.name && c.source_id == ch.source_id && eq_text(&c.url, &ch.url)
                && c.series_id == ch.series_id && c.season_id == ch.season_id {
                return i;
            }
            i += 1;
        }
        i
    }

    /// Insert the channel; where one with the same natural key is stored, update
    /// only its mutable projection. Yields the id of the row.
    pub fn insert_channel(&mut self, channel: &Channel) -> (r: Result<i64, StoreError>)
        requires
            catalog_wf(old(self)@),
        ensures
            (final(self)@, r) == channel_upserted(old(self)@, channel@),
            catalog_wf(final(self)@),
    {
        let k = self.find_channel(channel);
        proof {
            lemma_first_index(self@.channels, channel_keyed(channel@));
        }
        let ghost before = self@;
        if k < self.channels.len() {
            let mut row = self.channels[k].duplicate();
            row.url = copy_text(&channel.url);
            row.media_type = channel.media_type;
            row.stream_id = channel.stream_id;
            row.image = copy_text(&channel.image);
            row.series_id = channel.series_id;
            row.tv_archive = channel.tv_archive;
            row.season_id = channel.season_id;
            let id = row.id.unwrap();
            self.channels.set(k, row);
            assert(self@.channels =~= before.channels.update(
                k as int,
                merged_channel(before.channels[k as int], channel@),
            ));
            return Ok(id);
        }
        if self.next_id == i64::MAX {
            return Err(StoreError::Full);
        }
        let id = self.next_id;
        let mut row = channel.duplicate();
        row.id = Some(id);
        self.channels.push(row);
        self.next_id = id + 1;
        assert(self@.channels =~= before.channels.push(ChannelView { id: Some(id), ..channel@ }));
        Ok(id)
    }

    pub fn find_group(&self, name: &String, source_id: i64) -> (r: usize)
        ensures
            r as int == first_index(self@.groups, group_keyed(name@, source_id)),
    {
        let mut i: usize = 0;
        while i < self.groups.len()
            invariant
                i <= self.groups.len(),
                first_index(self@.groups, group_keyed(name@, source_id)) == first_from(
                    self@.groups,
                    group_keyed(name@, source_id),
                    i as int,
                ),
            decreases self.groups.len() - i,
        {
            if self.groups[i].name == *name && self.groups[i].source_id == source_id {
                return i;
            }
            i += 1;
        }
        i
    }

    /// The id of the group with this name in this source, creating it when absent.
    pub fn get_or_insert_group(
        &mut self,
        name: &String,
        image: &Option<String>,
        source_id: i64,
        media_type: u8,
    ) -> (r: Result<i64, StoreError>)
        requires
            catalog_wf(old(self)@),
        ensures
            (final(self)@, r) == group_upserted(
                old(self)@,
                name@,
                image.deep_view(),
                source_id,
                media_type,
            ),
            catalog_wf(final(self)@),
    {
        let i = self.find_group(name, source_id);
        proof {
            lemma_first_index(self@.groups, group_keyed(name@, source_id));
        }
        let ghost before = self@;
        if i < self.groups.len() {
            let mut g = self.groups[i].duplicate();
            if g.media_type != Some(media_type) {
                g.media_type = None;
            }
            let id = g.id;
            self.groups.set(i, g);
            assert(self@.groups =~= before.groups.update(
                i as int,
                GroupView {
                    media_type: if before.groups[i as int].media_type == Some(media_type) {
                        before.groups[i as int].media_type
                    } else {
                        None
                    },
                    ..before.groups[i as int]
                },
            ));
            return Ok(id);
        }
        if self.next_id == i64::MAX {
            return Err(StoreError::Full);
        }
        let id = self.next_id;
        let g = Group {
            id,
            name: name.clone(),
            image: copy_text(image),
            source_id,
            media_type: Some(media_type),
            hidden: false,
        };
        self.groups.push(g);
        self.next_id = id + 1;
        assert(self@.groups =~= before.groups.push(
            GroupView {
                id,
                name: name@,
                image: image.deep_view(),
                source_id,
                media_type: Some(media_type),
                hidden: false,
            },
        ));
        Ok(id)
    }
}

/// Whether two optional strings hold the same characters.
pub fn eq_text(a: &Option<String>, b: &Option<String>) -> (r: bool)
    ensures
        r == (a.deep_view() == b.deep_view()),
{
    match (a, b) {
        (Some(x), Some(y)) => *x == *y,
        (None, None) => true,
        _ => false,
    }
}


pub open spec fn channel_not_of(source_id: i64) -> spec_fn(ChannelView) -> bool {
    |c: ChannelView| c.source_id != Some(source_id)
}

pub open spec fn group_not_of(source_id: i64) -> spec_fn(GroupView) -> bool {
    |g: GroupView| g.source_id != source_id
}

pub open spec fn season_not_of(source_id: i64) -> spec_fn(SeasonView) -> bool {
    |t: SeasonView| t.source_id != source_id
}

pub open spec fn source_not_id(id: i64) -> spec_fn(SourceView) -> bool {
    |s: SourceView| s.id != Some(id)
}

pub open spec fn channel_of(source_id: i64) -> spec_fn(ChannelView) -> bool {
    |c: ChannelView| c.source_id == Some(source_id)
}

pub open spec fn channel_ids(s: Seq<ChannelView>) -> Seq<Option<i64>> {
    s.map_values(|c: ChannelView| c.id)
}

pub open spec fn header_outside(ids: Seq<Option<i64>>) -> spec_fn(HeadersView) -> bool {
    |h: HeadersView| !ids.contains(h.channel_id)
}

/// The catalog without the seasons, channels and groups of one source, nor
/// the transport headers of those channels.
pub open spec fn wiped(c: CatalogView, source_id: i64) -> CatalogView {
    CatalogView {
        seasons: c.seasons.filter(season_not_of(source_id)),
        channels: c.channels.filter(channel_not_of(source_id)),
        groups: c.groups.filter(group_not_of(source_id)),
        headers: c.headers.filter(
            header_outside(channel_ids(c.channels.filter(channel_of(source_id)))),
        ),
        ..c
    }
}

fn contains_id(v: &Vec<Option<i64>>, x: Option<i64>) -> (r: bool)
    ensures
        r == v@.contains(x),
{
    let mut i: usize = 0;
    while i < v.len()
        invariant
            i <= v.len(),
            forall|k: int| 0 <= k < i ==> v@[k] != x,
        decreases v.len() - i,
    {
        if v[i] == x {
            return true;
        }
        i += 1;
    }
    false
}

/// Deleting a source takes its rows with it, and fails, changing nothing, when
/// no source has that id.
pub open spec fn source_deleted(c: CatalogView, id: i64) -> (CatalogView, Result<(), StoreError>) {
    if first_index(c.sources, source_with_id(id)) == c.sources.len() {
        (c, Err(StoreError::NotFound))
    } else {
        (CatalogView { sources: c.sources.filter(source_not_id(id)), ..wiped(c, id) }, Ok(()))
    }
}

/// The user state of one channel that a destructive refresh must keep.
#[derive(Clone, Debug)]
pub struct ChannelPreserve {
    pub name: String,
    pub favorite: bool,
    pub last_watched: Option<i64>,
    pub hidden: bool,
}

pub struct ChannelPreserveView {
    pub name: Seq<char>,
    pub favorite: bool,
    pub last_watched: Option<i64>,
    pub hidden: bool,
}

impl View for ChannelPreserve {
    type V = ChannelPreserveView;

    open spec fn view(&self) -> ChannelPreserveView {
        ChannelPreserveView {
            name: self.name@,
            favorite: self.favorite,
            last_watched: self.last_watched,
            hidden: self.hidden,
        }
    }
}

/// The user state of one source, taken before its rows are wiped.
#[derive(Clone, Debug)]
pub struct Preserve {
    pub channels: Vec<ChannelPreserve>,
    pub hidden_groups: Vec<String>,
}

pub open spec fn preserve_views(v: Seq<ChannelPreserve>) -> Seq<ChannelPreserveView> {
    v.map_values(|p: ChannelPreserve| p@)
}

/// A channel of the source, not an episode, that carries user state.
pub open spec fn preservable(source_id: i64) -> spec_fn(ChannelView) -> bool {
    |c: ChannelView|
        c.source_id == Some(source_id) && c.series_id is None && (c.favorite
            || c.last_watched is Some || c.hidden)
}

pub open spec fn preserve_of(c: ChannelView) -> ChannelPreserveView {
    ChannelPreserveView {
        name: c.name,
        favorite: c.favorite,
        last_watched: c.last_watched,
        hidden: c.hidden,
    }
}

pub open spec fn preserved_channels(s: Seq<ChannelView>, source_id: i64) -> Seq<
    ChannelPreserveView,
> {
    s.filter(preservable(source_id)).map_values(|c: ChannelView| preserve_of(c))
}

pub open spec fn hidden_group_of(source_id: i64) -> spec_fn(GroupView) -> bool {
    |g: GroupView| g.source_id == source_id && g.hidden
}

pub open spec fn hidden_group_names(s: Seq<GroupView>, source_id: i64) -> Seq<Seq<char>> {
    s.filter(hidden_group_of(source_id)).map_values(|g: GroupView| g.name)
}

pub open spec fn preserve_named(name: Seq<char>) -> spec_fn(ChannelPreserveView) -> bool {
    |p: ChannelPreserveView| p.name == name
}

/// A channel after the restore: where it belongs to the source and the snapshot
/// names it, the first such entry's user state is put back.
pub open spec fn restored_channel(
    c: ChannelView,
    source_id: i64,
    p: Seq<ChannelPreserveView>,
) -> ChannelView {
    let k = first_index(p, preserve_named(c.name));
    if c.source_id == Some(source_id) && k < p.len() {
        ChannelView {
            favorite: p[k].favorite,
            last_watched: p[k].last_watched,
            hidden: p[k].hidden,
            ..c
        }
    } else {
        c
    }
}

pub open spec fn restored_group(g: GroupView, source_id: i64, names: Seq<Seq<char>>) -> GroupView {
    if g.source_id == source_id && names.contains(g.name) {
        GroupView { hidden: true, ..g }
    } else {
        g
    }
}

/// `after` is `before` with the snapshot put back onto the source's rows; no row
/// is added or removed.
pub open spec fn restored(
    before: CatalogView,
    after: CatalogView,
    source_id: i64,
    p: Seq<ChannelPreserveView>,
    names: Seq<Seq<char>>,
) -> bool {
    &&& after.channels.len() == before.channels.len()
    &&& forall|k: int|
        0 <= k < before.channels.len() ==> #[trigger] after.channels[k] == restored_channel(
            before.channels[k],
            source_id,
            p,
        )
    &&& after.groups.len() == before.groups.len()
    &&& forall|k: int|
        0 <= k < before.groups.len() ==> #[trigger] after.groups[k] == restored_group(
            before.groups[k],
            source_id,
            names,
        )
    &&& after.sources == before.sources
    &&& after.seasons == before.seasons
    &&& after.headers == before.headers
    &&& after.next_id == before.next_id
}

impl Catalog {
    /// Delete all seasons, then channels, then groups of a source.
    pub fn wipe(&mut self, source_id: i64)
        requires
            catalog_wf(old(self)@),
        ensures
            final(self)@ == wiped(old(self)@, source_id),
            catalog_wf(final(self)@),
    {
        let ghost c0 = self@;
        let mut seasons: Vec<Season> = Vec::new();
        let mut i: usize = 0;
        while i < self.seasons.len()
            invariant
                self@ == c0,
                catalog_wf(c0),
                i <= self.seasons.len(),
                season_views(seasons@) == c0.seasons.take(i as int).filter(
                    season_not_of(source_id),
                ),
                forall|k: int| 0 <= k < seasons@.len() ==> (#[trigger] seasons@[k]).id < c0.next_id,
            decreases self.seasons.len() - i,
        {
            proof {
                lemma_filter_take_step(c0.seasons, season_not_of(source_id), i as int);
            }
            if self.seasons[i].source_id != source_id {
                let ghost prev = seasons@;
                assert(c0.seasons[i as int] == self.seasons@[i as int]@);
                seasons.push(self.seasons[i].duplicate());
                assert(season_views(seasons@) =~= season_views(prev).push(c0.seasons[i as int]));
            }
            i += 1;
        }
        let mut channels: Vec<Channel> = Vec::new();
        let mut removed: Vec<Option<i64>> = Vec::new();
        let mut i: usize = 0;
        assert(c0.channels.take(0).filter(channel_of(source_id)) =~= Seq::<ChannelView>::empty())
            by {
            reveal(Seq::filter);
        }
        while i < self.channels.len()
            invariant
                self@ == c0,
                catalog_wf(c0),
                i <= self.channels.len(),
                removed@ == channel_ids(c0.channels.take(i as int).filter(channel_of(source_id))),
                channel_views(channels@) == c0.channels.take(i as int).filter(
                    channel_not_of(source_id),
                ),
                forall|k: int|
                    0 <= k < channels@.len() ==> (#[trigger] channels@[k]).id is Some
                        && channels@[k].id->0 < c0.next_id,
            decreases self.channels.len() - i,
        {
            proof {
                lemma_filter_take_step(c0.channels, channel_not_of(source_id), i as int);
                lemma_filter_take_step(c0.channels, channel_of(source_id), i as int);
            }
            if self.channels[i].source_id == Some(source_id) {
                let ghost prev = removed@;
                assert(c0.channels[i as int] == self.channels@[i as int]@);
                removed.push(self.channels[i].id);
                assert(removed@ =~= channel_ids(
                    c0.channels.take(i as int).filter(channel_of(source_id)).push(
                        c0.channels[i as int],
                    ),
                ));
            }
            if self.channels[i].source_id != Some(source_id) {
                let ghost prev = channels@;
                assert(c0.channels[i as int] == self.channels@[i as int]@);
                channels.push(self.channels[i].duplicate());
                assert(channel_views(channels@) =~= channel_views(prev).push(
                    c0.channels[i as int],
                ));
            }
            i += 1;
        }
        let mut groups: Vec<Group> = Vec::new();
        let mut i: usize = 0;
        while i < self.groups.len()
            invariant
                self@ == c0,
                catalog_wf(c0),
                i <= self.groups.len(),
                group_views(groups@) == c0.groups.take(i as int).filter(group_not_of(source_id)),
                forall|k: int| 0 <= k < groups@.len() ==> (#[trigger] groups@[k]).id < c0.next_id,
            decreases self.groups.len() - i,
        {
            proof {
                lemma_filter_take_step(c0.groups, group_not_of(source_id), i as int);
            }
            if self.groups[i].source_id != source_id {
                let ghost prev = groups@;
                assert(c0.groups[i as int] == self.groups@[i as int]@);
                groups.push(self.groups[i].duplicate());
                assert(group_views(groups@) =~= group_views(prev).push(c0.groups[i as int]));
            }
            i += 1;
        }
        assert(c0.seasons.take(c0.seasons.len() as int) =~= c0.seasons);
        assert(c0.channels.take(c0.channels.len() as int) =~= c0.channels);
        assert(c0.groups.take(c0.groups.len() as int) =~= c0.groups);
        let ghost hp = header_outside(channel_ids(c0.channels.filter(channel_of(source_id))));
        assert(c0.channels.take(c0.channels.len() as int) =~= c0.channels);
        let mut headers: Vec<ChannelHttpHeaders> = Vec::new();
        let mut i: usize = 0;
        assert(c0.headers.take(0).filter(hp) =~= Seq::<HeadersView>::empty()) by {
            reveal(Seq::filter);
        }
        assert(header_views(headers@) =~= Seq::<HeadersView>::empty());
        while i < self.headers.len()
            invariant
                self@ == c0,
                i <= self.headers.len(),
                hp == header_outside(channel_ids(c0.channels.filter(channel_of(source_id)))),
                removed@ == channel_ids(c0.channels.filter(channel_of(source_id))),
                header_views(headers@) == c0.headers.take(i as int).filter(hp),
            decreases self.headers.len() - i,
        {
            proof {
                lemma_filter_take_step(c0.headers, hp, i as int);
            }
            assert(c0.headers[i as int] == self.headers@[i as int]@);
            if !contains_id(&removed, self.headers[i].channel_id) {
                let ghost prev = headers@;
                headers.push(self.headers[i].duplicate());
                assert(header_views(headers@) =~= header_views(prev).push(c0.headers[i as int]));
            }
            i += 1;
        }
        assert(c0.headers.take(c0.headers.len() as int) =~= c0.headers);
        self.headers = headers;
        self.seasons = seasons;
        self.channels = channels;
        self.groups = groups;
        assert(self@ =~= wiped(c0, source_id));
    }


    /// The user state of a source that a destructive refresh must keep: its
    /// non-episode channels that are favorite, watched or hidden, and its hidden groups.
    pub fn snapshot(&self, source_id: i64) -> (r: Preserve)
        ensures
            preserve_views(r.channels@) == preserved_channels(self@.channels, source_id),
            text_views(r.hidden_groups@) == hidden_group_names(
                self@.groups,
                source_id,
            ),
    {
        let mut out: Vec<ChannelPreserve> = Vec::new();
        let mut i: usize = 0;
        while i < self.channels.len()
            invariant
                i <= self.channels.len(),
                preserve_views(out@) == preserved_channels(
                    self@.channels.take(i as int),
                    source_id,
                ),
            decreases self.channels.len() - i,
        {
            proof {
                lemma_filter_take_step(self@.channels, preservable(source_id), i as int);
            }
            let c = &self.channels[i];
            if c.source_id == Some(source_id) && c.series_id.is_none() && (c.favorite
                || c.last_watched.is_some() || c.hidden) {
                let ghost prev = out@;
                out.push(
                    ChannelPreserve {
                        name: c.name.clone(),
                        favorite: c.favorite,
                        last_watched: c.last_watched,
                        hidden: c.hidden,
                    },
                );
                assert(preserve_views(out@) =~= preserve_views(prev).push(
                    preserve_of(self@.channels[i as int]),
                ));
                assert(self@.channels.take(i as int).filter(preservable(source_id)).push(
                    self@.channels[i as int],
                ).map_values(|c: ChannelView| preserve_of(c)) =~= self@.channels.take(
                    i as int,
                ).filter(preservable(source_id)).map_values(|c: ChannelView| preserve_of(c)).push(
                    preserve_of(self@.channels[i as int]),
                ));
            }
            i += 1;
        }
        let mut names: Vec<String> = Vec::new();
        let mut i: usize = 0;
        while i < self.groups.len()
            invariant
                i <= self.groups.len(),
                text_views(names@) == hidden_group_names(
                    self@.groups.take(i as int),
                    source_id,
                ),
            decreases self.groups.len() - i,
        {
            proof {
                lemma_filter_take_step(self@.groups, hidden_group_of(source_id), i as int);
            }
            if self.groups[i].source_id == source_id && self.groups[i].hidden {
                let ghost prev = names@;
                names.push(self.groups[i].name.clone());
                assert(text_views(names@) =~= text_views(prev).push(
                    self@.groups[i as int].name,
                ));
                assert(self@.groups.take(i as int).filter(hidden_group_of(source_id)).push(
                    self@.groups[i as int],
                ).map_values(|g: GroupView| g.name) =~= self@.groups.take(i as int).filter(
                    hidden_group_of(source_id),
                ).map_values(|g: GroupView| g.name).push(self@.groups[i as int].name));
            }
            i += 1;
        }
        assert(self@.channels.take(self@.channels.len() as int) =~= self@.channels);
        assert(self@.groups.take(self@.groups.len() as int) =~= self@.groups);
        Preserve { channels: out, hidden_groups: names }
    }
}


pub open spec fn headers_for(channel_id: Option<i64>) -> spec_fn(HeadersView) -> bool {
    |h: HeadersView| h.channel_id == channel_id
}

pub open spec fn headers_not_for(channel_id: Option<i64>) -> spec_fn(HeadersView) -> bool {
    |h: HeadersView| h.channel_id != channel_id
}

/// The catalog without the transport headers of a channel.
pub open spec fn headers_removed(c: CatalogView, channel_id: Option<i64>) -> CatalogView {
    CatalogView { headers: c.headers.filter(headers_not_for(channel_id)), ..c }
}

/// New transport headers for a channel replace any it had, so exactly one row
/// holds them.
pub open spec fn headers_inserted(c: CatalogView, h: HeadersView) -> (CatalogView, Result<
    (),
    StoreError,
>) {
    if c.next_id == i64::MAX {
        (c, Err(StoreError::Full))
    } else {
        (
            CatalogView {
                headers: c.headers.filter(headers_not_for(h.channel_id)).push(
                    HeadersView { id: Some(c.next_id), ..h },
                ),
                next_id: (c.next_id + 1) as i64,
                ..c
            },
            Ok(()),
        )
    }
}

/// A season keyed by (series, season number, source): created, or its name and
/// image replaced by the latest ones.
pub open spec fn season_upserted(c: CatalogView, t: SeasonView) -> (CatalogView, Result<
    i64,
    StoreError,
>) {
    let k = first_index(c.seasons, season_keyed(t));
    if k < c.seasons.len() {
        (
            CatalogView {
                seasons: c.seasons.update(
                    k,
                    SeasonView { name: t.name, image: t.image, ..c.seasons[k] },
                ),
                ..c
            },
            Ok(c.seasons[k].id),
        )
    } else if c.next_id == i64::MAX {
        (c, Err(StoreError::Full))
    } else {
        (
            CatalogView {
                seasons: c.seasons.push(SeasonView { id: c.next_id, ..t }),
                next_id: (c.next_id + 1) as i64,
                ..c
            },
            Ok(c.next_id),
        )
    }
}

/// A channel with a group label gets the id of that group in the source,
/// created when absent; one without a label is left as it is.
pub open spec fn group_resolved(c: CatalogView, ch: ChannelView, source_id: i64) -> (
    CatalogView,
    ChannelView,
    Result<(), StoreError>,
) {
    match ch.group {
        None => (c, ch, Ok(())),
        Some(name) => {
            let (c2, r) = group_upserted(c, name, ch.image, source_id, ch.media_type);
            match r {
                Ok(id) => (c2, ChannelView { group_id: Some(id), ..ch }, Ok(())),
                Err(e) => (c2, ch, Err(e)),
            }
        },
    }
}

/// A change of user state on channels.
#[derive(Debug, Clone, Copy, PartialEq, Eq, Structural)]
pub enum StateEdit {
    Favorite(bool),
    Hidden(bool),
    Watched(Option<i64>),
}

/// A channel after an edit aimed at `target` (every channel where `target` is `None`).
pub open spec fn edited(c: ChannelView, target: Option<i64>, e: StateEdit) -> ChannelView {
    if target is None || c.id == target {
        match e {
            StateEdit::Favorite(f) => ChannelView { favorite: f, ..c },
            StateEdit::Hidden(h) => ChannelView { hidden: h, ..c },
            StateEdit::Watched(w) => ChannelView { last_watched: w, ..c },
        }
    } else {
        c
    }
}

/// `after` is `before` with the edit applied to the channels it aims at, and nothing else changed.
pub open spec fn channels_edited(
    before: CatalogView,
    after: CatalogView,
    target: Option<i64>,
    e: StateEdit,
) -> bool {
    &&& after.channels.len() == before.channels.len()
    &&& forall|k: int|
        0 <= k < before.channels.len() ==> #[trigger] after.channels[k] == edited(
            before.channels[k],
            target,
            e,
        )
    &&& after.sources == before.sources
    &&& after.groups == before.groups
    &&& after.seasons == before.seasons
    &&& after.headers == before.headers
    &&& after.next_id == before.next_id
}

/// `after` is `before` with each source whose id is `id` replaced by `f` of it.
pub open spec fn sources_edited(
    before: CatalogView,
    after: CatalogView,
    id: i64,
    f: spec_fn(SourceView) -> SourceView,
) -> bool {
    &&& after.sources.len() == before.sources.len()
    &&& forall|k: int|
        0 <= k < before.sources.len() ==> #[trigger] after.sources[k] == if before.sources[k].id
            == Some(id) {
            f(before.sources[k])
        } else {
            before.sources[k]
        }
    &&& after.channels == before.channels
    &&& after.groups == before.groups
    &&& after.seasons == before.seasons
    &&& after.headers == before.headers
    &&& after.next_id == before.next_id
}

/// A change to a source row.
pub enum SourceEdit {
    Enabled(bool),
    Credentials { username: Option<String>, password: Option<String>, url: Option<String> },
    LastUpdated(i64),
}

pub open spec fn source_edit(e: SourceEdit) -> spec_fn(SourceView) -> SourceView {
    match e {
        SourceEdit::Enabled(v) => enabled_set(v),
        SourceEdit::Credentials { username, password, url } => |s: SourceView|
            SourceView {
                username: username.deep_view(),
                password: password.deep_view(),
                url: url.deep_view(),
                ..s
            },
        SourceEdit::LastUpdated(t) => last_updated_set(t),
    }
}

pub open spec fn enabled_set(value: bool) -> spec_fn(SourceView) -> SourceView {
    |s: SourceView| SourceView { enabled: value, ..s }
}

pub open spec fn credentials_set(src: SourceView) -> spec_fn(SourceView) -> SourceView {
    |s: SourceView| SourceView { username: src.username, password: src.password, url: src.url, ..s }
}

pub open spec fn last_updated_set(t: i64) -> spec_fn(SourceView) -> SourceView {
    |s: SourceView| SourceView { last_updated: Some(t), ..s }
}

pub open spec fn is_enabled() -> spec_fn(SourceView) -> bool {
    |s: SourceView| s.enabled
}

pub open spec fn episode_of(series_id: u64, source_id: i64) -> spec_fn(ChannelView) -> bool {
    |c: ChannelView| c.series_id == Some(series_id) && c.source_id == Some(source_id)
}

/// Whether `names` holds a string with the characters of `s`.
pub fn contains_text(names: &Vec<String>, s: &String) -> (r: bool)
    ensures
        r == text_views(names@).contains(s@),
{
    let mut i: usize = 0;
    while i < names.len()
        invariant
            i <= names.len(),
            forall|k: int| 0 <= k < i ==> names@[k]@ != s@,
        decreases names.len() - i,
    {
        if names[i] == *s {
            assert(text_views(names@)[i as int] == s@);
            return true;
        }
        i += 1;
    }
    assert forall|k: int| 0 <= k < text_views(names@).len() implies text_views(names@)[k] != s@ by {
        assert(text_views(names@)[k] == names@[k]@);
    }
    false
}

pub fn find_preserve(p: &Vec<ChannelPreserve>, name: &String) -> (r: usize)
    ensures
        r as int == first_index(preserve_views(p@), preserve_named(name@)),
{
    let mut i: usize = 0;
    while i < p.len()
        invariant
            i <= p.len(),
            first_index(preserve_views(p@), preserve_named(name@)) == first_from(
                preserve_views(p@),
                preserve_named(name@),
                i as int,
            ),
        decreases p.len() - i,
    {
        if p[i].name == *name {
            return i;
        }
        i += 1;
    }
    i
}

impl Catalog {
    /// Put a snapshot back onto the rows of a source, matching channels by name
    /// within the source and groups by name; entries that match nothing are dropped.
    pub fn restore(&mut self, source_id: i64, p: &Preserve)
        requires
            catalog_wf(old(self)@),
        ensures
            restored(
                old(self)@,
                final(self)@,
                source_id,
                preserve_views(p.channels@),
                text_views(p.hidden_groups@),
            ),
            catalog_wf(final(self)@),
    {
        let ghost c0 = self@;
        let ghost pv = preserve_views(p.channels@);
        let mut i: usize = 0;
        while i < self.channels.len()
            invariant
                i <= self.channels.len(),
                catalog_wf(c0),
                self@.channels.len() == c0.channels.len(),
                forall|k: int|
                    0 <= k < i ==> #[trigger] self@.channels[k] == restored_channel(
                        c0.channels[k],
                        source_id,
                        pv,
                    ),
                forall|k: int| i <= k < c0.channels.len() ==> #[trigger] self@.channels[k] == c0.channels[k],
                self@ == (CatalogView { channels: self@.channels, ..c0 }),
                pv == preserve_views(p.channels@),
            decreases self.channels.len() - i,
        {
            let ghost before = self@;
            let j = find_preserve(&p.channels, &self.channels[i].name);
            proof {
                lemma_first_index(pv, preserve_named(c0.channels[i as int].name));
                assert(before.channels[i as int] == c0.channels[i as int]);
            }
            if self.channels[i].source_id == Some(source_id) && j < p.channels.len() {
                let mut row = self.channels[i].duplicate();
                row.favorite = p.channels[j].favorite;
                row.last_watched = p.channels[j].last_watched;
                row.hidden = p.channels[j].hidden;
                assert(pv[j as int] == p.channels@[j as int]@);
                self.channels.set(i, row);
                assert(self@.channels =~= before.channels.update(
                    i as int,
                    restored_channel(c0.channels[i as int], source_id, pv),
                ));
            }
            i += 1;
        }
        let ghost c1 = self@;
        let mut i: usize = 0;
        while i < self.groups.len()
            invariant
                i <= self.groups.len(),
                catalog_wf(c1),
                self@.groups.len() == c1.groups.len(),
                forall|k: int|
                    0 <= k < i ==> #[trigger] self@.groups[k] == restored_group(
                        c1.groups[k],
                        source_id,
                        text_views(p.hidden_groups@),
                    ),
                forall|k: int| i <= k < c1.groups.len() ==> #[trigger] self@.groups[k] == c1.groups[k],
                self@ == (CatalogView { groups: self@.groups, ..c1 }),
            decreases self.groups.len() - i,
        {
            let ghost before = self@;
            assert(before.groups[i as int] == c1.groups[i as int]);
            assert(before.groups[i as int] == self.groups@[i as int]@);
            if self.groups[i].source_id == source_id && contains_text(
                &p.hidden_groups,
                &self.groups[i].name,
            ) {
                let mut g = self.groups[i].duplicate();
                g.hidden = true;
                self.groups.set(i, g);
                assert(self@.groups =~= before.groups.update(
                    i as int,
                    restored_group(c1.groups[i as int], source_id, text_views(p.hidden_groups@)),
                ));
            }
            i += 1;
        }
    }


    /// The id of the season with this key, created or updated with the given name and image.
    pub fn upsert_season(&mut self, season: &Season) -> (r: Result<i64, StoreError>)
        requires
            catalog_wf(old(self)@),
        ensures
            (final(self)@, r) == season_upserted(old(self)@, season@),
            catalog_wf(final(self)@),
    {
        let mut i: usize = 0;
        while i < self.seasons.len()
            invariant
                i <= self.seasons.len(),
                catalog_wf(self@),
                self@ == old(self)@,
                first_index(self@.seasons, season_keyed(season@)) == first_from(
                    self@.seasons,
                    season_keyed(season@),
                    i as int,
                ),
            decreases self.seasons.len() - i,
        {
            if self.seasons[i].series_id == season.series_id && self.seasons[i].season_number
                == season.season_number && self.seasons[i].source_id == season.source_id {
                let ghost before = self@;
                let mut t = self.seasons[i].duplicate();
                t.name = season.name.clone();
                t.image = copy_text(&season.image);
                let id = t.id;
                self.seasons.set(i, t);
                assert(self@.seasons =~= before.seasons.update(
                    i as int,
                    SeasonView {
                        name: season@.name,
                        image: season@.image,
                        ..before.seasons[i as int]
                    },
                ));
                return Ok(id);
            }
            i += 1;
        }
        if self.next_id == i64::MAX {
            return Err(StoreError::Full);
        }
        let ghost before = self@;
        let id = self.next_id;
        let mut row = season.duplicate();
        row.id = id;
        self.seasons.push(row);
        self.next_id = id + 1;
        assert(self@.seasons =~= before.seasons.push(SeasonView { id, ..season@ }));
        Ok(id)
    }

    /// Resolve the channel's group label to a group id of the source.
    pub fn set_channel_group_id(&mut self, channel: &mut Channel, source_id: i64) -> (r: Result<
        (),
        StoreError,
    >)
        requires
            catalog_wf(old(self)@),
        ensures
            (final(self)@, final(channel)@, r) == group_resolved(
                old(self)@,
                old(channel)@,
                source_id,
            ),
            catalog_wf(final(self)@),
    {
        match &channel.group {
            None => Ok(()),
            Some(name) => {
                let name = name.clone();
                let r = self.get_or_insert_group(
                    &name,
                    &channel.image,
                    source_id,
                    channel.media_type,
                );
                match r {
                    Ok(id) => {
                        channel.group_id = Some(id);
                        Ok(())
                    },
                    Err(e) => Err(e),
                }
            },
        }
    }

    /// Apply a change of user state to the channel with id `target`, or to every
    /// channel where `target` is `None`.
    pub fn edit_channels(&mut self, target: Option<i64>, e: StateEdit)
        requires
            catalog_wf(old(self)@),
        ensures
            channels_edited(old(self)@, final(self)@, target, e),
            catalog_wf(final(self)@),
    {
        let ghost c0 = self@;
        let mut i: usize = 0;
        while i < self.channels.len()
            invariant
                i <= self.channels.len(),
                catalog_wf(c0),
                self@.channels.len() == c0.channels.len(),
                forall|k: int|
                    0 <= k < i ==> #[trigger] self@.channels[k] == edited(c0.channels[k], target, e),
                forall|k: int| i <= k < c0.channels.len() ==> #[trigger] self@.channels[k] == c0.channels[k],
                self@ == (CatalogView { channels: self@.channels, ..c0 }),
            decreases self.channels.len() - i,
        {
            let ghost before = self@;
            assert(before.channels[i as int] == c0.channels[i as int]);
            if target.is_none() || self.channels[i].id == target {
                let mut row = self.channels[i].duplicate();
                match e {
                    StateEdit::Favorite(f) => {
                        row.favorite = f;
                    },
                    StateEdit::Hidden(h) => {
                        row.hidden = h;
                    },
                    StateEdit::Watched(w) => {
                        row.last_watched = w;
                    },
                }
                self.channels.set(i, row);
                assert(self@.channels =~= before.channels.update(
                    i as int,
                    edited(c0.channels[i as int], target, e),
                ));
            }
            i += 1;
        }
    }


    /// Hide or show a channel.
    pub fn hide_channel(&mut self, channel_id: i64, hidden: bool)
        requires
            catalog_wf(old(self)@),
        ensures
            channels_edited(old(self)@, final(self)@, Some(channel_id), StateEdit::Hidden(hidden)),
            catalog_wf(final(self)@),
    {
        self.edit_channels(Some(channel_id), StateEdit::Hidden(hidden));
    }







    /// The source with this id, if any.
    pub fn get_source_from_id(&self, id: i64) -> (r: Option<Source>)
        ensures
            r is Some <==> first_index(self@.sources, source_with_id(id)) < self@.sources.len(),
            r is Some ==> r->0@ == self@.sources[first_index(self@.sources, source_with_id(id))],
    {
        let k = self.find_source_by_id(id);
        if k < self.sources.len() {
            let d = self.sources[k].duplicate();
            assert(d@ == self@.sources[k as int]);
            Some(d)
        } else {
            None
        }
    }

    /// Whether episodes of this series are stored for this source.
    pub fn series_has_episodes(&self, series_id: u64, source_id: i64) -> (r: bool)
        ensures
            r == (first_index(self@.channels, episode_of(series_id, source_id))
                < self@.channels.len()),
    {
        let mut i: usize = 0;
        while i < self.channels.len()
            invariant
                i <= self.channels.len(),
                first_index(self@.channels, episode_of(series_id, source_id)) == first_from(
                    self@.channels,
                    episode_of(series_id, source_id),
                    i as int,
                ),
            decreases self.channels.len() - i,
        {
            if self.channels[i].series_id == Some(series_id) && self.channels[i].source_id
                == Some(source_id) {
                return true;
            }
            i += 1;
        }
        false
    }

    /// Apply an edit to the sources with this id.
    fn edit_sources(&mut self, id: i64, e: &SourceEdit)
        requires
            catalog_wf(old(self)@),
        ensures
            sources_edited(old(self)@, final(self)@, id, source_edit(*e)),
            catalog_wf(final(self)@),
    {
        let ghost c0 = self@;
        let ghost f = source_edit(*e);
        let mut i: usize = 0;
        while i < self.sources.len()
            invariant
                i <= self.sources.len(),
                catalog_wf(c0),
                f == source_edit(*e),
                self@.sources.len() == c0.sources.len(),
                forall|k: int|
                    0 <= k < i ==> #[trigger] self@.sources[k] == if c0.sources[k].id == Some(id) {
                        f(c0.sources[k])
                    } else {
                        c0.sources[k]
                    },
                forall|k: int| i <= k < c0.sources.len() ==> #[trigger] self@.sources[k] == c0.sources[k],
                self@ == (CatalogView { sources: self@.sources, ..c0 }),
            decreases self.sources.len() - i,
        {
            let ghost before = self@;
            assert(before.sources[i as int] == c0.sources[i as int]);
            if self.sources[i].id == Some(id) {
                let mut row = self.sources[i].duplicate();
                match e {
                    SourceEdit::Enabled(v) => {
                        row.enabled = *v;
                    },
                    SourceEdit::Credentials { username, password, url } => {
                        row.username = copy_text(username);
                        row.password = copy_text(password);
                        row.url = copy_text(url);
                    },
                    SourceEdit::LastUpdated(t) => {
                        row.last_updated = Some(*t);
                    },
                }
                self.sources.set(i, row);
                assert(self@.sources =~= before.sources.update(i as int, f(c0.sources[i as int])));
            }
            i += 1;
        }
    }

    /// Record when a source was last refreshed.
    pub fn set_last_updated(&mut self, source_id: i64, now: i64)
        requires
            catalog_wf(old(self)@),
        ensures
            sources_edited(old(self)@, final(self)@, source_id, last_updated_set(now)),
            catalog_wf(final(self)@),
    {
        self.edit_sources(source_id, &SourceEdit::LastUpdated(now));
    }
}

/// Every element that a filter keeps comes from the sequence.
pub proof fn lemma_filter_from<T>(s: Seq<T>, p: spec_fn(T) -> bool, i: int)
    requires
        0 <= i < s.filter(p).len(),
    ensures
        s.contains(s.filter(p)[i]),
    decreases s.len(),
{
    reveal(Seq::filter);
    if s.len() > 0 {
        let rest = s.drop_last().filter(p);
        if i < rest.len() {
            lemma_filter_from(s.drop_last(), p, i);
            let j = choose|j: int| 0 <= j < s.drop_last().len() && s.drop_last()[j] == rest[i];
            assert(s[j] == s.filter(p)[i]);
        } else {
            assert(s.filter(p)[i] == s[s.len() - 1]);
        }
    }
}

/// The first index satisfying `p` is `k` when `p` holds at `k` and nowhere before.
pub proof fn lemma_first_index_at<T>(s: Seq<T>, p: spec_fn(T) -> bool, k: int)
    requires
        0 <= k < s.len(),
        p(s[k]),
        forall|j: int| 0 <= j < k ==> !p(#[trigger] s[j]),
    ensures
        first_index(s, p) == k,
{
    lemma_first_index(s, p);
    if first_index(s, p) < k {
        assert(!p(s[first_index(s, p)]));
    }
}

/// Upserting two channels with the same natural key, one after the other,
/// leaves one row for the key: the second upsert finds the row that the first
/// stored, takes its mutable projection from the second channel, and keeps the
/// favorite, hidden and last-watched state that the row had.
pub proof fn lemma_upsert_same_key_twice(c: CatalogView, a: ChannelView, b: ChannelView)
    requires
        same_channel_key(a, b),
        channel_upserted(c, a).1 is Ok,
    ensures
        ({
            let (c1, r1) = channel_upserted(c, a);
            let (c2, r2) = channel_upserted(c1, b);
            let k = first_index(c1.channels, channel_keyed(b));
            &&& r2 == r1
            &&& 0 <= k < c1.channels.len()
            &&& c2.channels.len() == c1.channels.len()
            &&& c2.channels[k] == merged_channel(c1.channels[k], b)
            &&& c2.channels[k].favorite == c1.channels[k].favorite
            &&& c2.channels[k].hidden == c1.channels[k].hidden
            &&& c2.channels[k].last_watched == c1.channels[k].last_watched
            &&& forall|j: int| 0 <= j < c1.channels.len() && j != k ==> c2.channels[j] == c1.channels[j]
        }),
{
    let pa = channel_keyed(a);
    let pb = channel_keyed(b);
    assert(pa =~= pb);
    let (c1, r1) = channel_upserted(c, a);
    let k0 = first_index(c.channels, pa);
    lemma_first_index(c.channels, pa);
    if k0 < c.channels.len() {
        assert(c1.channels[k0] == merged_channel(c.channels[k0], a));
        assert forall|j: int| 0 <= j < k0 implies !pb(#[trigger] c1.channels[j]) by {
            assert(c1.channels[j] == c.channels[j]);
        }
        lemma_first_index_at(c1.channels, pb, k0);
    } else {
        let n = c.channels.len() as int;
        assert forall|j: int| 0 <= j < n implies !pb(#[trigger] c1.channels[j]) by {
            assert(c1.channels[j] == c.channels[j]);
        }
        lemma_first_index_at(c1.channels, pb, n);
    }
}

/// Resolving a group label that the source already has yields that group's id
/// and adds no row; only the group's media-kind hint may change.
pub proof fn lemma_group_found(
    c: CatalogView,
    name: Seq<char>,
    image: Option<Seq<char>>,
    source_id: i64,
    kind: u8,
)
    requires
        first_index(c.groups, group_keyed(name, source_id)) < c.groups.len(),
    ensures
        ({
            let k = first_index(c.groups, group_keyed(name, source_id));
            let (c1, r) = group_upserted(c, name, image, source_id, kind);
            &&& r == Ok::<i64, StoreError>(c.groups[k].id)
            &&& c1.groups.len() == c.groups.len()
            &&& c1.groups[k].id == c.groups[k].id
            &&& c1.groups[k].name == c.groups[k].name
            &&& c1.groups[k].source_id == c.groups[k].source_id
            &&& forall|j: int| 0 <= j < c.groups.len() && j != k ==> c1.groups[j] == c.groups[j]
        }),
{
    lemma_first_index(c.groups, group_keyed(name, source_id));
}

/// Resolving a group label that the source does not have yet creates exactly
/// one group row with that label, and resolving it again yields the same id
/// without another row.
pub proof fn lemma_group_created_once(
    c: CatalogView,
    name: Seq<char>,
    image1: Option<Seq<char>>,
    image2: Option<Seq<char>>,
    source_id: i64,
    kind1: u8,
    kind2: u8,
)
    requires
        forall|j: int|
            0 <= j < c.groups.len() ==> !(#[trigger] group_keyed(name, source_id)(c.groups[j])),
        c.next_id < i64::MAX,
    ensures
        ({
            let (c1, r1) = group_upserted(c, name, image1, source_id, kind1);
            let (c2, r2) = group_upserted(c1, name, image2, source_id, kind2);
            &&& r1 == Ok::<i64, StoreError>(c.next_id)
            &&& r2 == r1
            &&& c1.groups.len() == c.groups.len() + 1
            &&& c2.groups.len() == c1.groups.len()
            &&& forall|j: int|
                0 <= j < c2.groups.len() ==> (#[trigger] group_keyed(name, source_id)(
                    c2.groups[j],
                ) <==> j == c.groups.len())
        }),
{
    let p = group_keyed(name, source_id);
    lemma_first_index(c.groups, p);
    if first_index(c.groups, p) < c.groups.len() {
        assert(!p(c.groups[first_index(c.groups, p)]));
    }
    let (c1, r1) = group_upserted(c, name, image1, source_id, kind1);
    let n = c.groups.len() as int;
    assert forall|j: int| 0 <= j < n implies !p(#[trigger] c1.groups[j]) by {
        assert(c1.groups[j] == c.groups[j]);
    }
    lemma_first_index_at(c1.groups, p, n);
    let (c2, r2) = group_upserted(c1, name, image2, source_id, kind2);
    assert forall|j: int| 0 <= j < c2.groups.len() implies (#[trigger] p(c2.groups[j]) <==> j
        == n) by {
        if j < n {
            assert(c2.groups[j] == c.groups[j]);
        }
    }
}

/// A refresh keeps favorites: where a channel of the re-ingested rows has the
/// name of a channel that was favorite before the wipe (and every preserved
/// channel of that name was favorite), it is favorite after the restore. The
/// restore adds no row, so a favorite whose name is gone upstream does not
/// come back.
pub proof fn lemma_restore_keeps_favorites(
    before: CatalogView,
    mid: CatalogView,
    after: CatalogView,
    source_id: i64,
    i: int,
)
    requires
        restored(
            mid,
            after,
            source_id,
            preserved_channels(before.channels, source_id),
            hidden_group_names(before.groups, source_id),
        ),
        0 <= i < mid.channels.len(),
        mid.channels[i].source_id == Some(source_id),
        exists|j: int|
            0 <= j < before.channels.len() && #[trigger] preservable(source_id)(before.channels[j])
                && before.channels[j].favorite && before.channels[j].name == mid.channels[i].name,
        forall|j: int|
            0 <= j < before.channels.len() && #[trigger] preservable(source_id)(before.channels[j])
                && before.channels[j].name == mid.channels[i].name ==> before.channels[j].favorite,
    ensures
        after.channels[i].favorite,
        after.channels.len() == mid.channels.len(),
        forall|m: int|
            0 <= m < after.channels.len() ==> #[trigger] after.channels[m].name
                == mid.channels[m].name,
{
    let pred = preservable(source_id);
    let f = before.channels.filter(pred);
    let pv = preserved_channels(before.channels, source_id);
    let name = mid.channels[i].name;
    let pn = preserve_named(name);
    before.channels.filter_lemma(pred);
    let j = choose|j: int|
        0 <= j < before.channels.len() && #[trigger] preservable(source_id)(before.channels[j])
            && before.channels[j].favorite && before.channels[j].name == mid.channels[i].name;
    assert(f.contains(before.channels[j]));
    let m = choose|m: int| 0 <= m < f.len() && f[m] == before.channels[j];
    assert(pv[m] == preserve_of(f[m]));
    lemma_first_index(pv, pn);
    if first_index(pv, pn) == pv.len() {
        assert(!pn(pv[m]));
    }
    let k = first_index(pv, pn);
    assert(pv.len() == f.len());
    assert(k < pv.len());
    assert(pv[k] == preserve_of(f[k]));
    lemma_filter_kept(before.channels, pred, k);
    let jj = choose|jj: int| 0 <= jj < before.channels.len() && before.channels[jj] == f[k];
    assert(pred(before.channels[jj]));
    assert(after.channels[i] == restored_channel(mid.channels[i], source_id, pv));
    assert forall|m: int| 0 <= m < after.channels.len() implies #[trigger] after.channels[m].name
        == mid.channels[m].name by {
        assert(after.channels[m] == restored_channel(mid.channels[m], source_id, pv));
    }
}

proof fn lemma_filter_kept(s: Seq<ChannelView>, p: spec_fn(ChannelView) -> bool, k: int)
    requires
        0 <= k < s.filter(p).len(),
    ensures
        p(s.filter(p)[k]),
        s.contains(s.filter(p)[k]),
{
    s.lemma_filter_pred(p, k);
    lemma_filter_from(s, p, k);
}

/// Deleting a source id that no source has fails with `NotFound` and leaves
/// the catalog as it was.
pub proof fn lemma_delete_missing_source(c: CatalogView, id: i64)
    requires
        forall|i: int| 0 <= i < c.sources.len() ==> (#[trigger] c.sources[i]).id != Some(id),
    ensures
        source_deleted(c, id) == (c, Err::<(), StoreError>(StoreError::NotFound)),
{
    lemma_first_index(c.sources, source_with_id(id));
    if first_index(c.sources, source_with_id(id)) < c.sources.len() {
        assert(c.sources[first_index(c.sources, source_with_id(id))].id == Some(id));
    }
}

/// Delete a source with its channels, groups and seasons; `NotFound` when no
/// source has that id, and then nothing is deleted.
pub fn delete_source(catalog: &mut Catalog, id: i64) -> (r: Result<(), StoreError>)
    requires
        catalog_wf(old(catalog)@),
    ensures
        (final(catalog)@, r) == source_deleted(old(catalog)@, id),
        catalog_wf(final(catalog)@),
{
    let k = catalog.find_source_by_id(id);
    if k == catalog.sources.len() {
        return Err(StoreError::NotFound);
    }
    catalog.wipe(id);
    let ghost c1 = catalog@;
    let mut sources: Vec<Source> = Vec::new();
    let mut i: usize = 0;
    while i < catalog.sources.len()
        invariant
            catalog@ == c1,
            catalog_wf(c1),
            i <= catalog.sources.len(),
            source_views(sources@) == c1.sources.take(i as int).filter(source_not_id(id)),
            forall|k: int|
                0 <= k < sources@.len() ==> (#[trigger] sources@[k]).id is Some
                    && sources@[k].id->0 < c1.next_id,
        decreases catalog.sources.len() - i,
    {
        proof {
            lemma_filter_take_step(c1.sources, source_not_id(id), i as int);
        }
        if catalog.sources[i].id != Some(id) {
            let ghost prev = sources@;
            sources.push(catalog.sources[i].duplicate());
            assert(source_views(sources@) =~= source_views(prev).push(c1.sources[i as int]));
        }
        i += 1;
    }
    assert(c1.sources.take(c1.sources.len() as int) =~= c1.sources);
    catalog.sources = sources;
    assert(catalog@ =~= CatalogView { sources: c1.sources.filter(source_not_id(id)), ..c1 });
    Ok(())
}

/// Mark or unmark a channel as favorite.
pub fn favorite_channel(catalog: &mut Catalog, channel_id: i64, favorite: bool)
    requires
        catalog_wf(old(catalog)@),
    ensures
        channels_edited(old(catalog)@, final(catalog)@, Some(channel_id), StateEdit::Favorite(favorite)),
        catalog_wf(final(catalog)@),
{
    catalog.edit_channels(Some(channel_id), StateEdit::Favorite(favorite));
}

/// Record that a channel was watched at time `now`.
pub fn add_last_watched(catalog: &mut Catalog, channel_id: i64, now: i64)
    requires
        catalog_wf(old(catalog)@),
    ensures
        channels_edited(old(catalog)@, final(catalog)@, Some(channel_id), StateEdit::Watched(Some(now))),
        catalog_wf(final(catalog)@),
{
    catalog.edit_channels(Some(channel_id), StateEdit::Watched(Some(now)));
}

/// Forget every watch time.
pub fn clear_history(catalog: &mut Catalog)
    requires
        catalog_wf(old(catalog)@),
    ensures
        channels_edited(old(catalog)@, final(catalog)@, None, StateEdit::Watched(None)),
        catalog_wf(final(catalog)@),
{
    catalog.edit_channels(None, StateEdit::Watched(None));
}

/// Every source, in stored order.
pub fn get_sources(catalog: &Catalog) -> (r: Vec<Source>)
    ensures
        source_views(r@) == catalog@.sources,
{
    let mut out: Vec<Source> = Vec::new();
    let mut i: usize = 0;
    while i < catalog.sources.len()
        invariant
            i <= catalog.sources.len(),
            source_views(out@) == catalog@.sources.take(i as int),
        decreases catalog.sources.len() - i,
    {
        let ghost prev = out@;
        out.push(catalog.sources[i].duplicate());
        assert(source_views(out@) =~= source_views(prev).push(catalog@.sources[i as int]));
        assert(catalog@.sources.take(i + 1) =~= catalog@.sources.take(i as int).push(
            catalog@.sources[i as int],
        ));
        i += 1;
    }
    assert(catalog@.sources.take(catalog@.sources.len() as int) =~= catalog@.sources);
    out
}

/// The enabled sources, in stored order.
pub fn get_enabled_sources(catalog: &Catalog) -> (r: Vec<Source>)
    ensures
        source_views(r@) == catalog@.sources.filter(is_enabled()),
{
    let mut out: Vec<Source> = Vec::new();
    let mut i: usize = 0;
    while i < catalog.sources.len()
        invariant
            i <= catalog.sources.len(),
            source_views(out@) == catalog@.sources.take(i as int).filter(is_enabled()),
        decreases catalog.sources.len() - i,
    {
        proof {
            lemma_filter_take_step(catalog@.sources, is_enabled(), i as int);
        }
        if catalog.sources[i].enabled {
            let ghost prev = out@;
            out.push(catalog.sources[i].duplicate());
            assert(source_views(out@) =~= source_views(prev).push(catalog@.sources[i as int]));
        }
        i += 1;
    }
    assert(catalog@.sources.take(catalog@.sources.len() as int) =~= catalog@.sources);
    out
}

pub fn has_sources(catalog: &Catalog) -> (r: bool)
    ensures
        r == (catalog@.sources.len() > 0),
{
    catalog.sources.len() > 0
}

pub fn source_name_exists(catalog: &Catalog, name: &String) -> (r: bool)
    ensures
        r == (first_index(catalog@.sources, source_named(name@)) < catalog@.sources.len()),
{
    catalog.find_source_by_name(name) < catalog.sources.len()
}

/// Enable or disable a source.
pub fn set_source_enabled(catalog: &mut Catalog, value: bool, source_id: i64)
    requires
        catalog_wf(old(catalog)@),
    ensures
        sources_edited(old(catalog)@, final(catalog)@, source_id, enabled_set(value)),
        catalog_wf(final(catalog)@),
{
    catalog.edit_sources(source_id, &SourceEdit::Enabled(value));
}

/// Replace the credentials and url of the source with the id that `source` carries.
pub fn update_source(catalog: &mut Catalog, source: &Source) -> (r: Result<(), StoreError>)
    requires
        catalog_wf(old(catalog)@),
    ensures
        source.id is None ==> r == Err::<(), StoreError>(StoreError::NotFound) && final(catalog)@
            == old(catalog)@,
        source.id is Some ==> r is Ok && sources_edited(
            old(catalog)@,
            final(catalog)@,
            source.id->0,
            credentials_set(source@),
        ),
        catalog_wf(final(catalog)@),
{
    match source.id {
        None => Err(StoreError::NotFound),
        Some(id) => {
            let e = SourceEdit::Credentials {
                username: copy_text(&source.username),
                password: copy_text(&source.password),
                url: copy_text(&source.url),
            };
            assert(source_edit(e) =~= credentials_set(source@));
            catalog.edit_sources(id, &e);
            Ok(())
        },
    }
}

/// Remove the transport headers of a channel.
pub fn remove_channel_headers(catalog: &mut Catalog, channel_id: Option<i64>)
    requires
        catalog_wf(old(catalog)@),
    ensures
        final(catalog)@ == headers_removed(old(catalog)@, channel_id),
        catalog_wf(final(catalog)@),
{
    let ghost c0 = catalog@;
    let ghost p = headers_not_for(channel_id);
    let mut kept: Vec<ChannelHttpHeaders> = Vec::new();
    let mut i: usize = 0;
    assert(c0.headers.take(0).filter(p) =~= Seq::<HeadersView>::empty()) by {
        reveal(Seq::filter);
    }
    assert(header_views(kept@) =~= Seq::<HeadersView>::empty());
    while i < catalog.headers.len()
        invariant
            catalog@ == c0,
            p == headers_not_for(channel_id),
            i <= catalog.headers.len(),
            header_views(kept@) == c0.headers.take(i as int).filter(p),
        decreases catalog.headers.len() - i,
    {
        proof {
            lemma_filter_take_step(c0.headers, p, i as int);
        }
        assert(c0.headers[i as int] == catalog.headers@[i as int]@);
        if catalog.headers[i].channel_id != channel_id {
            let ghost prev = kept@;
            kept.push(catalog.headers[i].duplicate());
            assert(header_views(kept@) =~= header_views(prev).push(c0.headers[i as int]));
        }
        i += 1;
    }
    assert(c0.headers.take(c0.headers.len() as int) =~= c0.headers);
    catalog.headers = kept;
    assert(catalog@ =~= headers_removed(c0, channel_id));
}

/// Store transport headers for a channel, replacing any it had.
pub fn insert_channel_headers(catalog: &mut Catalog, headers: &ChannelHttpHeaders) -> (r: Result<
    (),
    StoreError,
>)
    requires
        catalog_wf(old(catalog)@),
    ensures
        (final(catalog)@, r) == headers_inserted(old(catalog)@, headers@),
        catalog_wf(final(catalog)@),
{
    if catalog.next_id == i64::MAX {
        return Err(StoreError::Full);
    }
    remove_channel_headers(catalog, headers.channel_id);
    let ghost before = catalog@;
    let id = catalog.next_id;
    let mut row = headers.duplicate();
    row.id = Some(id);
    catalog.headers.push(row);
    catalog.next_id = id + 1;
    assert(catalog@.headers =~= before.headers.push(HeadersView { id: Some(id), ..headers@ }));
    Ok(())
}


/// The transport headers stored for a channel, if any.
pub fn get_channel_headers_by_id(catalog: &Catalog, id: i64) -> (r: Option<ChannelHttpHeaders>)
    ensures
        r is Some <==> first_index(catalog@.headers, headers_for(Some(id))) < catalog@.headers.len(),
        r is Some ==> r->0@ == catalog@.headers[first_index(catalog@.headers, headers_for(Some(id)))],
{
    let mut i: usize = 0;
    while i < catalog.headers.len()
        invariant
            i <= catalog.headers.len(),
            first_index(catalog@.headers, headers_for(Some(id))) == first_from(
                catalog@.headers,
                headers_for(Some(id)),
                i as int,
            ),
        decreases catalog.headers.len() - i,
    {
        if catalog.headers[i].channel_id == Some(id) {
            let h = catalog.headers[i].duplicate();
            assert(h@ == catalog@.headers[i as int]);
            return Some(h);
        }
        i += 1;
    }
    None
}


/// After new transport headers for a channel are stored, exactly one row
/// holds headers for that channel: the new one. After they are removed, none does.
pub proof fn lemma_headers_single(c: CatalogView, h: HeadersView)
    requires
        c.next_id < i64::MAX,
    ensures
        ({
            let c1 = headers_inserted(c, h).0;
            &&& c1.headers.len() >= 1
            &&& c1.headers[c1.headers.len() - 1] == (HeadersView { id: Some(c.next_id), ..h })
            &&& forall|j: int|
                0 <= j < c1.headers.len() ==> (#[trigger] c1.headers[j].channel_id == h.channel_id
                    <==> j == c1.headers.len() - 1)
        }),
        forall|j: int|
            0 <= j < headers_removed(c, h.channel_id).headers.len() ==> #[trigger] headers_removed(
                c,
                h.channel_id,
            ).headers[j].channel_id != h.channel_id,
{
    let f = c.headers.filter(headers_not_for(h.channel_id));
    assert forall|j: int| 0 <= j < f.len() implies #[trigger] f[j].channel_id != h.channel_id by {
        c.headers.lemma_filter_pred(headers_not_for(h.channel_id), j);
    }
}


/// Find-or-create keeps source names unique: where at most one source had the
/// name, exactly one has it afterwards, and its id is the one returned.
pub proof fn lemma_source_name_unique(c: CatalogView, src: SourceView)
    requires
        forall|a: int, b: int|
            0 <= a < b < c.sources.len() ==> !((#[trigger] c.sources[a]).name == src.name
                && (#[trigger] c.sources[b]).name == src.name),
        source_upserted(c, src).1 is Ok,
    ensures
        ({
            let (c1, r) = source_upserted(c, src);
            exists|k: int|
                0 <= k < c1.sources.len() && (#[trigger] c1.sources[k]).name == src.name
                    && r == Ok::<i64, StoreError>(c1.sources[k].id->0) && forall|m: int|
                    0 <= m < c1.sources.len() && (#[trigger] c1.sources[m]).name == src.name
                        ==> m == k
        }),
{
    let p = source_named(src.name);
    lemma_first_index(c.sources, p);
    let k = first_index(c.sources, p);
    let (c1, r) = source_upserted(c, src);
    if k < c.sources.len() {
        assert(p(c.sources[k]));
        assert forall|m: int| 0 <= m < c1.sources.len() && (#[trigger] c1.sources[m]).name
            == src.name implies m == k by {
            if m < k {
                assert(!p(c.sources[m]));
            } else if m > k {
                assert(!(c.sources[k].name == src.name && c.sources[m].name == src.name));
            }
        }
    } else {
        let n = c.sources.len() as int;
        assert(c1.sources[n].name == src.name);
        assert forall|m: int| 0 <= m < c1.sources.len() && (#[trigger] c1.sources[m]).name
            == src.name implies m == n by {
            if m < n {
                assert(!p(c.sources[m]));
            }
        }
    }
}

} // verus!
