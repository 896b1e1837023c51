//! The search over the catalog: four query shapes chosen from the filters,
//! keyword matching, ordering, and one page of results.
use vstd::prelude::*;
use crate::kinds::{
    ALPHABETICAL_DESC, CATEGORIES, FAVORITES, GROUP, HIDDEN, HISTORY, MOVIE, PROVIDER, SEASON,
};
use crate::store::{
    channel_views, first_from, first_index, lemma_first_index, Catalog,
    CatalogView,
};
use crate::text::{chars_of, contains_ci, contains_ci_chars, is_whitespace, is_ws};
use crate::types::{copy_text, Channel, ChannelView, Filters, Group, GroupView, Season, SeasonView};

verus! {

/// Rows per page.
pub const PAGE_SIZE: u8 = 36;

/// The index of the first whitespace character at or after `j`, or the length.
pub open spec fn word_end(q: Seq<char>, j: int) -> int
    decreases q.len() - j,
{
    if j < 0 || j >= q.len() {
        q.len() as int
    } else if is_ws(q[j]) {
        j
    } else {
        word_end(q, j + 1)
    }
}

pub fn word_end_chars(q: &Vec<char>, j: usize) -> (r: usize)
    requires
        j <= q.len(),
    ensures
        r as int == word_end(q@, j as int),
        j <= r <= q.len(),
{
    let mut k: usize = j;
    while k < q.len() && !is_whitespace(q[k])
        invariant
            j <= k <= q.len(),
            word_end(q@, j as int) == word_end(q@, k as int),
        decreases q.len() - k,
    {
        k += 1;
    }
    k
}

/// Every keyword of `q` from index `start` on (the runs between whitespace
/// characters) occurs in `name`, ignoring ASCII case.
pub open spec fn keywords_from(name: Seq<char>, q: Seq<char>, start: int) -> bool
    decreases q.len() + 1 - start,
{
    if start < 0 || start > q.len() {
        true
    } else {
        let e = word_end(q, start);
        contains_ci(name, q.subrange(start, e)) && (start <= e < q.len() ==> keywords_from(
            name,
            q,
            e + 1,
        ))
    }
}

/// The keyword test: each keyword must occur in keyword mode, else the whole query.
pub open spec fn keyword_match(name: Seq<char>, q: Seq<char>, use_keywords: bool) -> bool {
    if use_keywords {
        keywords_from(name, q, 0)
    } else {
        contains_ci(name, q)
    }
}

fn sub_chars(s: &Vec<char>, a: usize, b: usize) -> (r: Vec<char>)
    requires
        a <= b <= s.len(),
    ensures
        r@ == s@.subrange(a as int, b as int),
{
    let mut out: Vec<char> = Vec::new();
    let mut k: usize = a;
    while k < b
        invariant
            a <= k <= b <= s.len(),
            out@ == s@.subrange(a as int, k as int),
        decreases b - k,
    {
        out.push(s[k]);
        k += 1;
    }
    out
}

/// Whether `name` passes the keyword test of the query.
pub fn matches_keywords(name: &Vec<char>, q: &Vec<char>, use_keywords: bool) -> (r: bool)
    ensures
        r == keyword_match(name@, q@, use_keywords),
{
    if !use_keywords {
        return contains_ci_chars(name, q);
    }
    let mut start: usize = 0;
    loop
        invariant
            use_keywords,
            start <= q.len(),
            keywords_from(name@, q@, 0) == keywords_from(name@, q@, start as int),
        decreases q.len() - start,
    {
        let e = word_end_chars(q, start);
        let token = sub_chars(q, start, e);
        assert(keywords_from(name@, q@, start as int) == (contains_ci(name@, token@) && (e
            < q.len() ==> keywords_from(name@, q@, e + 1))));
        if !contains_ci_chars(name, &token) {
            return false;
        }
        if e >= q.len() {
            return true;
        }
        start = e + 1;
    }
}

/// The filters as plain values; an absent query is the empty one.
pub struct FiltersView {
    pub query: Seq<char>,
    pub source_ids: Seq<i64>,
    pub media_types: Option<Seq<u8>>,
    pub view_type: u8,
    pub page: u8,
    pub series_id: Option<i64>,
    pub group_id: Option<i64>,
    pub season_id: Option<i64>,
    pub use_keywords: bool,
    pub sort: u8,
}

pub open spec fn filters_view(f: &Filters) -> FiltersView {
    FiltersView {
        query: match f.query {
            Some(q) => q@,
            None => Seq::empty(),
        },
        source_ids: f.source_ids@,
        media_types: match f.media_types {
            Some(m) => Some(m@),
            None => None,
        },
        view_type: f.view_type,
        page: f.page,
        series_id: f.series_id,
        group_id: f.group_id,
        season_id: f.season_id,
        use_keywords: f.use_keywords,
        sort: f.sort,
    }
}

/// The media kinds a leaf query admits: only movies (episodes) inside a series.
pub open spec fn kind_allowed(f: FiltersView, kind: u8) -> bool {
    if f.series_id is Some {
        kind == MOVIE
    } else {
        match f.media_types {
            Some(m) => m.contains(kind),
            None => true,
        }
    }
}

/// The group shape applies: categories view with no group or series chosen.
pub open spec fn is_group_query(f: FiltersView) -> bool {
    f.view_type == CATEGORIES && f.group_id is None && f.series_id is None
}

/// The season-list shape applies: a series chosen, no season.
pub open spec fn is_season_query(f: FiltersView) -> bool {
    !is_group_query(f) && f.view_type != HIDDEN && f.series_id is Some && f.season_id is None
}

pub open spec fn group_match(f: FiltersView) -> spec_fn(GroupView) -> bool {
    |g: GroupView|
        keyword_match(g.name, f.query, f.use_keywords) && f.source_ids.contains(g.source_id) && (
        g.media_type is None || match f.media_types {
            Some(m) => m.contains(g.media_type->0),
            None => true,
        })
}

pub open spec fn hidden_group_match(f: FiltersView) -> spec_fn(GroupView) -> bool {
    |g: GroupView| g.hidden && group_match(f)(g)
}

pub open spec fn hidden_channel_match(f: FiltersView) -> spec_fn(ChannelView) -> bool {
    |c: ChannelView|
        c.hidden && keyword_match(c.name, f.query, f.use_keywords) && (match f.media_types {
            Some(m) => m.contains(c.media_type),
            None => true,
        }) && c.source_id is Some && f.source_ids.contains(c.source_id->0)
}

pub open spec fn season_match(f: FiltersView) -> spec_fn(SeasonView) -> bool {
    |t: SeasonView|
        f.series_id is Some && t.series_id as int == f.series_id->0 as int
            && f.source_ids.contains(t.source_id) && keyword_match(
            t.name,
            f.query,
            f.use_keywords,
        )
}

/// A channel that the leaf query returns.
pub open spec fn leaf_match(f: FiltersView) -> spec_fn(ChannelView) -> bool {
    |c: ChannelView|
        keyword_match(c.name, f.query, f.use_keywords) && kind_allowed(f, c.media_type)
            && c.source_id is Some && f.source_ids.contains(c.source_id->0) && c.url is Some
            && !c.hidden && (f.view_type == FAVORITES ==> c.favorite) && (f.view_type == HISTORY
            ==> c.last_watched is Some) && (match f.series_id {
            Some(s) => c.series_id is Some && c.series_id->0 as int == s as int,
            None => true,
        }) && (match f.group_id {
            Some(g) => c.group_id == Some(g),
            None => true,
        }) && (match f.season_id {
            Some(t) => c.season_id == Some(t),
            None => true,
        })
}

/// A group as a result row.
pub open spec fn group_row(g: GroupView) -> ChannelView {
    ChannelView {
        id: Some(g.id),
        name: g.name,
        url: None,
        group: None,
        image: g.image,
        media_type: GROUP,
        source_id: Some(g.source_id),
        series_id: None,
        group_id: None,
        favorite: false,
        stream_id: None,
        hidden: g.hidden,
        last_watched: None,
        season_id: None,
        episode_num: None,
        tv_archive: None,
    }
}

/// A season as a result row; its number stands in `episode_num`.
pub open spec fn season_row(t: SeasonView) -> ChannelView {
    ChannelView {
        id: Some(t.id),
        name: t.name,
        url: None,
        group: None,
        image: t.image,
        media_type: SEASON,
        source_id: Some(t.source_id),
        series_id: Some(t.series_id),
        group_id: None,
        favorite: false,
        stream_id: None,
        hidden: false,
        last_watched: None,
        season_id: Some(t.id),
        episode_num: Some(t.season_number),
        tv_archive: None,
    }
}

/// Strict lexicographic order on character sequences by code point, from index `i`.
pub open spec fn text_lt_from(a: Seq<char>, b: Seq<char>, i: int) -> bool
    decreases a.len() - i,
{
    if i < 0 || i >= a.len() {
        0 <= i < b.len()
    } else if i >= b.len() {
        false
    } else if a[i] != b[i] {
        (a[i] as u32) < (b[i] as u32)
    } else {
        text_lt_from(a, b, i + 1)
    }
}

pub open spec fn text_lt(a: Seq<char>, b: Seq<char>) -> bool {
    text_lt_from(a, b, 0)
}

/// How result rows are ordered.
#[derive(Debug, Clone, Copy, PartialEq, Eq, Structural)]
pub enum Order {
    /// As stored.
    Stored,
    NameAsc,
    NameDesc,
    /// Most recently watched first.
    WatchedDesc,
    /// By episode number (absent first), then by name.
    Episode,
}

pub open spec fn watched_key(c: ChannelView) -> int {
    match c.last_watched {
        Some(t) => t as int,
        None => i64::MIN as int - 1,
    }
}

pub open spec fn episode_key(c: ChannelView) -> int {
    match c.episode_num {
        Some(n) => n as int,
        None => -1,
    }
}

/// `a` goes strictly before `b`.
pub open spec fn before(a: ChannelView, b: ChannelView, o: Order) -> bool {
    match o {
        Order::Stored => false,
        Order::NameAsc => text_lt(a.name, b.name),
        Order::NameDesc => text_lt(b.name, a.name),
        Order::WatchedDesc => watched_key(a) > watched_key(b),
        Order::Episode => episode_key(a) < episode_key(b) || (episode_key(a) == episode_key(b)
            && text_lt(a.name, b.name)),
    }
}

pub open spec fn goes_before(x: ChannelView, o: Order) -> spec_fn(ChannelView) -> bool {
    |y: ChannelView| before(x, y, o)
}

/// `x` put in front of the first row that it goes strictly before.
pub open spec fn insert_ordered(s: Seq<ChannelView>, x: ChannelView, o: Order) -> Seq<ChannelView> {
    let p = first_index(s, goes_before(x, o));
    s.take(p).push(x) + s.skip(p)
}

/// The rows ordered by a stable insertion: rows that tie keep their order.
pub open spec fn ordered(s: Seq<ChannelView>, o: Order) -> Seq<ChannelView>
    decreases s.len(),
{
    if s.len() == 0 {
        s
    } else {
        insert_ordered(ordered(s.drop_last(), o), s.last(), o)
    }
}

/// No row goes strictly before an earlier one.
pub open spec fn is_ordered(s: Seq<ChannelView>, o: Order) -> bool {
    forall|i: int, j: int| 0 <= i < j < s.len() ==> !before(#[trigger] s[j], #[trigger] s[i], o)
}

pub open spec fn page_start(page: u8) -> int {
    (page - 1) * PAGE_SIZE
}

/// The rows of one page (1-based), fewer or none past the end.
pub open spec fn paged(s: Seq<ChannelView>, page: u8) -> Seq<ChannelView> {
    let a = page_start(page);
    let b = a + PAGE_SIZE;
    if a >= s.len() {
        Seq::empty()
    } else if b >= s.len() {
        s.subrange(a, s.len() as int)
    } else {
        s.subrange(a, b)
    }
}

/// The order of a group or leaf query: alphabetical unless provider order.
pub open spec fn name_order(sort: u8) -> Order {
    if sort == PROVIDER {
        Order::Stored
    } else if sort == ALPHABETICAL_DESC {
        Order::NameDesc
    } else {
        Order::NameAsc
    }
}

pub open spec fn leaf_order(f: FiltersView) -> Order {
    if f.view_type == HISTORY {
        Order::WatchedDesc
    } else if f.season_id is Some {
        Order::Episode
    } else {
        name_order(f.sort)
    }
}

pub open spec fn group_rows(gs: Seq<GroupView>) -> Seq<ChannelView> {
    gs.map_values(|g: GroupView| group_row(g))
}

pub open spec fn season_rows(ts: Seq<SeasonView>) -> Seq<ChannelView> {
    ts.map_values(|t: SeasonView| season_row(t))
}

/// Every row that the filters select, in result order, before paging.
pub open spec fn search_rows(c: CatalogView, f: FiltersView) -> Seq<ChannelView> {
    if is_group_query(f) {
        ordered(group_rows(c.groups.filter(group_match(f))), name_order(f.sort))
    } else if f.view_type == HIDDEN {
        ordered(
            c.channels.filter(hidden_channel_match(f)) + group_rows(
                c.groups.filter(hidden_group_match(f)),
            ),
            Order::NameAsc,
        )
    } else if is_season_query(f) {
        ordered(season_rows(c.seasons.filter(season_match(f))), Order::Episode)
    } else {
        ordered(c.channels.filter(leaf_match(f)), leaf_order(f))
    }
}

/// The page of results that a search returns.
pub open spec fn search_page(c: CatalogView, f: FiltersView) -> Seq<ChannelView> {
    paged(search_rows(c, f), f.page)
}


pub fn text_less(a: &Vec<char>, b: &Vec<char>) -> (r: bool)
    ensures
        r == text_lt(a@, b@),
{
    let mut i: usize = 0;
    while i < a.len() && i < b.len() && a[i] == b[i]
        invariant
            i <= a.len(),
            i <= b.len(),
            text_lt(a@, b@) == text_lt_from(a@, b@, i as int),
        decreases a.len() - i,
    {
        i += 1;
    }
    if i >= a.len() {
        i < b.len()
    } else if i >= b.len() {
        false
    } else {
        (a[i] as u32) < (b[i] as u32)
    }
}

fn name_chars(c: &Channel) -> (r: Vec<char>)
    ensures
        r@ == c@.name,
{
    chars_of(c.name.as_str())
}

/// Whether row `x` goes strictly before row `y` in order `o`.
pub fn row_before(x: &Channel, y: &Channel, o: Order) -> (r: bool)
    ensures
        r == before(x@, y@, o),
{
    match o {
        Order::Stored => false,
        Order::NameAsc => text_less(&name_chars(x), &name_chars(y)),
        Order::NameDesc => text_less(&name_chars(y), &name_chars(x)),
        Order::WatchedDesc => match (x.last_watched, y.last_watched) {
            (Some(a), Some(b)) => a > b,
            (Some(_), None) => true,
            _ => false,
        },
        Order::Episode => {
            let ex: i64 = match x.episode_num {
                Some(n) => n as i64,
                None => -1,
            };
            let ey: i64 = match y.episode_num {
                Some(n) => n as i64,
                None => -1,
            };
            ex < ey || (ex == ey && text_less(&name_chars(x), &name_chars(y)))
        },
    }
}

/// The rows in order `o`, by stable insertion.
pub fn sort_rows(rows: &Vec<Channel>, o: Order) -> (r: Vec<Channel>)
    ensures
        channel_views(r@) == ordered(channel_views(rows@), o),
{
    let ghost rv = channel_views(rows@);
    let mut out: Vec<Channel> = Vec::new();
    let mut i: usize = 0;
    assert(rv.take(0) =~= Seq::<ChannelView>::empty());
    assert(channel_views(out@) =~= Seq::<ChannelView>::empty());
    while i < rows.len()
        invariant
            i <= rows.len(),
            rv == channel_views(rows@),
            channel_views(out@) == ordered(rv.take(i as int), o),
        decreases rows.len() - i,
    {
        assert(rv.take(i + 1).drop_last() =~= rv.take(i as int));
        assert(rv.take(i + 1).last() == rows@[i as int]@);
        let ghost ov = channel_views(out@);
        let mut p: usize = 0;
        while p < out.len() && !row_before(&rows[i], &out[p], o)
            invariant
                i < rows.len(),
                p <= out.len(),
                ov == channel_views(out@),
                first_index(ov, goes_before(rows@[i as int]@, o)) == first_from(
                    ov,
                    goes_before(rows@[i as int]@, o),
                    p as int,
                ),
            decreases out.len() - p,
        {
            p += 1;
        }
        let x = rows[i].duplicate();
        out.insert(p, x);
        assert(channel_views(out@) =~= ov.take(p as int).push(x@) + ov.skip(p as int));
        i += 1;
    }
    assert(rv.take(rows.len() as int) =~= rv);
    out
}

/// One page (1-based) of the rows.
pub fn page_rows(rows: &Vec<Channel>, page: u8) -> (r: Vec<Channel>)
    requires
        page >= 1,
    ensures
        channel_views(r@) == paged(channel_views(rows@), page),
{
    let a: usize = (page as usize - 1) * 36;
    let b: usize = a + 36;
    let mut out: Vec<Channel> = Vec::new();
    if a >= rows.len() {
        assert(channel_views(out@) =~= Seq::<ChannelView>::empty());
        return out;
    }
    let end: usize = if b < rows.len() {
        b
    } else {
        rows.len()
    };
    let mut k: usize = a;
    assert(channel_views(out@) =~= channel_views(rows@).subrange(a as int, a as int));
    while k < end
        invariant
            a <= k <= end,
            end <= rows.len(),
            channel_views(out@) == channel_views(rows@).subrange(a as int, k as int),
        decreases end - k,
    {
        let ghost prev = out@;
        out.push(rows[k].duplicate());
        assert(channel_views(out@) =~= channel_views(prev).push(rows@[k as int]@));
        assert(channel_views(out@) =~= channel_views(rows@).subrange(a as int, k + 1));
        k += 1;
    }
    out
}

fn contains_i64(v: &Vec<i64>, x: i64) -> (r: bool)
    ensures
        r == v@.contains(x),
{
    let mut i: usize = 0;
    while i < v.len()
        invariant
            i <= v.len(),
            forall|k: int| 0 <= k < i ==> v@[k] != x,
        decreases v.len() - i,
    {
        if v[i] == x {
            return true;
        }
        i += 1;
    }
    false
}

fn contains_u8(v: &Vec<u8>, x: u8) -> (r: bool)
    ensures
        r == v@.contains(x),
{
    let mut i: usize = 0;
    while i < v.len()
        invariant
            i <= v.len(),
            forall|k: int| 0 <= k < i ==> v@[k] != x,
        decreases v.len() - i,
    {
        if v[i] == x {
            return true;
        }
        i += 1;
    }
    false
}

fn kind_in(m: &Option<Vec<u8>>, kind: u8) -> (r: bool)
    ensures
        r == match m {
            Some(v) => v@.contains(kind),
            None => true,
        },
{
    match m {
        Some(v) => contains_u8(v, kind),
        None => true,
    }
}

fn query_chars(f: &Filters) -> (r: Vec<char>)
    ensures
        r@ == filters_view(f).query,
{
    match &f.query {
        Some(q) => chars_of(q.as_str()),
        None => Vec::new(),
    }
}


fn group_to_row(g: &Group) -> (r: Channel)
    ensures
        r@ == group_row(g@),
{
    Channel {
        id: Some(g.id),
        name: g.name.clone(),
        url: None,
        group: None,
        image: copy_text(&g.image),
        media_type: GROUP,
        source_id: Some(g.source_id),
        series_id: None,
        group_id: None,
        favorite: false,
        stream_id: None,
        hidden: g.hidden,
        last_watched: None,
        season_id: None,
        episode_num: None,
        tv_archive: None,
    }
}

fn season_to_row(t: &Season) -> (r: Channel)
    ensures
        r@ == season_row(t@),
{
    Channel {
        id: Some(t.id),
        name: t.name.clone(),
        url: None,
        group: None,
        image: copy_text(&t.image),
        media_type: SEASON,
        source_id: Some(t.source_id),
        series_id: Some(t.series_id),
        group_id: None,
        favorite: false,
        stream_id: None,
        hidden: false,
        last_watched: None,
        season_id: Some(t.id),
        episode_num: Some(t.season_number),
        tv_archive: None,
    }
}

fn group_selected(g: &Group, f: &Filters, q: &Vec<char>, hidden_only: bool) -> (r: bool)
    requires
        q@ == filters_view(f).query,
    ensures
        r == if hidden_only {
            hidden_group_match(filters_view(f))(g@)
        } else {
            group_match(filters_view(f))(g@)
        },
{
    if hidden_only && !g.hidden {
        return false;
    }
    let kind_ok = match g.media_type {
        None => true,
        Some(k) => kind_in(&f.media_types, k),
    };
    kind_ok && contains_i64(&f.source_ids, g.source_id) && matches_keywords(
        &chars_of(g.name.as_str()),
        q,
        f.use_keywords,
    )
}

/// The groups that a category or hidden query selects, as rows, in stored order.
pub fn search_group(catalog: &Catalog, f: &Filters, q: &Vec<char>, hidden_only: bool) -> (r: Vec<
    Channel,
>)
    requires
        q@ == filters_view(f).query,
    ensures
        channel_views(r@) == group_rows(
            catalog@.groups.filter(
                if hidden_only {
                    hidden_group_match(filters_view(f))
                } else {
                    group_match(filters_view(f))
                },
            ),
        ),
{
    let ghost p = if hidden_only {
        hidden_group_match(filters_view(f))
    } else {
        group_match(filters_view(f))
    };
    let ghost gs = catalog@.groups;
    let mut out: Vec<Channel> = Vec::new();
    let mut i: usize = 0;
    assert(group_rows(gs.take(0).filter(p)) =~= Seq::<ChannelView>::empty()) by {
        reveal(Seq::filter);
    }
    while i < catalog.groups.len()
        invariant
            i <= catalog.groups.len(),
            gs == catalog@.groups,
            q@ == filters_view(f).query,
            p == (if hidden_only {
                hidden_group_match(filters_view(f))
            } else {
                group_match(filters_view(f))
            }),
            channel_views(out@) == group_rows(gs.take(i as int).filter(p)),
        decreases catalog.groups.len() - i,
    {
        proof {
            crate::store::lemma_filter_take_step(gs, p, i as int);
        }
        let g = &catalog.groups[i];
        assert(gs[i as int] == g@);
        if group_selected(g, f, q, hidden_only) {
            let ghost prev = out@;
            out.push(group_to_row(g));
            assert(channel_views(out@) =~= channel_views(prev).push(group_row(g@)));
            assert(group_rows(gs.take(i as int).filter(p).push(g@)) =~= group_rows(
                gs.take(i as int).filter(p),
            ).push(group_row(g@)));
        }
        i += 1;
    }
    assert(gs.take(catalog.groups.len() as int) =~= gs);
    out
}

fn channel_selected(c: &Channel, f: &Filters, q: &Vec<char>, hidden_only: bool) -> (r: bool)
    requires
        q@ == filters_view(f).query,
    ensures
        r == if hidden_only {
            hidden_channel_match(filters_view(f))(c@)
        } else {
            leaf_match(filters_view(f))(c@)
        },
{
    let sid = match c.source_id {
        Some(s) => s,
        None => {
            return false;
        },
    };
    if !contains_i64(&f.source_ids, sid) {
        return false;
    }
    if hidden_only {
        return c.hidden && kind_in(&f.media_types, c.media_type) && matches_keywords(
            &chars_of(c.name.as_str()),
            q,
            f.use_keywords,
        );
    }
    let kind_ok = if f.series_id.is_some() {
        c.media_type == MOVIE
    } else {
        kind_in(&f.media_types, c.media_type)
    };
    if !kind_ok || c.url.is_none() || c.hidden {
        return false;
    }
    if f.view_type == FAVORITES && !c.favorite {
        return false;
    }
    if f.view_type == HISTORY && c.last_watched.is_none() {
        return false;
    }
    let series_ok = match f.series_id {
        Some(s) => match c.series_id {
            Some(cs) => s >= 0 && cs == s as u64,
            None => false,
        },
        None => true,
    };
    let group_ok = match f.group_id {
        Some(g) => c.group_id == Some(g),
        None => true,
    };
    let parent_ok = series_ok && group_ok;
    let season_ok = match f.season_id {
        Some(t) => c.season_id == Some(t),
        None => true,
    };
    parent_ok && season_ok && matches_keywords(&chars_of(c.name.as_str()), q, f.use_keywords)
}

/// The channels that a leaf or hidden query selects, in stored order.
pub fn search_channels(catalog: &Catalog, f: &Filters, q: &Vec<char>, hidden_only: bool) -> (r:
    Vec<Channel>)
    requires
        q@ == filters_view(f).query,
    ensures
        channel_views(r@) == catalog@.channels.filter(
            if hidden_only {
                hidden_channel_match(filters_view(f))
            } else {
                leaf_match(filters_view(f))
            },
        ),
{
    let ghost p = if hidden_only {
        hidden_channel_match(filters_view(f))
    } else {
        leaf_match(filters_view(f))
    };
    let ghost cs = catalog@.channels;
    let mut out: Vec<Channel> = Vec::new();
    let mut i: usize = 0;
    assert(cs.take(0).filter(p) =~= Seq::<ChannelView>::empty()) by {
        reveal(Seq::filter);
    }
    assert(channel_views(out@) =~= Seq::<ChannelView>::empty());
    while i < catalog.channels.len()
        invariant
            i <= catalog.channels.len(),
            cs == catalog@.channels,
            q@ == filters_view(f).query,
            p == (if hidden_only {
                hidden_channel_match(filters_view(f))
            } else {
                leaf_match(filters_view(f))
            }),
            channel_views(out@) == cs.take(i as int).filter(p),
        decreases catalog.channels.len() - i,
    {
        proof {
            crate::store::lemma_filter_take_step(cs, p, i as int);
        }
        let c = &catalog.channels[i];
        assert(cs[i as int] == c@);
        if channel_selected(c, f, q, hidden_only) {
            let ghost prev = out@;
            out.push(c.duplicate());
            assert(channel_views(out@) =~= channel_views(prev).push(c@));
        }
        i += 1;
    }
    assert(cs.take(catalog.channels.len() as int) =~= cs);
    out
}

/// The seasons of the chosen series, as rows, in stored order.
pub fn search_seasons(catalog: &Catalog, f: &Filters, q: &Vec<char>) -> (r: Vec<Channel>)
    requires
        q@ == filters_view(f).query,
    ensures
        channel_views(r@) == season_rows(catalog@.seasons.filter(season_match(filters_view(f)))),
{
    let ghost p = season_match(filters_view(f));
    let ghost ts = catalog@.seasons;
    let mut out: Vec<Channel> = Vec::new();
    let mut i: usize = 0;
    assert(season_rows(ts.take(0).filter(p)) =~= Seq::<ChannelView>::empty()) by {
        reveal(Seq::filter);
    }
    while i < catalog.seasons.len()
        invariant
            i <= catalog.seasons.len(),
            ts == catalog@.seasons,
            q@ == filters_view(f).query,
            p == season_match(filters_view(f)),
            channel_views(out@) == season_rows(ts.take(i as int).filter(p)),
        decreases catalog.seasons.len() - i,
    {
        proof {
            crate::store::lemma_filter_take_step(ts, p, i as int);
        }
        let t = &catalog.seasons[i];
        assert(ts[i as int] == t@);
        let selected = match f.series_id {
            Some(s) => s >= 0 && t.series_id == s as u64 && contains_i64(&f.source_ids, t.source_id)
                && matches_keywords(&chars_of(t.name.as_str()), q, f.use_keywords),
            None => false,
        };
        if selected {
            let ghost prev = out@;
            out.push(season_to_row(t));
            assert(channel_views(out@) =~= channel_views(prev).push(season_row(t@)));
            assert(season_rows(ts.take(i as int).filter(p).push(t@)) =~= season_rows(
                ts.take(i as int).filter(p),
            ).push(season_row(t@)));
        }
        i += 1;
    }
    assert(ts.take(catalog.seasons.len() as int) =~= ts);
    out
}

fn name_order_of(sort: u8) -> (r: Order)
    ensures
        r == name_order(sort),
{
    if sort == PROVIDER {
        Order::Stored
    } else if sort == ALPHABETICAL_DESC {
        Order::NameDesc
    } else {
        Order::NameAsc
    }
}

/// One page of the rows that the filters select (see `search_rows`).
pub fn search(catalog: &Catalog, filters: &Filters) -> (r: Vec<Channel>)
    requires
        filters.page >= 1,
    ensures
        channel_views(r@) == search_page(catalog@, filters_view(filters)),
{
    let q = query_chars(filters);
    let f = filters;
    let sorted = if f.view_type == CATEGORIES && f.group_id.is_none() && f.series_id.is_none() {
        let rows = search_group(catalog, f, &q, false);
        sort_rows(&rows, name_order_of(f.sort))
    } else if f.view_type == HIDDEN {
        let mut rows = search_channels(catalog, f, &q, true);
        let mut groups = search_group(catalog, f, &q, true);
        let ghost a = rows@;
        let ghost b = groups@;
        rows.append(&mut groups);
        assert(channel_views(rows@) =~= channel_views(a) + channel_views(b));
        sort_rows(&rows, Order::NameAsc)
    } else if f.series_id.is_some() && f.season_id.is_none() {
        let rows = search_seasons(catalog, f, &q);
        sort_rows(&rows, Order::Episode)
    } else {
        let rows = search_channels(catalog, f, &q, false);
        let o = if f.view_type == HISTORY {
            Order::WatchedDesc
        } else if f.season_id.is_some() {
            Order::Episode
        } else {
            name_order_of(f.sort)
        };
        sort_rows(&rows, o)
    };
    page_rows(&sorted, f.page)
}


pub proof fn lemma_text_lt_asym(a: Seq<char>, b: Seq<char>, i: int)
    requires
        0 <= i,
    ensures
        !(text_lt_from(a, b, i) && text_lt_from(b, a, i)),
    decreases a.len() - i,
{
    if i < a.len() && i < b.len() && a[i] == b[i] {
        lemma_text_lt_asym(a, b, i + 1);
    }
}

pub proof fn lemma_text_lt_trans(a: Seq<char>, b: Seq<char>, c: Seq<char>, i: int)
    requires
        0 <= i,
        text_lt_from(a, b, i),
        text_lt_from(b, c, i),
    ensures
        text_lt_from(a, c, i),
    decreases a.len() - i,
{
    if i < a.len() && i < b.len() && i < c.len() && a[i] == b[i] && b[i] == c[i] {
        lemma_text_lt_trans(a, b, c, i + 1);
    }
}

/// Each order is a strict order: asymmetric and transitive.
pub proof fn lemma_before_strict(x: ChannelView, y: ChannelView, z: ChannelView, o: Order)
    ensures
        !(before(x, y, o) && before(y, x, o)),
        before(x, y, o) && before(y, z, o) ==> before(x, z, o),
{
    lemma_text_lt_asym(x.name, y.name, 0);
    if text_lt(x.name, y.name) && text_lt(y.name, z.name) {
        lemma_text_lt_trans(x.name, y.name, z.name, 0);
    }
    if text_lt(z.name, y.name) && text_lt(y.name, x.name) {
        lemma_text_lt_trans(z.name, y.name, x.name, 0);
    }
}

pub proof fn lemma_insert_ordered(s: Seq<ChannelView>, x: ChannelView, o: Order)
    requires
        is_ordered(s, o),
    ensures
        is_ordered(insert_ordered(s, x, o), o),
        insert_ordered(s, x, o).len() == s.len() + 1,
        forall|k: int|
            0 <= k < s.len() + 1 ==> #[trigger] insert_ordered(s, x, o)[k] == x || s.contains(
                insert_ordered(s, x, o)[k],
            ),
{
    let q = goes_before(x, o);
    lemma_first_index(s, q);
    let p = first_index(s, q);
    let r = insert_ordered(s, x, o);
    assert(r.len() == s.len() + 1);
    assert forall|k: int| 0 <= k < r.len() implies #[trigger] r[k] == (if k < p {
        s[k]
    } else if k == p {
        x
    } else {
        s[k - 1]
    }) by {}
    assert forall|i: int, j: int| 0 <= i < j < r.len() implies !before(
        #[trigger] r[j],
        #[trigger] r[i],
        o,
    ) by {
        if j < p {
            assert(r[i] == s[i] && r[j] == s[j]);
        } else if j == p {
            assert(r[i] == s[i] && r[j] == x);
            assert(!q(s[i]));
        } else if i < p {
            assert(r[i] == s[i] && r[j] == s[j - 1]);
        } else if i == p {
            assert(r[j] == s[j - 1]);
            assert(q(s[p]));
            lemma_before_strict(s[j - 1], x, s[p], o);
            if j - 1 > p {
                assert(!before(s[j - 1], s[p], o));
            }
        } else {
            assert(r[i] == s[i - 1] && r[j] == s[j - 1]);
        }
    }
    assert forall|k: int| 0 <= k < s.len() + 1 implies #[trigger] r[k] == x || s.contains(r[k]) by {
        if k < p {
            assert(r[k] == s[k]);
        } else if k > p {
            assert(r[k] == s[k - 1]);
        }
    }
}

/// The stable insertion orders the rows, keeps their number, and takes every
/// row from the input.
pub proof fn lemma_ordered(s: Seq<ChannelView>, o: Order)
    ensures
        is_ordered(ordered(s, o), o),
        ordered(s, o).len() == s.len(),
        forall|k: int| 0 <= k < s.len() ==> s.contains(#[trigger] ordered(s, o)[k]),
    decreases s.len(),
{
    if s.len() > 0 {
        let t = ordered(s.drop_last(), o);
        lemma_ordered(s.drop_last(), o);
        lemma_insert_ordered(t, s.last(), o);
        assert forall|k: int| 0 <= k < s.len() implies s.contains(#[trigger] ordered(s, o)[k]) by {
            let y = ordered(s, o)[k];
            if y == s.last() {
                assert(s[s.len() - 1] == y);
            } else {
                assert(t.contains(y));
                let m = choose|m: int| 0 <= m < t.len() && t[m] == y;
                assert(s.drop_last().contains(y));
                let n = choose|n: int| 0 <= n < s.drop_last().len() && s.drop_last()[n] == y;
                assert(s[n] == y);
            }
        }
    }
}

/// A page is the window of rows from the page's start, cut at the end.
pub proof fn lemma_paged(s: Seq<ChannelView>, page: u8)
    requires
        page >= 1,
    ensures
        paged(s, page).len() <= PAGE_SIZE,
        paged(s, page).len() > 0 ==> page_start(page) + paged(s, page).len() <= s.len(),
        forall|i: int|
            0 <= i < paged(s, page).len() ==> #[trigger] paged(s, page)[i] == s[page_start(page) + i],
{
}

/// With at least `page * 36` rows, page `page` holds exactly the rows from
/// index `(page - 1) * 36` to `page * 36`, end excluded.
pub proof fn lemma_page_window(s: Seq<ChannelView>, page: u8)
    requires
        page >= 1,
        page * PAGE_SIZE <= s.len(),
    ensures
        paged(s, page) == s.subrange((page - 1) * PAGE_SIZE, page * PAGE_SIZE),
{
}

proof fn lemma_page_of_ordered(s: Seq<ChannelView>, o: Order, page: u8)
    requires
        page >= 1,
    ensures
        is_ordered(paged(ordered(s, o), page), o),
        forall|i: int|
            0 <= i < paged(ordered(s, o), page).len() ==> s.contains(
                #[trigger] paged(ordered(s, o), page)[i],
            ),
{
    let t = ordered(s, o);
    let pg = paged(t, page);
    lemma_ordered(s, o);
    lemma_paged(t, page);
    let a = page_start(page);
    assert forall|i: int, j: int| 0 <= i < j < pg.len() implies !before(
        #[trigger] pg[j],
        #[trigger] pg[i],
        o,
    ) by {
        assert(pg[i] == t[a + i] && pg[j] == t[a + j]);
    }
    assert forall|i: int| 0 <= i < pg.len() implies s.contains(#[trigger] pg[i]) by {
        assert(pg[i] == t[a + i]);
    }
}

/// A category search with no group or series chosen returns group rows only,
/// in ascending name order unless provider order or descending order is asked for.
pub proof fn lemma_categories_page(c: CatalogView, f: FiltersView)
    requires
        is_group_query(f),
        f.page >= 1,
    ensures
        forall|i: int|
            0 <= i < search_page(c, f).len() ==> (#[trigger] search_page(c, f)[i]).media_type
                == GROUP && search_page(c, f)[i].url is None && search_page(c, f)[i].source_id is Some
                && f.source_ids.contains(search_page(c, f)[i].source_id->0),
        f.sort != PROVIDER && f.sort != ALPHABETICAL_DESC ==> is_ordered(
            search_page(c, f),
            Order::NameAsc,
        ),
{
    let rows = group_rows(c.groups.filter(group_match(f)));
    lemma_page_of_ordered(rows, name_order(f.sort), f.page);
    let pg = search_page(c, f);
    assert forall|i: int| 0 <= i < pg.len() implies (#[trigger] pg[i]).media_type == GROUP
        && pg[i].url is None && pg[i].source_id is Some && f.source_ids.contains(
        pg[i].source_id->0,
    ) by {
        assert(rows.contains(pg[i]));
        let k = choose|k: int| 0 <= k < rows.len() && rows[k] == pg[i];
        assert(rows[k] == group_row(c.groups.filter(group_match(f))[k]));
        c.groups.lemma_filter_pred(group_match(f), k);
    }
}

/// A history search does not depend on the sort mode asked for.
pub proof fn lemma_history_ignores_sort(c: CatalogView, f: FiltersView, sort: u8)
    requires
        f.view_type == HISTORY,
    ensures
        search_page(c, f) == search_page(c, FiltersView { sort, ..f }),
{
    let g = FiltersView { sort, ..f };
    assert(leaf_match(f) =~= leaf_match(g));
    assert(season_match(f) =~= season_match(g));
    assert(leaf_order(f) == leaf_order(g));
    assert(search_rows(c, f) == search_rows(c, g));
}

/// A history search returns only watched channels, most recently watched
/// first, whatever sort was asked for.
pub proof fn lemma_history_page(c: CatalogView, f: FiltersView)
    requires
        f.view_type == HISTORY,
        !(f.series_id is Some && f.season_id is None),
        f.page >= 1,
    ensures
        forall|i: int|
            0 <= i < search_page(c, f).len() ==> (#[trigger] search_page(c, f)[i]).last_watched
                is Some,
        is_ordered(search_page(c, f), Order::WatchedDesc),
        forall|i: int, j: int|
            0 <= i < j < search_page(c, f).len() ==> watched_key(#[trigger] search_page(c, f)[i])
                >= watched_key(#[trigger] search_page(c, f)[j]),
{
    let rows = c.channels.filter(leaf_match(f));
    assert(search_rows(c, f) == ordered(rows, Order::WatchedDesc));
    lemma_page_of_ordered(rows, Order::WatchedDesc, f.page);
    let pg = search_page(c, f);
    assert forall|i: int| 0 <= i < pg.len() implies (#[trigger] pg[i]).last_watched is Some by {
        assert(rows.contains(pg[i]));
        let k = choose|k: int| 0 <= k < rows.len() && rows[k] == pg[i];
        c.channels.lemma_filter_pred(leaf_match(f), k);
    }
    assert forall|i: int, j: int| 0 <= i < j < pg.len() implies watched_key(#[trigger] pg[i])
        >= watched_key(#[trigger] pg[j]) by {
        assert(!before(pg[j], pg[i], Order::WatchedDesc));
    }
}

} // verus!
