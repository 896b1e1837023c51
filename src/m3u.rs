//! The playlist reader: a single forward pass over the lines of a playlist that
//! pairs each entry marker with its transport directives and its content line,
//! and the field extraction that turns such a pair into a channel.
use vstd::prelude::*;
use crate::kinds::{LIVESTREAM, MOVIE};
use crate::text::{
    chars_of, find_capture, find_capture_chars, is_blank, is_blank_chars, non_blank,
    non_blank_chars, starts_with_ci, starts_with_ci_chars, string_of, trim_chars, trimmed,
};
use crate::store::{
    catalog_wf, channel_upserted, group_resolved, headers_inserted, headers_removed,
    hidden_group_names, insert_channel_headers, remove_channel_headers,
    preserved_channels, restored, source_upserted, wiped, Catalog,
    CatalogView, StoreError,
};
use crate::types::{copy_text, Channel, ChannelHttpHeaders, ChannelView, HeadersView, Source};

verus! {

/// One entry marker line with what followed it up to the next marker.
#[derive(Clone, Debug)]
pub struct RawEntry {
    pub header: String,
    pub content: Option<String>,
    pub origin: Option<String>,
    pub referrer: Option<String>,
    pub user_agent: Option<String>,
    /// Index of the line at which the entry was closed (the next marker, or the line count).
    pub line: usize,
}

pub struct RawEntryView {
    pub header: Seq<char>,
    pub content: Option<Seq<char>>,
    pub origin: Option<Seq<char>>,
    pub referrer: Option<Seq<char>>,
    pub user_agent: Option<Seq<char>>,
    pub line: usize,
}

impl View for RawEntry {
    type V = RawEntryView;

    open spec fn view(&self) -> RawEntryView {
        RawEntryView {
            header: self.header@,
            content: self.content.deep_view(),
            origin: self.origin.deep_view(),
            referrer: self.referrer.deep_view(),
            user_agent: self.user_agent.deep_view(),
            line: self.line,
        }
    }
}

pub open spec fn raw_views(v: Seq<RawEntry>) -> Seq<RawEntryView> {
    v.map_values(|e: RawEntry| e@)
}

/// The reader's state between lines.
pub struct ReaderState {
    pub header: Option<Seq<char>>,
    pub content: Option<Seq<char>>,
    pub origin: Option<Seq<char>>,
    pub referrer: Option<Seq<char>>,
    pub user_agent: Option<Seq<char>>,
    pub entries: Seq<RawEntryView>,
}

pub open spec fn initial_state() -> ReaderState {
    ReaderState {
        header: None,
        content: None,
        origin: None,
        referrer: None,
        user_agent: None,
        entries: Seq::empty(),
    }
}

pub open spec fn entry_marker() -> Seq<char> {
    seq!['#', 'E', 'X', 'T', 'I', 'N', 'F']
}

pub open spec fn directive_marker() -> Seq<char> {
    seq!['#', 'E', 'X', 'T', 'V', 'L', 'C', 'O', 'P', 'T']
}

pub open spec fn origin_key() -> Seq<char> {
    seq!['h', 't', 't', 'p', '-', 'o', 'r', 'i', 'g', 'i', 'n', '=']
}

pub open spec fn referrer_key() -> Seq<char> {
    seq!['h', 't', 't', 'p', '-', 'r', 'e', 'f', 'e', 'r', 'r', 'e', 'r', '=']
}

pub open spec fn user_agent_key() -> Seq<char> {
    seq!['h', 't', 't', 'p', '-', 'u', 's', 'e', 'r', '-', 'a', 'g', 'e', 'n', 't', '=']
}

pub open spec fn newline() -> Seq<char> {
    seq!['\n']
}

/// The value of a transport directive: the key, then at least one character, up
/// to the end of the line; blank values do not count.
pub open spec fn directive_value(line: Seq<char>, key: Seq<char>) -> Option<Seq<char>> {
    non_blank(find_capture(line, key, newline(), false, 1, 0))
}

/// Close the pending entry, if any, at line `at`.
pub open spec fn close_entry(st: ReaderState, at: usize) -> ReaderState {
    match st.header {
        Some(h) => ReaderState {
            header: None,
            content: None,
            origin: None,
            referrer: None,
            user_agent: None,
            entries: st.entries.push(
                RawEntryView {
                    header: h,
                    content: st.content,
                    origin: st.origin,
                    referrer: st.referrer,
                    user_agent: st.user_agent,
                    line: at,
                },
            ),
        },
        None => st,
    }
}

/// A directive line sets the first of origin, referrer and user agent that it carries.
pub open spec fn apply_directive(st: ReaderState, line: Seq<char>) -> ReaderState {
    let o = directive_value(line, origin_key());
    let r = directive_value(line, referrer_key());
    let u = directive_value(line, user_agent_key());
    if o is Some {
        ReaderState { origin: o, ..st }
    } else if r is Some {
        ReaderState { referrer: r, ..st }
    } else if u is Some {
        ReaderState { user_agent: u, ..st }
    } else {
        st
    }
}

/// The reader after line number `at`: a marker closes the pending entry and opens
/// a new one; a directive adds a transport header; any other non-blank line is
/// the latest content line.
pub open spec fn read_line(st: ReaderState, line: Seq<char>, at: usize) -> ReaderState {
    if starts_with_ci(line, entry_marker()) {
        let closed = close_entry(st, at);
        ReaderState {
            header: Some(line),
            content: None,
            origin: None,
            referrer: None,
            user_agent: None,
            entries: closed.entries,
        }
    } else if starts_with_ci(line, directive_marker()) {
        apply_directive(st, line)
    } else if !is_blank(line) {
        ReaderState { content: Some(line), ..st }
    } else {
        st
    }
}

/// The reader after the first `n` lines.
pub open spec fn read_lines(lines: Seq<Seq<char>>, n: int) -> ReaderState
    decreases n,
{
    if n <= 0 {
        initial_state()
    } else {
        read_line(read_lines(lines, n - 1), lines[n - 1], (n - 1) as usize)
    }
}

/// The entries of a playlist, in order, the last one closed at the end of the text.
pub open spec fn playlist_entries(lines: Seq<Seq<char>>) -> Seq<RawEntryView> {
    close_entry(read_lines(lines, lines.len() as int), lines.len() as usize).entries
}

pub open spec fn text_lines(v: Seq<String>) -> Seq<Seq<char>> {
    v.map_values(|s: String| s@)
}

fn opt_string(o: &Option<Vec<char>>) -> (r: Option<String>)
    ensures
        r.deep_view() == o.deep_view(),
{
    match o {
        Some(v) => {
            let s = string_of(v);
            let r = Some(s);
            assert(r.deep_view() == Some(s@));
            r
        },
        None => None,
    }
}

fn literal(s: &str) -> (r: Vec<char>)
    ensures
        r@ == s@,
{
    chars_of(s)
}

/// The value of a transport directive of this key on the line, if any.
pub fn directive_value_of(line: &Vec<char>, key: &Vec<char>) -> (r: Option<Vec<char>>)
    ensures
        r.deep_view() == directive_value(line@, key@),
{
    let mut stops: Vec<char> = Vec::new();
    stops.push('\n');
    assert(stops@ =~= newline());
    non_blank_chars(find_capture_chars(line, key, &stops, false, 1))
}

/// Apply a directive line to the pending transport headers; true where it set one.
pub fn set_http_headers(
    line: &Vec<char>,
    origin: &mut Option<Vec<char>>,
    referrer: &mut Option<Vec<char>>,
    user_agent: &mut Option<Vec<char>>,
) -> (r: bool)
    ensures
        ({
            let before = ReaderState {
                header: None,
                content: None,
                origin: old(origin).deep_view(),
                referrer: old(referrer).deep_view(),
                user_agent: old(user_agent).deep_view(),
                entries: Seq::empty(),
            };
            let after = apply_directive(before, line@);
            &&& final(origin).deep_view() == after.origin
            &&& final(referrer).deep_view() == after.referrer
            &&& final(user_agent).deep_view() == after.user_agent
            &&& r == (directive_value(line@, origin_key()) is Some || directive_value(
                line@,
                referrer_key(),
            ) is Some || directive_value(line@, user_agent_key()) is Some)
        }),
{
    let okey = literal("http-origin=");
    let rkey = literal("http-referrer=");
    let ukey = literal("http-user-agent=");
    proof {
        reveal_strlit("http-origin=");
        reveal_strlit("http-referrer=");
        reveal_strlit("http-user-agent=");
        assert(okey@ =~= origin_key());
        assert(rkey@ =~= referrer_key());
        assert(ukey@ =~= user_agent_key());
    }
    let o = directive_value_of(line, &okey);
    if o.is_some() {
        *origin = o;
        return true;
    }
    let r = directive_value_of(line, &rkey);
    if r.is_some() {
        *referrer = r;
        return true;
    }
    let u = directive_value_of(line, &ukey);
    if u.is_some() {
        *user_agent = u;
        return true;
    }
    false
}

/// Split a playlist into its entries: each marker line with the directives
/// and the last non-blank content line that followed it.
pub fn read_playlist(lines: &Vec<String>) -> (r: Vec<RawEntry>)
    ensures
        raw_views(r@) == playlist_entries(text_lines(lines@)),
{
    let ghost ls = text_lines(lines@);
    let entry = literal("#EXTINF");
    let directive = literal("#EXTVLCOPT");
    proof {
        reveal_strlit("#EXTINF");
        reveal_strlit("#EXTVLCOPT");
        assert(entry@ =~= entry_marker());
        assert(directive@ =~= directive_marker());
    }
    let mut out: Vec<RawEntry> = Vec::new();
    let mut header: Option<Vec<char>> = None;
    let mut content: Option<Vec<char>> = None;
    let mut origin: Option<Vec<char>> = None;
    let mut referrer: Option<Vec<char>> = None;
    let mut user_agent: Option<Vec<char>> = None;
    let mut i: usize = 0;
    assert(raw_views(out@) =~= Seq::<RawEntryView>::empty());
    while i < lines.len()
        invariant
            i <= lines.len(),
            ls == text_lines(lines@),
            entry@ == entry_marker(),
            directive@ == directive_marker(),
            read_lines(ls, i as int).header == header.deep_view(),
            read_lines(ls, i as int).content == content.deep_view(),
            read_lines(ls, i as int).origin == origin.deep_view(),
            read_lines(ls, i as int).referrer == referrer.deep_view(),
            read_lines(ls, i as int).user_agent == user_agent.deep_view(),
            read_lines(ls, i as int).entries == raw_views(out@),
        decreases lines.len() - i,
    {
        let line = chars_of(lines[i].as_str());
        assert(line@ == ls[i as int]);
        let ghost st = read_lines(ls, i as int);
        assert(read_lines(ls, i + 1) == read_line(st, line@, i));
        if starts_with_ci_chars(&line, &entry) {
            match &header {
                Some(h) => {
                    assert(h.deep_view() =~= h@);
                    let ghost prev = out@;
                    let e = RawEntry {
                        header: string_of(h),
                        content: opt_string(&content),
                        origin: opt_string(&origin),
                        referrer: opt_string(&referrer),
                        user_agent: opt_string(&user_agent),
                        line: i,
                    };
                    out.push(e);
                    assert(raw_views(out@) =~= raw_views(prev).push(e@));
                },
                None => {},
            }
            let ghost lv = line@;
            header = Some(line);
            assert(header.deep_view() == Some(lv));
            content = None;
            origin = None;
            referrer = None;
            user_agent = None;
        } else if starts_with_ci_chars(&line, &directive) {
            set_http_headers(&line, &mut origin, &mut referrer, &mut user_agent);
        } else if !is_blank_chars(&line) {
            let ghost lv = line@;
            content = Some(line);
            assert(content.deep_view() == Some(lv));
        }
        i += 1;
    }
    match &header {
        Some(h) => {
            assert(h.deep_view() =~= h@);
            let ghost prev = out@;
            let e = RawEntry {
                header: string_of(h),
                content: opt_string(&content),
                origin: opt_string(&origin),
                referrer: opt_string(&referrer),
                user_agent: opt_string(&user_agent),
                line: i,
            };
            out.push(e);
            assert(raw_views(out@) =~= raw_views(prev).push(e@));
        },
        None => {},
    }
    out
}


#[derive(Debug, Clone, Copy, PartialEq, Eq, Structural)]
pub enum EntryError {
    /// The entry has no content line, or only a blank one.
    MissingContent,
    /// Neither a name attribute, a trailing title nor an id attribute gives a name.
    MissingName,
}

pub open spec fn quote() -> Seq<char> {
    seq!['"']
}

pub open spec fn title_stops() -> Seq<char> {
    seq!['\n', '\r', '\t']
}

pub open spec fn name_key() -> Seq<char> {
    seq!['t', 'v', 'g', '-', 'n', 'a', 'm', 'e', '=', '"']
}

pub open spec fn id_key() -> Seq<char> {
    seq!['t', 'v', 'g', '-', 'i', 'd', '=', '"']
}

pub open spec fn logo_key() -> Seq<char> {
    seq!['t', 'v', 'g', '-', 'l', 'o', 'g', 'o', '=', '"']
}

pub open spec fn group_key() -> Seq<char> {
    seq!['g', 'r', 'o', 'u', 'p', '-', 't', 'i', 't', 'l', 'e', '=', '"']
}

/// The quoted value of an attribute (`key="value"`), when present and not blank.
pub open spec fn attribute(line: Seq<char>, key: Seq<char>) -> Option<Seq<char>> {
    non_blank(find_capture(line, key, quote(), true, 0, 0))
}

/// The title after the first comma, up to a line break or tab, when not blank.
pub open spec fn trailing_title(line: Seq<char>) -> Option<Seq<char>> {
    non_blank(find_capture(line, seq![','], title_stops(), false, 0, 0))
}

/// The display name: the name attribute, else the trailing title, else the id attribute.
pub open spec fn entry_name(line: Seq<char>) -> Option<Seq<char>> {
    if attribute(line, name_key()) is Some {
        attribute(line, name_key())
    } else if trailing_title(line) is Some {
        trailing_title(line)
    } else {
        attribute(line, id_key())
    }
}

pub open spec fn trimmed_opt(o: Option<Seq<char>>) -> Option<Seq<char>> {
    match o {
        Some(v) => Some(trimmed(v)),
        None => None,
    }
}

pub open spec fn ends_with(s: Seq<char>, t: Seq<char>) -> bool {
    t.len() <= s.len() && s.subrange(s.len() - t.len(), s.len() as int) == t
}

/// Movie for a url ending in `.mp4` or `.mkv`, else livestream.
pub open spec fn media_type_for(url: Seq<char>) -> u8 {
    if ends_with(url, seq!['.', 'm', 'p', '4']) || ends_with(url, seq!['.', 'm', 'k', 'v']) {
        MOVIE
    } else {
        LIVESTREAM
    }
}

/// The channel that an entry line and its content line describe.
pub open spec fn channel_from_lines(first: Seq<char>, second: Seq<char>, source_id: i64) -> Result<
    ChannelView,
    EntryError,
> {
    let url = trimmed(second);
    if url.len() == 0 {
        Err(EntryError::MissingContent)
    } else {
        match entry_name(first) {
            None => Err(EntryError::MissingName),
            Some(n) => Ok(
                ChannelView {
                    id: None,
                    name: trimmed(n),
                    url: Some(url),
                    group: trimmed_opt(attribute(first, group_key())),
                    image: trimmed_opt(attribute(first, logo_key())),
                    media_type: media_type_for(url),
                    source_id: Some(source_id),
                    series_id: None,
                    group_id: None,
                    favorite: false,
                    stream_id: None,
                    hidden: false,
                    last_watched: None,
                    season_id: None,
                    episode_num: None,
                    tv_archive: None,
                },
            ),
        }
    }
}

fn ends_with_chars(s: &Vec<char>, t: &Vec<char>) -> (r: bool)
    ensures
        r == ends_with(s@, t@),
{
    if t.len() > s.len() {
        return false;
    }
    let start = s.len() - t.len();
    let mut j: usize = 0;
    while j < t.len()
        invariant
            start + t.len() == s.len(),
            j <= t.len(),
            forall|m: int| 0 <= m < j ==> s@[start + m] == #[trigger] t@[m],
        decreases t.len() - j,
    {
        if s[start + j] != t[j] {
            assert(s@.subrange(start as int, s.len() as int)[j as int] != t@[j as int]);
            return false;
        }
        j += 1;
    }
    assert(s@.subrange(start as int, s.len() as int) =~= t@);
    true
}

/// The media kind that a content url implies.
pub fn get_media_type(url: &Vec<char>) -> (r: u8)
    ensures
        r == media_type_for(url@),
{
    let mp4 = literal(".mp4");
    let mkv = literal(".mkv");
    proof {
        reveal_strlit(".mp4");
        reveal_strlit(".mkv");
        assert(mp4@ =~= seq!['.', 'm', 'p', '4']);
        assert(mkv@ =~= seq!['.', 'm', 'k', 'v']);
    }
    if ends_with_chars(url, &mp4) || ends_with_chars(url, &mkv) {
        MOVIE
    } else {
        LIVESTREAM
    }
}

fn attribute_of(line: &Vec<char>, key: &Vec<char>) -> (r: Option<Vec<char>>)
    ensures
        r.deep_view() == attribute(line@, key@),
{
    let mut stops: Vec<char> = Vec::new();
    stops.push('"');
    assert(stops@ =~= quote());
    non_blank_chars(find_capture_chars(line, key, &stops, true, 0))
}

fn trimmed_text(o: &Option<Vec<char>>) -> (r: Option<String>)
    ensures
        r.deep_view() == trimmed_opt(o.deep_view()),
{
    match o {
        Some(v) => {
            assert(v.deep_view() =~= v@);
            let t = trim_chars(v);
            let s = string_of(&t);
            let r = Some(s);
            assert(r.deep_view() == Some(s@));
            r
        },
        None => None,
    }
}

/// Build the channel of an entry from its marker line and its content line.
pub fn get_channel_from_lines(first: &String, second: &String, source_id: i64) -> (r: Result<
    Channel,
    EntryError,
>)
    ensures
        match r {
            Ok(c) => channel_from_lines(first@, second@, source_id) == Ok::<
                ChannelView,
                EntryError,
            >(c@),
            Err(e) => channel_from_lines(first@, second@, source_id) == Err::<
                ChannelView,
                EntryError,
            >(e),
        },
{
    let line = chars_of(first.as_str());
    let url = trim_chars(&chars_of(second.as_str()));
    if url.len() == 0 {
        return Err(EntryError::MissingContent);
    }
    let name_k = literal("tvg-name=\"");
    let id_k = literal("tvg-id=\"");
    let logo_k = literal("tvg-logo=\"");
    let group_k = literal("group-title=\"");
    let comma = literal(",");
    let mut stops: Vec<char> = Vec::new();
    stops.push('\n');
    stops.push('\r');
    stops.push('\t');
    proof {
        reveal_strlit("tvg-name=\"");
        reveal_strlit("tvg-id=\"");
        reveal_strlit("tvg-logo=\"");
        reveal_strlit("group-title=\"");
        reveal_strlit(",");
        assert(name_k@ =~= name_key());
        assert(id_k@ =~= id_key());
        assert(logo_k@ =~= logo_key());
        assert(group_k@ =~= group_key());
        assert(comma@ =~= seq![',']);
        assert(stops@ =~= title_stops());
    }
    let mut name = attribute_of(&line, &name_k);
    if name.is_none() {
        name = non_blank_chars(find_capture_chars(&line, &comma, &stops, false, 0));
        if name.is_none() {
            name = attribute_of(&line, &id_k);
        }
    }
    let name = match name {
        Some(n) => n,
        None => {
            return Err(EntryError::MissingName);
        },
    };
    assert(name.deep_view() =~= name@);
    let group = attribute_of(&line, &group_k);
    let image = attribute_of(&line, &logo_k);
    let media_type = get_media_type(&url);
    let url_text = string_of(&url);
    let c = Channel {
        id: None,
        name: string_of(&trim_chars(&name)),
        url: Some(url_text),
        group: trimmed_text(&group),
        image: trimmed_text(&image),
        media_type,
        source_id: Some(source_id),
        series_id: None,
        group_id: None,
        favorite: false,
        stream_id: None,
        hidden: false,
        last_watched: None,
        season_id: None,
        episode_num: None,
        tv_archive: None,
    };
    assert(c.url.deep_view() == Some(url_text@));
    Ok(c)
}


/// The channel of a raw entry, which needs a content line.
pub open spec fn entry_channel(e: RawEntryView, source_id: i64) -> Result<ChannelView, EntryError> {
    match e.content {
        None => Err(EntryError::MissingContent),
        Some(c) => channel_from_lines(e.header, c, source_id),
    }
}

/// The transport headers of an entry stored under channel `id`: present only
/// where a directive set one of them.
pub open spec fn entry_headers(e: RawEntryView, id: i64) -> Option<HeadersView> {
    if e.origin is Some || e.referrer is Some || e.user_agent is Some {
        Some(
            HeadersView {
                id: None,
                channel_id: Some(id),
                referrer: e.referrer,
                user_agent: e.user_agent,
                http_origin: e.origin,
                ignore_ssl: None,
            },
        )
    } else {
        None
    }
}

/// One entry stored: its group resolved (a failure there leaves the channel
/// without a group), the channel upserted, then its headers, which replace
/// those the channel had (or remove them where the entry sets none). The flag
/// says whether every step succeeded.
pub open spec fn entry_committed(c: CatalogView, e: RawEntryView, source_id: i64) -> (
    CatalogView,
    bool,
) {
    match entry_channel(e, source_id) {
        Err(_) => (c, false),
        Ok(ch) => {
            let (c1, ch1, _g) = group_resolved(c, ch, source_id);
            let (c2, r) = channel_upserted(c1, ch1);
            match r {
                Err(_) => (c2, false),
                Ok(id) => match entry_headers(e, id) {
                    None => (headers_removed(c2, Some(id)), true),
                    Some(h) => {
                        let (c3, hr) = headers_inserted(c2, h);
                        (c3, hr is Ok)
                    },
                },
            }
        },
    }
}

/// The entries stored in order; the result lists the closing line of each entry
/// that was skipped or only partly stored.
pub open spec fn entries_committed(c: CatalogView, es: Seq<RawEntryView>, source_id: i64) -> (
    CatalogView,
    Seq<usize>,
)
    decreases es.len(),
{
    if es.len() == 0 {
        (c, Seq::empty())
    } else {
        let (c1, skipped) = entries_committed(c, es.drop_last(), source_id);
        let (c2, ok) = entry_committed(c1, es.last(), source_id);
        (
            c2,
            if ok {
                skipped
            } else {
                skipped.push(es.last().line)
            },
        )
    }
}

/// Store one entry; false where it was skipped or only partly stored.
pub fn commit_channel(catalog: &mut Catalog, entry: &RawEntry, source_id: i64) -> (ok: bool)
    requires
        catalog_wf(old(catalog)@),
    ensures
        (final(catalog)@, ok) == entry_committed(old(catalog)@, entry@, source_id),
        catalog_wf(final(catalog)@),
{
    let content = match &entry.content {
        Some(c) => c,
        None => {
            return false;
        },
    };
    let mut channel = match get_channel_from_lines(&entry.header, content, source_id) {
        Ok(c) => c,
        Err(_) => {
            return false;
        },
    };
    let _ = catalog.set_channel_group_id(&mut channel, source_id);
    let id = match catalog.insert_channel(&channel) {
        Ok(id) => id,
        Err(_) => {
            return false;
        },
    };
    if entry.origin.is_none() && entry.referrer.is_none() && entry.user_agent.is_none() {
        remove_channel_headers(catalog, Some(id));
        return true;
    }
    let headers = ChannelHttpHeaders {
        id: None,
        channel_id: Some(id),
        referrer: copy_text(&entry.referrer),
        user_agent: copy_text(&entry.user_agent),
        http_origin: copy_text(&entry.origin),
        ignore_ssl: None,
    };
    insert_channel_headers(catalog, &headers).is_ok()
}

/// Store the entries in order; the result lists the closing lines of the
/// entries that were skipped or only partly stored.
pub fn commit_entries(catalog: &mut Catalog, entries: &Vec<RawEntry>, source_id: i64) -> (r: Vec<
    usize,
>)
    requires
        catalog_wf(old(catalog)@),
    ensures
        (final(catalog)@, r@) == entries_committed(old(catalog)@, raw_views(entries@), source_id),
        catalog_wf(final(catalog)@),
{
    let ghost c0 = catalog@;
    let ghost es = raw_views(entries@);
    let mut skipped: Vec<usize> = Vec::new();
    let mut i: usize = 0;
    assert(es.take(0) =~= Seq::<RawEntryView>::empty());
    while i < entries.len()
        invariant
            i <= entries.len(),
            es == raw_views(entries@),
            catalog_wf(c0),
            (catalog@, skipped@) == entries_committed(c0, es.take(i as int), source_id),
            catalog_wf(catalog@),
        decreases entries.len() - i,
    {
        assert(es.take(i + 1).drop_last() =~= es.take(i as int));
        assert(es.take(i + 1).last() == entries@[i as int]@);
        let ok = commit_channel(catalog, &entries[i], source_id);
        if !ok {
            skipped.push(entries[i].line);
        }
        i += 1;
    }
    assert(es.take(entries.len() as int) =~= es);
    skipped
}

#[derive(Debug, Clone, Copy, PartialEq, Eq, Structural)]
pub enum IngestError {
    /// A refresh was asked for a source that carries no id.
    MissingSourceId,
    /// The store could not take the source row.
    Store(StoreError),
    /// More than two of the three remote stream kinds failed.
    TooManyFailures,
    /// The source cannot serve the remote API.
    Remote(crate::xtream::XtreamError),
    /// The source's kind is none of the known ones.
    InvalidSourceType,
    /// What was fetched does not fit the source's kind.
    WrongInput,
}

/// A playlist read into the catalog: without `wipe`, the source is found by name
/// or created and the entries are upserted; with `wipe`, the source's user state
/// is snapshotted, its rows wiped, the entries stored, and the snapshot restored.
pub open spec fn playlist_ingested(
    before: CatalogView,
    after: CatalogView,
    source: crate::types::SourceView,
    lines: Seq<Seq<char>>,
    wipe: bool,
    r: Result<Seq<usize>, IngestError>,
) -> bool {
    let es = playlist_entries(lines);
    if wipe {
        match source.id {
            None => r == Err::<Seq<usize>, IngestError>(IngestError::MissingSourceId) && after
                == before,
            Some(sid) => {
                let (c1, skipped) = entries_committed(wiped(before, sid), es, sid);
                &&& r == Ok::<Seq<usize>, IngestError>(skipped)
                &&& restored(
                    c1,
                    after,
                    sid,
                    preserved_channels(before.channels, sid),
                    hidden_group_names(before.groups, sid),
                )
            },
        }
    } else {
        let (c1, sr) = source_upserted(before, source);
        match sr {
            Err(e) => r == Err::<Seq<usize>, IngestError>(IngestError::Store(e)) && after
                == before,
            Ok(sid) => {
                let (c2, skipped) = entries_committed(c1, es, sid);
                r == Ok::<Seq<usize>, IngestError>(skipped) && after == c2
            },
        }
    }
}

/// Read a playlist, given as its lines, into the catalog (see `playlist_ingested`).
pub fn read_m3u8(catalog: &mut Catalog, source: &Source, lines: &Vec<String>, wipe: bool) -> (r:
    Result<Vec<usize>, IngestError>)
    requires
        catalog_wf(old(catalog)@),
    ensures
        playlist_ingested(
            old(catalog)@,
            final(catalog)@,
            source@,
            text_lines(lines@),
            wipe,
            match r {
                Ok(v) => Ok(v@),
                Err(e) => Err(e),
            },
        ),
        catalog_wf(final(catalog)@),
{
    let entries = read_playlist(lines);
    if wipe {
        let sid = match source.id {
            Some(id) => id,
            None => {
                return Err(IngestError::MissingSourceId);
            },
        };
        let keep = catalog.snapshot(sid);
        catalog.wipe(sid);
        let skipped = commit_entries(catalog, &entries, sid);
        catalog.restore(sid, &keep);
        Ok(skipped)
    } else {
        let sid = match catalog.create_or_find_source_by_name(source) {
            Ok(id) => id,
            Err(e) => {
                return Err(IngestError::Store(e));
            },
        };
        let skipped = commit_entries(catalog, &entries, sid);
        Ok(skipped)
    }
}

/// Add a playlist source, or add to the existing source of that name.
pub fn get_m3u8(catalog: &mut Catalog, source: &Source, lines: &Vec<String>) -> (r: Result<
    Vec<usize>,
    IngestError,
>)
    requires
        catalog_wf(old(catalog)@),
    ensures
        playlist_ingested(
            old(catalog)@,
            final(catalog)@,
            source@,
            text_lines(lines@),
            false,
            match r {
                Ok(v) => Ok(v@),
                Err(e) => Err(e),
            },
        ),
        catalog_wf(final(catalog)@),
{
    read_m3u8(catalog, source, lines, false)
}


/// An entry without a content line, or without a name, is skipped: the catalog
/// is unchanged and the entry is reported.
pub proof fn lemma_malformed_entry_skipped(c: CatalogView, e: RawEntryView, source_id: i64)
    requires
        entry_channel(e, source_id) is Err,
    ensures
        entry_committed(c, e, source_id) == (c, false),
{
}

/// Adding a playlist fails only where the source row cannot be stored: bad
/// entries never fail the ingestion.
pub proof fn lemma_playlist_add_succeeds(
    before: CatalogView,
    after: CatalogView,
    source: crate::types::SourceView,
    lines: Seq<Seq<char>>,
    r: Result<Seq<usize>, IngestError>,
)
    requires
        playlist_ingested(before, after, source, lines, false, r),
        source_upserted(before, source).1 is Ok,
    ensures
        r is Ok,
{
}


/// Some entry of `es` converts to a channel named `name`.
pub open spec fn named_by(es: Seq<RawEntryView>, source_id: i64, name: Seq<char>) -> bool {
    exists|j: int|
        0 <= j < es.len() && #[trigger] entry_channel(es[j], source_id) is Ok && entry_channel(
            es[j],
            source_id,
        )->Ok_0.name == name
}

/// Storing one entry keeps every channel row's name and source, and adds at
/// most a row named by the entry.
proof fn lemma_entry_names(c: CatalogView, e: RawEntryView, source_id: i64)
    ensures
        ({
            let c2 = entry_committed(c, e, source_id).0;
            &&& c2.channels.len() >= c.channels.len()
            &&& forall|i: int|
                0 <= i < c.channels.len() ==> (#[trigger] c2.channels[i]).name
                    == c.channels[i].name && c2.channels[i].source_id == c.channels[i].source_id
            &&& forall|i: int|
                c.channels.len() <= i < c2.channels.len() ==> entry_channel(e, source_id) is Ok
                    && (#[trigger] c2.channels[i]).name == entry_channel(e, source_id)->Ok_0.name
                    && c2.channels[i].source_id == Some(source_id)
        }),
{
    match entry_channel(e, source_id) {
        Err(_) => {},
        Ok(ch) => {
            let (c1, ch1, _g) = group_resolved(c, ch, source_id);
            assert(c1.channels == c.channels);
            let k = crate::store::first_index(c1.channels, crate::store::channel_keyed(ch1));
            crate::store::lemma_first_index(c1.channels, crate::store::channel_keyed(ch1));
        },
    }
}

/// Committing entries keeps the name and source of every row that was there,
/// and every row it adds belongs to the source and is named by some entry.
pub proof fn lemma_committed_names(c: CatalogView, es: Seq<RawEntryView>, source_id: i64)
    ensures
        ({
            let r = entries_committed(c, es, source_id).0;
            &&& r.channels.len() >= c.channels.len()
            &&& forall|i: int|
                0 <= i < c.channels.len() ==> (#[trigger] r.channels[i]).name == c.channels[i].name
                    && r.channels[i].source_id == c.channels[i].source_id
            &&& forall|i: int|
                c.channels.len() <= i < r.channels.len() ==> (#[trigger] r.channels[i]).source_id
                    == Some(source_id) && named_by(es, source_id, r.channels[i].name)
        }),
    decreases es.len(),
{
    if es.len() > 0 {
        let init = es.drop_last();
        lemma_committed_names(c, init, source_id);
        let c1 = entries_committed(c, init, source_id).0;
        lemma_entry_names(c1, es.last(), source_id);
        let r = entries_committed(c, es, source_id).0;
        assert forall|i: int| c.channels.len() <= i < r.channels.len() implies (
        #[trigger] r.channels[i]).source_id == Some(source_id) && named_by(
            es,
            source_id,
            r.channels[i].name,
        ) by {
            if i < c1.channels.len() {
                assert(named_by(init, source_id, c1.channels[i].name));
                let j = choose|j: int|
                    0 <= j < init.len() && #[trigger] entry_channel(init[j], source_id) is Ok
                        && entry_channel(init[j], source_id)->Ok_0.name == c1.channels[i].name;
                assert(es[j] == init[j]);
            } else {
                assert(es[es.len() - 1] == es.last());
            }
        }
    }
}

/// A refresh of a playlist leaves no channel of the source with a name that no
/// entry of the new playlist gives: a favorite gone upstream is not recreated.
pub proof fn lemma_refresh_drops_absent(
    before: CatalogView,
    after: CatalogView,
    source: crate::types::SourceView,
    lines: Seq<Seq<char>>,
    r: Result<Seq<usize>, IngestError>,
    name: Seq<char>,
)
    requires
        playlist_ingested(before, after, source, lines, true, r),
        source.id is Some,
        !named_by(playlist_entries(lines), source.id->0, name),
    ensures
        forall|i: int|
            0 <= i < after.channels.len() && (#[trigger] after.channels[i]).source_id == Some(
                source.id->0,
            ) ==> after.channels[i].name != name,
{
    let sid = source.id->0;
    let es = playlist_entries(lines);
    let w = crate::store::wiped(before, sid);
    lemma_committed_names(w, es, sid);
    let c1 = entries_committed(w, es, sid).0;
    assert forall|i: int|
        0 <= i < after.channels.len() && (#[trigger] after.channels[i]).source_id == Some(
            sid,
        ) implies after.channels[i].name != name by {
        assert(after.channels[i] == crate::store::restored_channel(
            c1.channels[i],
            sid,
            crate::store::preserved_channels(before.channels, sid),
        ));
        if i < w.channels.len() {
            w.channels.lemma_filter_pred(crate::store::channel_not_of(sid), i);
        }
    }
}


/// The catalog has a channel of the source with this name.
pub open spec fn has_channel(c: CatalogView, source_id: i64, name: Seq<char>) -> bool {
    exists|i: int|
        0 <= i < c.channels.len() && (#[trigger] c.channels[i]).source_id == Some(source_id)
            && c.channels[i].name == name
}

/// Storing one entry uses at most three row ids, and where ids remain, leaves
/// a channel of the source with the entry's name.
proof fn lemma_entry_present(c: CatalogView, e: RawEntryView, source_id: i64)
    ensures
        ({
            let c2 = entry_committed(c, e, source_id).0;
            &&& c.next_id <= c2.next_id <= c.next_id + 3
            &&& entry_channel(e, source_id) is Ok && c.next_id + 2 < i64::MAX ==> has_channel(
                c2,
                source_id,
                entry_channel(e, source_id)->Ok_0.name,
            )
        }),
{
    lemma_entry_names(c, e, source_id);
    match entry_channel(e, source_id) {
        Err(_) => {},
        Ok(ch) => {
            let (c1, ch1, _g) = group_resolved(c, ch, source_id);
            let p = crate::store::channel_keyed(ch1);
            crate::store::lemma_first_index(c1.channels, p);
            let k = crate::store::first_index(c1.channels, p);
            let (c2, rr) = channel_upserted(c1, ch1);
            if c.next_id + 2 < i64::MAX {
                let idx = if k < c1.channels.len() {
                    k
                } else {
                    c1.channels.len() as int
                };
                assert(c2.channels[idx].source_id == Some(source_id) && c2.channels[idx].name
                    == ch.name);
                let c3 = entry_committed(c, e, source_id).0;
                assert(c3.channels[idx] == c2.channels[idx]) by {
                    match rr {
                        Ok(id) => match entry_headers(e, id) {
                            None => {},
                            Some(h) => {},
                        },
                        Err(_) => {},
                    }
                }
            }
        },
    }
}

/// Committing entries uses at most three row ids per entry; where enough ids
/// remain, every entry that converts leaves a channel of the source with its name.
pub proof fn lemma_committed_present(c: CatalogView, es: Seq<RawEntryView>, source_id: i64)
    ensures
        ({
            let r = entries_committed(c, es, source_id).0;
            &&& c.next_id <= r.next_id <= c.next_id + 3 * es.len()
            &&& c.next_id + 3 * es.len() < i64::MAX ==> forall|j: int|
                0 <= j < es.len() && #[trigger] entry_channel(es[j], source_id) is Ok ==> has_channel(
                    r,
                    source_id,
                    entry_channel(es[j], source_id)->Ok_0.name,
                )
        }),
    decreases es.len(),
{
    if es.len() > 0 {
        let init = es.drop_last();
        lemma_committed_present(c, init, source_id);
        let c1 = entries_committed(c, init, source_id).0;
        lemma_entry_present(c1, es.last(), source_id);
        lemma_entry_names(c1, es.last(), source_id);
        let r = entries_committed(c, es, source_id).0;
        if c.next_id + 3 * es.len() < i64::MAX {
            assert forall|j: int|
                0 <= j < es.len() && #[trigger] entry_channel(es[j], source_id) is Ok implies has_channel(
                r,
                source_id,
                entry_channel(es[j], source_id)->Ok_0.name,
            ) by {
                if j < init.len() {
                    assert(es[j] == init[j]);
                    let n = entry_channel(es[j], source_id)->Ok_0.name;
                    assert(has_channel(c1, source_id, n));
                    let i = choose|i: int|
                        0 <= i < c1.channels.len() && (#[trigger] c1.channels[i]).source_id == Some(
                            source_id,
                        ) && c1.channels[i].name == n;
                    assert(r.channels[i].name == n);
                } else {
                    assert(es[j] == es.last());
                }
            }
        }
    }
}

/// A refresh keeps favorites present upstream: where a non-episode channel of
/// the source named `name` was favorite (and every such channel of that name
/// was), and some entry of the new playlist gives that name, the source has a
/// favorite channel of that name afterwards, provided row ids do not run out.
pub proof fn lemma_refresh_keeps_favorite(
    before: CatalogView,
    after: CatalogView,
    source: crate::types::SourceView,
    lines: Seq<Seq<char>>,
    r: Result<Seq<usize>, IngestError>,
    name: Seq<char>,
)
    requires
        playlist_ingested(before, after, source, lines, true, r),
        source.id is Some,
        named_by(playlist_entries(lines), source.id->0, name),
        before.next_id + 3 * playlist_entries(lines).len() < i64::MAX,
        exists|j: int|
            0 <= j < before.channels.len() && #[trigger] crate::store::preservable(source.id->0)(
                before.channels[j],
            ) && before.channels[j].favorite && before.channels[j].name == name,
        forall|j: int|
            0 <= j < before.channels.len() && #[trigger] crate::store::preservable(source.id->0)(
                before.channels[j],
            ) && before.channels[j].name == name ==> before.channels[j].favorite,
    ensures
        exists|i: int|
            0 <= i < after.channels.len() && (#[trigger] after.channels[i]).source_id == Some(
                source.id->0,
            ) && after.channels[i].name == name && after.channels[i].favorite,
{
    let sid = source.id->0;
    let es = playlist_entries(lines);
    let w = crate::store::wiped(before, sid);
    lemma_committed_present(w, es, sid);
    let c1 = entries_committed(w, es, sid).0;
    let j = choose|j: int|
        0 <= j < es.len() && #[trigger] entry_channel(es[j], sid) is Ok && entry_channel(
            es[j],
            sid,
        )->Ok_0.name == name;
    assert(has_channel(c1, sid, name));
    let i = choose|i: int|
        0 <= i < c1.channels.len() && (#[trigger] c1.channels[i]).source_id == Some(sid)
            && c1.channels[i].name == name;
    crate::store::lemma_restore_keeps_favorites(before, c1, after, sid, i);
    assert(after.channels[i] == crate::store::restored_channel(
        c1.channels[i],
        sid,
        crate::store::preserved_channels(before.channels, sid),
    ));
}


/// At most one group row has this name in this source.
pub open spec fn group_at_most_once(c: CatalogView, name: Seq<char>, source_id: i64) -> bool {
    forall|a: int, b: int|
        0 <= a < b < c.groups.len() ==> !(#[trigger] crate::store::group_keyed(name, source_id)(
            c.groups[a],
        ) && #[trigger] crate::store::group_keyed(name, source_id)(c.groups[b]))
}

pub open spec fn group_present(c: CatalogView, name: Seq<char>, source_id: i64) -> bool {
    exists|k: int|
        0 <= k < c.groups.len() && #[trigger] crate::store::group_keyed(name, source_id)(
            c.groups[k],
        )
}

/// Every channel row of the source labelled with this group points at a group
/// row of that name in the source.
pub open spec fn label_linked(c: CatalogView, name: Seq<char>, source_id: i64) -> bool {
    forall|i: int|
        0 <= i < c.channels.len() && (#[trigger] c.channels[i]).source_id == Some(source_id)
            && c.channels[i].group == Some(name) ==> exists|k: int|
            0 <= k < c.groups.len() && #[trigger] crate::store::group_keyed(name, source_id)(
                c.groups[k],
            ) && c.channels[i].group_id == Some(c.groups[k].id)
}

/// Groups only grow while entries are stored: rows keep their id, name and source.
pub open spec fn groups_kept(c: CatalogView, c2: CatalogView) -> bool {
    &&& c2.groups.len() >= c.groups.len()
    &&& forall|k: int|
        0 <= k < c.groups.len() ==> (#[trigger] c2.groups[k]).id == c.groups[k].id
            && c2.groups[k].name == c.groups[k].name && c2.groups[k].source_id
            == c.groups[k].source_id
}

proof fn lemma_group_step(
    c: CatalogView,
    n: Seq<char>,
    image: Option<Seq<char>>,
    source_id: i64,
    kind: u8,
    name: Seq<char>,
)
    requires
        group_at_most_once(c, name, source_id),
        c.next_id < i64::MAX,
    ensures
        ({
            let (c1, r) = crate::store::group_upserted(c, n, image, source_id, kind);
            &&& r is Ok
            &&& groups_kept(c, c1)
            &&& c1.channels == c.channels
            &&& group_at_most_once(c1, name, source_id)
            &&& exists|k: int|
                0 <= k < c1.groups.len() && #[trigger] crate::store::group_keyed(n, source_id)(
                    c1.groups[k],
                ) && r == Ok::<i64, crate::store::StoreError>(c1.groups[k].id)
            &&& c1.next_id <= c.next_id + 1
            &&& c1.next_id >= c.next_id
        }),
{
    let p = crate::store::group_keyed(n, source_id);
    let q = crate::store::group_keyed(name, source_id);
    crate::store::lemma_first_index(c.groups, p);
    let k = crate::store::first_index(c.groups, p);
    let (c1, r) = crate::store::group_upserted(c, n, image, source_id, kind);
    if k < c.groups.len() {
        assert(p(c1.groups[k]));
        assert forall|a: int, b: int| 0 <= a < b < c1.groups.len() implies !(#[trigger] q(
            c1.groups[a],
        ) && #[trigger] q(c1.groups[b])) by {
            assert(q(c1.groups[a]) == q(c.groups[a]));
            assert(q(c1.groups[b]) == q(c.groups[b]));
        }
    } else {
        let m = c.groups.len() as int;
        assert(p(c1.groups[m]));
        assert forall|a: int, b: int| 0 <= a < b < c1.groups.len() implies !(#[trigger] q(
            c1.groups[a],
        ) && #[trigger] q(c1.groups[b])) by {
            if b == m && q(c1.groups[b]) {
                assert(n == name);
                assert(!p(c.groups[a]));
                assert(c1.groups[a] == c.groups[a]);
            } else if b < m {
                assert(c1.groups[a] == c.groups[a]);
                assert(c1.groups[b] == c.groups[b]);
            }
        }
    }
}

proof fn lemma_entry_groups(c: CatalogView, e: RawEntryView, source_id: i64, name: Seq<char>)
    requires
        group_at_most_once(c, name, source_id),
        label_linked(c, name, source_id),
        c.next_id + 2 < i64::MAX,
    ensures
        ({
            let c2 = entry_committed(c, e, source_id).0;
            &&& group_at_most_once(c2, name, source_id)
            &&& label_linked(c2, name, source_id)
            &&& groups_kept(c, c2)
            &&& (entry_channel(e, source_id) is Ok && entry_channel(e, source_id)->Ok_0.group
                == Some(name) ==> group_present(c2, name, source_id))
        }),
{
    let q = crate::store::group_keyed(name, source_id);
    match entry_channel(e, source_id) {
        Err(_) => {},
        Ok(ch) => {
            let (c1, ch1, _g) = group_resolved(c, ch, source_id);
            match ch.group {
                None => {},
                Some(n) => {
                    lemma_group_step(c, n, ch.image, source_id, ch.media_type, name);
                },
            }
            assert(groups_kept(c, c1));
            assert(group_at_most_once(c1, name, source_id));
            assert(label_linked(c1, name, source_id)) by {
                assert forall|i: int|
                    0 <= i < c1.channels.len() && (#[trigger] c1.channels[i]).source_id == Some(
                        source_id,
                    ) && c1.channels[i].group == Some(name) implies exists|k: int|
                    0 <= k < c1.groups.len() && #[trigger] q(c1.groups[k])
                        && c1.channels[i].group_id == Some(c1.groups[k].id) by {
                    assert(c1.channels[i] == c.channels[i]);
                    let k = choose|k: int|
                        0 <= k < c.groups.len() && #[trigger] q(c.groups[k])
                            && c.channels[i].group_id == Some(c.groups[k].id);
                    assert(q(c1.groups[k]));
                }
            }
            let p = crate::store::channel_keyed(ch1);
            crate::store::lemma_first_index(c1.channels, p);
            let (c2, rr) = channel_upserted(c1, ch1);
            assert(c2.groups == c1.groups);
            assert(label_linked(c2, name, source_id)) by {
                assert forall|i: int|
                    0 <= i < c2.channels.len() && (#[trigger] c2.channels[i]).source_id == Some(
                        source_id,
                    ) && c2.channels[i].group == Some(name) implies exists|k: int|
                    0 <= k < c2.groups.len() && #[trigger] q(c2.groups[k])
                        && c2.channels[i].group_id == Some(c2.groups[k].id) by {
                    if i < c1.channels.len() {
                        assert(c2.channels[i].group == c1.channels[i].group);
                        assert(c2.channels[i].group_id == c1.channels[i].group_id);
                        assert(c2.channels[i].source_id == c1.channels[i].source_id);
                    } else {
                        assert(c2.channels[i].group == ch.group);
                    }
                }
            }
            let c3 = entry_committed(c, e, source_id).0;
            assert(c3.channels == c2.channels && c3.groups == c2.groups) by {
                match rr {
                    Ok(id) => match entry_headers(e, id) {
                        None => {},
                        Some(h) => {},
                    },
                    Err(_) => {},
                }
            }
        },
    }
}

/// Storing entries keeps one group row per label and links every labelled
/// channel row of the source to it, where enough row ids remain.
pub proof fn lemma_committed_groups(
    c: CatalogView,
    es: Seq<RawEntryView>,
    source_id: i64,
    name: Seq<char>,
)
    requires
        group_at_most_once(c, name, source_id),
        label_linked(c, name, source_id),
        c.next_id + 3 * es.len() < i64::MAX,
    ensures
        ({
            let r = entries_committed(c, es, source_id).0;
            &&& group_at_most_once(r, name, source_id)
            &&& label_linked(r, name, source_id)
            &&& groups_kept(c, r)
            &&& (exists|j: int|
                0 <= j < es.len() && #[trigger] entry_channel(es[j], source_id) is Ok
                    && entry_channel(es[j], source_id)->Ok_0.group == Some(name)) ==> group_present(
                r,
                name,
                source_id,
            )
        }),
    decreases es.len(),
{
    if es.len() > 0 {
        let init = es.drop_last();
        lemma_committed_groups(c, init, source_id, name);
        lemma_committed_present(c, init, source_id);
        let c1 = entries_committed(c, init, source_id).0;
        lemma_entry_groups(c1, es.last(), source_id, name);
        let r = entries_committed(c, es, source_id).0;
        let q = crate::store::group_keyed(name, source_id);
        if exists|j: int|
            0 <= j < es.len() && #[trigger] entry_channel(es[j], source_id) is Ok && entry_channel(
                es[j],
                source_id,
            )->Ok_0.group == Some(name) {
            let j = choose|j: int|
                0 <= j < es.len() && #[trigger] entry_channel(es[j], source_id) is Ok
                    && entry_channel(es[j], source_id)->Ok_0.group == Some(name);
            if j < init.len() {
                assert(es[j] == init[j]);
                assert(group_present(c1, name, source_id));
                let k = choose|k: int| 0 <= k < c1.groups.len() && #[trigger] q(c1.groups[k]);
                assert(q(r.groups[k]));
            } else {
                assert(es[j] == es.last());
            }
        }
    }
}

/// Adding a playlist to a source that has no group with a label, where some
/// entry carries that label: afterwards exactly one group row of the source
/// has it, and every channel row of the source labelled with it points at
/// that row. Row ids must not run out.
pub proof fn lemma_playlist_one_group(
    before: CatalogView,
    after: CatalogView,
    source: crate::types::SourceView,
    lines: Seq<Seq<char>>,
    r: Result<Seq<usize>, IngestError>,
    name: Seq<char>,
)
    requires
        playlist_ingested(before, after, source, lines, false, r),
        source_upserted(before, source).1 is Ok,
        before.next_id + 1 + 3 * playlist_entries(lines).len() < i64::MAX,
        ({
            let sid = source_upserted(before, source).1->Ok_0;
            &&& forall|k: int|
                0 <= k < before.groups.len() ==> !#[trigger] crate::store::group_keyed(name, sid)(
                    before.groups[k],
                )
            &&& forall|i: int|
                0 <= i < before.channels.len() ==> (#[trigger] before.channels[i]).source_id
                    != Some(sid)
            &&& exists|j: int|
                0 <= j < playlist_entries(lines).len() && #[trigger] entry_channel(
                    playlist_entries(lines)[j],
                    sid,
                ) is Ok && entry_channel(playlist_entries(lines)[j], sid)->Ok_0.group == Some(name)
        }),
    ensures
        ({
            let sid = source_upserted(before, source).1->Ok_0;
            &&& exists|k: int|
                0 <= k < after.groups.len() && #[trigger] crate::store::group_keyed(name, sid)(
                    after.groups[k],
                ) && (forall|m: int|
                    0 <= m < after.groups.len() && #[trigger] crate::store::group_keyed(name, sid)(
                        after.groups[m],
                    ) ==> m == k) && (forall|i: int|
                    0 <= i < after.channels.len() && (#[trigger] after.channels[i]).source_id
                        == Some(sid) && after.channels[i].group == Some(name)
                        ==> after.channels[i].group_id == Some(after.groups[k].id))
        }),
{
    let sid = source_upserted(before, source).1->Ok_0;
    let c1 = source_upserted(before, source).0;
    let es = playlist_entries(lines);
    let q = crate::store::group_keyed(name, sid);
    assert(c1.groups == before.groups);
    assert forall|i: int|
        0 <= i < c1.channels.len() implies (#[trigger] c1.channels[i]).source_id != Some(sid) by {
        assert(c1.channels[i] == before.channels[i]);
    }
    lemma_committed_groups(c1, es, sid, name);
    assert(after == entries_committed(c1, es, sid).0);
    let k = choose|k: int| 0 <= k < after.groups.len() && #[trigger] q(after.groups[k]);
    assert forall|m: int| 0 <= m < after.groups.len() && #[trigger] q(after.groups[m]) implies m
        == k by {
        if m < k {
            assert(!(q(after.groups[m]) && q(after.groups[k])));
        } else if k < m {
            assert(!(q(after.groups[k]) && q(after.groups[m])));
        }
    }
    assert forall|i: int|
        0 <= i < after.channels.len() && (#[trigger] after.channels[i]).source_id == Some(sid)
            && after.channels[i].group == Some(name) implies after.channels[i].group_id == Some(
        after.groups[k].id,
    ) by {
        let kk = choose|kk: int|
            0 <= kk < after.groups.len() && #[trigger] q(after.groups[kk])
                && after.channels[i].group_id == Some(after.groups[kk].id);
        if kk < k {
            assert(!(q(after.groups[kk]) && q(after.groups[k])));
        } else if k < kk {
            assert(!(q(after.groups[k]) && q(after.groups[kk])));
        }
    }
}


/// The channels of the entries that convert, in order; the others give none.
pub open spec fn converted(es: Seq<RawEntryView>, source_id: i64) -> Seq<ChannelView>
    decreases es.len(),
{
    if es.len() == 0 {
        Seq::empty()
    } else {
        let r = converted(es.drop_last(), source_id);
        match entry_channel(es.last(), source_id) {
            Ok(ch) => r.push(ch),
            Err(_) => r,
        }
    }
}

/// No two converted channels share a natural key.
pub open spec fn distinct_keys(s: Seq<ChannelView>) -> bool {
    forall|a: int, b: int|
        0 <= a < b < s.len() ==> !crate::store::same_channel_key(#[trigger] s[a], #[trigger] s[b])
}

/// Storing entries on a source that has no channel rows, where the converting
/// entries have distinct keys and row ids suffice, appends exactly one row per
/// converting entry, in order, and changes no other row's name or source.
pub proof fn lemma_committed_count(c: CatalogView, es: Seq<RawEntryView>, source_id: i64)
    requires
        forall|i: int| 0 <= i < c.channels.len() ==> (#[trigger] c.channels[i]).source_id != Some(source_id),
        distinct_keys(converted(es, source_id)),
        c.next_id + 3 * es.len() < i64::MAX,
    ensures
        ({
            let r = entries_committed(c, es, source_id).0;
            let cv = converted(es, source_id);
            &&& r.channels.len() == c.channels.len() + cv.len()
            &&& forall|t: int|
                0 <= t < cv.len() ==> crate::store::same_channel_key(
                    #[trigger] r.channels[c.channels.len() + t],
                    cv[t],
                )
        }),
    decreases es.len(),
{
    if es.len() > 0 {
        let init = es.drop_last();
        let cv0 = converted(init, source_id);
        let cv = converted(es, source_id);
        assert(distinct_keys(cv0)) by {
            assert forall|a: int, b: int| 0 <= a < b < cv0.len() implies !crate::store::same_channel_key(
                #[trigger] cv0[a],
                #[trigger] cv0[b],
            ) by {
                assert(cv[a] == cv0[a] && cv[b] == cv0[b]);
            }
        }
        lemma_committed_count(c, init, source_id);
        lemma_committed_present(c, init, source_id);
        lemma_committed_names(c, init, source_id);
        let c1 = entries_committed(c, init, source_id).0;
        let n = c.channels.len() as int;
        let e = es.last();
        match entry_channel(e, source_id) {
            Err(_) => {
                assert(cv == cv0);
            },
            Ok(ch) => {
                assert(cv == cv0.push(ch));
                let (g1, ch1, _g) = group_resolved(c1, ch, source_id);
                assert(g1.channels == c1.channels);
                let p = crate::store::channel_keyed(ch1);
                assert forall|i: int| 0 <= i < g1.channels.len() implies !p(
                    #[trigger] g1.channels[i],
                ) by {
                    if i < n {
                        assert(c1.channels[i].source_id == c.channels[i].source_id);
                    } else {
                        let t = i - n;
                        assert(crate::store::same_channel_key(c1.channels[n + t], cv0[t]));
                        assert(cv[t] == cv0[t]);
                        assert(cv[cv0.len() as int] == ch);
                        assert(!crate::store::same_channel_key(cv[t], cv[cv0.len() as int]));
                    }
                }
                crate::store::lemma_first_index(g1.channels, p);
                if crate::store::first_index(g1.channels, p) < g1.channels.len() {
                    assert(!p(g1.channels[crate::store::first_index(g1.channels, p)]));
                }
                let (c2, rr) = channel_upserted(g1, ch1);
                let c3 = entries_committed(c, es, source_id).0;
                assert(c3.channels == c2.channels) by {
                    match rr {
                        Ok(id) => match entry_headers(e, id) {
                            None => {},
                            Some(h) => {},
                        },
                        Err(_) => {},
                    }
                }
                assert forall|t: int| 0 <= t < cv.len() implies crate::store::same_channel_key(
                    #[trigger] c3.channels[n + t],
                    cv[t],
                ) by {
                    if t < cv0.len() {
                        assert(cv[t] == cv0[t]);
                        assert(c3.channels[n + t] == c1.channels[n + t]);
                    }
                }
            },
        }
    }
}

/// Adding a playlist to a source with no rows yet, where the well-formed entries
/// have distinct (name, url): the ingestion succeeds, and the source then has
/// exactly one channel row per well-formed entry, with that entry's key;
/// malformed entries add nothing. Row ids must not run out.
pub proof fn lemma_playlist_count(
    before: CatalogView,
    after: CatalogView,
    source: crate::types::SourceView,
    lines: Seq<Seq<char>>,
    r: Result<Seq<usize>, IngestError>,
)
    requires
        playlist_ingested(before, after, source, lines, false, r),
        before.next_id + 1 + 3 * playlist_entries(lines).len() < i64::MAX,
        forall|i: int|
            0 <= i < before.channels.len() ==> (#[trigger] before.channels[i]).source_id != Some(
                source_upserted(before, source).1->Ok_0,
            ),
        distinct_keys(converted(playlist_entries(lines), source_upserted(before, source).1->Ok_0)),
    ensures
        r is Ok,
        ({
            let sid = source_upserted(before, source).1->Ok_0;
            let cv = converted(playlist_entries(lines), sid);
            &&& after.channels.len() == before.channels.len() + cv.len()
            &&& forall|i: int|
                0 <= i < before.channels.len() ==> (#[trigger] after.channels[i]).source_id
                    != Some(sid)
            &&& forall|t: int|
                0 <= t < cv.len() ==> crate::store::same_channel_key(
                    #[trigger] after.channels[before.channels.len() + t],
                    cv[t],
                ) && after.channels[before.channels.len() + t].source_id == Some(sid)
        }),
{
    crate::store::lemma_first_index(before.sources, crate::store::source_named(source.name));
    let sid = source_upserted(before, source).1->Ok_0;
    let c1 = source_upserted(before, source).0;
    let es = playlist_entries(lines);
    assert(c1.channels == before.channels);
    lemma_committed_count(c1, es, sid);
    lemma_committed_names(c1, es, sid);
    assert(after == entries_committed(c1, es, sid).0);
    let cv = converted(es, sid);
    assert forall|t: int| 0 <= t < cv.len() implies crate::store::same_channel_key(
        #[trigger] after.channels[before.channels.len() + t],
        cv[t],
    ) && after.channels[before.channels.len() + t].source_id == Some(sid) by {
        assert(crate::store::same_channel_key(after.channels[before.channels.len() + t], cv[t]));
        lemma_converted_source(es, sid, t);
    }
}

proof fn lemma_converted_source(es: Seq<RawEntryView>, source_id: i64, t: int)
    requires
        0 <= t < converted(es, source_id).len(),
    ensures
        converted(es, source_id)[t].source_id == Some(source_id),
    decreases es.len(),
{
    if es.len() > 0 {
        let cv0 = converted(es.drop_last(), source_id);
        if t < cv0.len() {
            lemma_converted_source(es.drop_last(), source_id, t);
        }
    }
}


/// Storing entries leaves the source rows as they were.
pub proof fn lemma_committed_sources(c: CatalogView, es: Seq<RawEntryView>, source_id: i64)
    ensures
        entries_committed(c, es, source_id).0.sources == c.sources,
    decreases es.len(),
{
    if es.len() > 0 {
        lemma_committed_sources(c, es.drop_last(), source_id);
        let c1 = entries_committed(c, es.drop_last(), source_id).0;
        let e = es.last();
        match entry_channel(e, source_id) {
            Err(_) => {},
            Ok(ch) => {
                let (g1, ch1, _g) = group_resolved(c1, ch, source_id);
                let (c2, rr) = channel_upserted(g1, ch1);
                match rr {
                    Ok(id) => match entry_headers(e, id) {
                        None => {},
                        Some(h) => {},
                    },
                    Err(_) => {},
                }
            },
        }
    }
}

} // verus!
