//! Refresh and add of a source by its kind, and small text helpers for
//! recordings and per-source transport settings.
use vstd::prelude::*;
use crate::kinds::{CUSTOM, M3U, M3U_LINK, XTREAM};
use crate::m3u::{playlist_ingested, read_m3u8, text_lines, IngestError};
use crate::store::{
    catalog_wf, first_index, last_updated_set, lemma_first_index, source_named, source_upserted,
    sources_edited, Catalog, CatalogView,
};
use crate::text::{chars_of, is_blank, is_blank_chars, string_of};
use crate::types::{Source, SourceView};
use crate::xtream::{get_xtream, xtream_ingested, XtreamData};

verus! {

/// What was fetched for a source before its ingestion.
#[derive(Clone, Debug)]
pub enum Fetched {
    /// The lines of a playlist file or download.
    Lines(Vec<String>),
    /// The listings of a remote API.
    Remote(XtreamData),
    /// Nothing: a custom source has no upstream.
    Nothing,
}

/// An ingestion of a source by its kind: playlists read lines, remote APIs
/// read listings; a custom source has nothing upstream, so adding one only
/// finds or creates its row and refreshing one changes nothing.
pub open spec fn source_ingested(
    before: CatalogView,
    after: CatalogView,
    src: SourceView,
    fetched: Fetched,
    wipe: bool,
    r: Result<Seq<usize>, IngestError>,
) -> bool {
    if src.source_type == M3U || src.source_type == M3U_LINK {
        match fetched {
            Fetched::Lines(lines) => playlist_ingested(before, after, src, text_lines(lines@), wipe, r),
            _ => r == Err::<Seq<usize>, IngestError>(IngestError::WrongInput) && after == before,
        }
    } else if src.source_type == XTREAM {
        match fetched {
            Fetched::Remote(d) => xtream_ingested(
                before,
                after,
                src,
                d,
                wipe,
                match r {
                    Ok(_) => Ok(()),
                    Err(e) => Err(e),
                },
            ) && (r is Ok ==> r == Ok::<Seq<usize>, IngestError>(Seq::empty())),
            _ => r == Err::<Seq<usize>, IngestError>(IngestError::WrongInput) && after == before,
        }
    } else if src.source_type == CUSTOM {
        if wipe {
            r == Ok::<Seq<usize>, IngestError>(Seq::empty()) && after == before
        } else {
            match source_upserted(before, src) {
                (c1, Ok(_)) => r == Ok::<Seq<usize>, IngestError>(Seq::empty()) && after == c1,
                (_, Err(e)) => r == Err::<Seq<usize>, IngestError>(IngestError::Store(e)) && after
                    == before,
            }
        }
    } else {
        r == Err::<Seq<usize>, IngestError>(IngestError::InvalidSourceType) && after == before
    }
}

pub open spec fn result_view(r: Result<Vec<usize>, IngestError>) -> Result<Seq<usize>, IngestError> {
    match r {
        Ok(v) => Ok(v@),
        Err(e) => Err(e),
    }
}

fn ingest(catalog: &mut Catalog, source: &Source, fetched: &Fetched, wipe: bool) -> (r: Result<
    Vec<usize>,
    IngestError,
>)
    requires
        catalog_wf(old(catalog)@),
    ensures
        source_ingested(old(catalog)@, final(catalog)@, source@, *fetched, wipe, result_view(r)),
        catalog_wf(final(catalog)@),
{
    let t = source.source_type;
    if t == M3U || t == M3U_LINK {
        match fetched {
            Fetched::Lines(lines) => read_m3u8(catalog, source, lines, wipe),
            _ => Err(IngestError::WrongInput),
        }
    } else if t == XTREAM {
        match fetched {
            Fetched::Remote(d) => {
                let r = get_xtream(catalog, source, d, wipe);
                match r {
                    Ok(()) => {
                        let v: Vec<usize> = Vec::new();
                        assert(v@ =~= Seq::<usize>::empty());
                        Ok(v)
                    },
                    Err(e) => Err(e),
                }
            },
            _ => Err(IngestError::WrongInput),
        }
    } else if t == CUSTOM {
        if !wipe {
            match catalog.create_or_find_source_by_name(source) {
                Ok(_) => {},
                Err(e) => {
                    return Err(IngestError::Store(e));
                },
            }
        }
        let v: Vec<usize> = Vec::new();
        assert(v@ =~= Seq::<usize>::empty());
        Ok(v)
    } else {
        Err(IngestError::InvalidSourceType)
    }
}

/// Refresh a source: a destructive re-ingestion that keeps user state (see
/// `source_ingested` with `wipe`), then `now` recorded as its last update.
pub fn refresh_source(catalog: &mut Catalog, source: &Source, fetched: &Fetched, now: i64) -> (r:
    Result<Vec<usize>, IngestError>)
    requires
        catalog_wf(old(catalog)@),
    ensures
        r is Err ==> source_ingested(
            old(catalog)@,
            final(catalog)@,
            source@,
            *fetched,
            true,
            result_view(r),
        ),
        r is Ok ==> exists|mid: CatalogView|
            source_ingested(old(catalog)@, mid, source@, *fetched, true, result_view(r)) && (match source@.id {
                Some(id) => sources_edited(mid, final(catalog)@, id, last_updated_set(now)),
                None => final(catalog)@ == mid,
            }),
        catalog_wf(final(catalog)@),
{
    let r = ingest(catalog, source, fetched, true);
    if r.is_ok() {
        let ghost mid = catalog@;
        match source.id {
            Some(id) => catalog.set_last_updated(id, now),
            None => {},
        }
        assert(source_ingested(old(catalog)@, mid, source@, *fetched, true, result_view(r)));
    }
    r
}

/// Add a source, or add to the source of the same name (see `source_ingested`
/// without `wipe`).
pub fn add_source(catalog: &mut Catalog, source: &Source, fetched: &Fetched) -> (r: Result<
    Vec<usize>,
    IngestError,
>)
    requires
        catalog_wf(old(catalog)@),
    ensures
        source_ingested(old(catalog)@, final(catalog)@, source@, *fetched, false, result_view(r)),
        catalog_wf(final(catalog)@),
{
    ingest(catalog, source, fetched, false)
}

/// The characters that file names may not hold: `<>:"/\|?*` and the control
/// characters up to U+001F.
pub open spec fn illegal_in_file_name(c: char) -> bool {
    c == '<' || c == '>' || c == ':' || c == '"' || c == '/' || c == '\\' || c == '|' || c
        == '?' || c == '*' || (c as u32) <= 0x1f
}

pub open spec fn legal_in_file_name() -> spec_fn(char) -> bool {
    |c: char| !illegal_in_file_name(c)
}

/// The text without the characters that file names may not hold.
pub fn sanitize(s: &String) -> (r: String)
    ensures
        r@ == s@.filter(legal_in_file_name()),
{
    let v = chars_of(s.as_str());
    let mut out: Vec<char> = Vec::new();
    let mut i: usize = 0;
    assert(v@.take(0).filter(legal_in_file_name()) =~= Seq::<char>::empty()) by {
        reveal(Seq::filter);
    }
    while i < v.len()
        invariant
            i <= v.len(),
            out@ == v@.take(i as int).filter(legal_in_file_name()),
        decreases v.len() - i,
    {
        proof {
            crate::store::lemma_filter_take_step(v@, legal_in_file_name(), i as int);
        }
        let c = v[i];
        let bad = c == '<' || c == '>' || c == ':' || c == '"' || c == '/' || c == '\\' || c
            == '|' || c == '?' || c == '*' || (c as u32) <= 0x1f;
        if !bad {
            out.push(c);
        }
        i += 1;
    }
    assert(v@.take(v.len() as int) =~= v@);
    string_of(&out)
}

/// The text after the last `.` (all of it where there is none).
pub open spec fn after_last_dot(s: Seq<char>) -> Seq<char>
    decreases s.len(),
{
    if s.len() == 0 {
        s
    } else if s.last() == '.' {
        Seq::empty()
    } else {
        after_last_dot(s.drop_last()).push(s.last())
    }
}

/// The file name of a recording: the sanitized channel name, a dot, and the
/// url's extension (the text after its last dot).
pub fn get_filename(channel_name: &String, url: &String) -> (r: String)
    ensures
        r@ == sanitize_spec(channel_name@) + seq!['.'] + after_last_dot(url@),
{
    let u = chars_of(url.as_str());
    let mut start: usize = u.len();
    assert(u@.take(u.len() as int) =~= u@);
    assert(u@.skip(u.len() as int) =~= Seq::<char>::empty());
    assert(after_last_dot(u@) + Seq::<char>::empty() =~= after_last_dot(u@));
    while start > 0 && u[start - 1] != '.'
        invariant
            start <= u.len(),
            after_last_dot(u@) == after_last_dot(u@.take(start as int)) + u@.skip(start as int),
        decreases start,
    {
        assert(u@.take(start as int).drop_last() =~= u@.take(start - 1));
        assert(u@.skip(start - 1) =~= seq![u@[start - 1]] + u@.skip(start as int));
        assert(after_last_dot(u@.take(start as int)) == after_last_dot(u@.take(start - 1)).push(
            u@[start - 1],
        ));
        assert(after_last_dot(u@.take(start - 1)).push(u@[start - 1]) + u@.skip(start as int)
            =~= after_last_dot(u@.take(start - 1)) + u@.skip(start - 1));
        start -= 1;
    }
    proof {
        if start == 0 {
            assert(u@.take(0) =~= Seq::<char>::empty());
        } else {
            assert(u@.take(start as int).last() == '.');
        }
        assert(u@.skip(start as int) =~= u@.subrange(start as int, u@.len() as int));
    }
    let name = chars_of(sanitize(channel_name).as_str());
    let mut out: Vec<char> = Vec::new();
    let mut i: usize = 0;
    while i < name.len()
        invariant
            i <= name.len(),
            out@ == name@.take(i as int),
        decreases name.len() - i,
    {
        out.push(name[i]);
        assert(name@.take(i + 1) =~= name@.take(i as int).push(name@[i as int]));
        i += 1;
    }
    assert(name@.take(name.len() as int) =~= name@);
    out.push('.');
    let ghost base = out@;
    let mut k: usize = start;
    while k < u.len()
        invariant
            start <= k <= u.len(),
            out@ == base + u@.subrange(start as int, k as int),
        decreases u.len() - k,
    {
        out.push(u[k]);
        assert(u@.subrange(start as int, k + 1) =~= u@.subrange(start as int, k as int).push(
            u@[k as int],
        ));
        k += 1;
    }
    assert(out@ =~= name@ + seq!['.'] + u@.subrange(start as int, u@.len() as int));
    string_of(&out)
}

pub open spec fn sanitize_spec(s: Seq<char>) -> Seq<char> {
    s.filter(legal_in_file_name())
}

/// The user agent to send for a source's streams: its own where set and not
/// blank, else none.
pub fn get_user_agent_from_source(source: &Source) -> (r: Option<String>)
    ensures
        r.deep_view() == match source@.user_agent {
            Some(u) => if is_blank(u) {
                None
            } else {
                Some(u)
            },
            None => None,
        },
{
    match &source.user_agent {
        Some(u) => {
            if is_blank_chars(&chars_of(u.as_str())) {
                None
            } else {
                let c = u.clone();
                let r = Some(c);
                assert(r.deep_view() == Some(c@));
                r
            }
        },
        None => None,
    }
}


/// A successful add leaves a source with the added source's name, so the
/// name is then found.
pub proof fn lemma_added_source_found(
    before: CatalogView,
    after: CatalogView,
    src: SourceView,
    fetched: Fetched,
    r: Result<Seq<usize>, IngestError>,
)
    requires
        source_ingested(before, after, src, fetched, false, r),
        r is Ok,
    ensures
        first_index(after.sources, source_named(src.name)) < after.sources.len(),
{
    let (c1, sr) = source_upserted(before, src);
    lemma_first_index(before.sources, source_named(src.name));
    let k = first_index(before.sources, source_named(src.name));
    let idx = if k < before.sources.len() {
        k
    } else {
        before.sources.len() as int
    };
    if sr is Ok {
        assert(source_named(src.name)(c1.sources[idx]));
    }
    match fetched {
        Fetched::Lines(lines) => {
            if src.source_type == M3U || src.source_type == M3U_LINK {
                crate::m3u::lemma_committed_sources(
                    c1,
                    crate::m3u::playlist_entries(text_lines(lines@)),
                    sr->Ok_0,
                );
            }
        },
        Fetched::Remote(d) => {
            if src.source_type == XTREAM {
                match crate::xtream::with_origin(src) {
                    Ok(s1) => crate::xtream::lemma_kinds_keep_sources(
                        c1,
                        d,
                        SourceView { id: Some(sr->Ok_0), ..s1 },
                        sr->Ok_0,
                    ),
                    Err(_) => {},
                }
            }
        },
        Fetched::Nothing => {},
    }
    lemma_first_index(after.sources, source_named(src.name));
    if first_index(after.sources, source_named(src.name)) == after.sources.len() {
        assert(!source_named(src.name)(after.sources[idx]));
    }
}

} // verus!
