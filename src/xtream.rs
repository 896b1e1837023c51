//! The remote-API normalizer: request urls, stream records to channels,
//! per-kind failure policy, episodes of a series, and program-guide listings.
use vstd::prelude::*;
use base64::Engine;
use crate::kinds::{LIVESTREAM, MOVIE, SERIE};
use crate::m3u::{trimmed_opt, IngestError};
use crate::numeric::{decimal, decimal_chars, parse_i64, parse_u64, parsed_i64, parsed_u64};
use crate::store::{
    catalog_wf, channel_upserted, episode_of, first_from, first_index, group_resolved,
    hidden_group_names, preserved_channels, restored, season_upserted, source_upserted,
    source_with_id, wiped, Catalog, CatalogView,
};
use crate::text::{chars_of, string_of, trim_chars, trimmed};
use crate::types::{copy_text, Channel, ChannelView, Season, SeasonView, Source, SourceView, EPG};
use vstd::utf8::{decode_utf8, valid_utf8};

verus! {

#[derive(Debug, Clone, Copy, PartialEq, Eq, Structural)]
pub enum XtreamError {
    MissingUrl,
    InvalidUrl,
    MissingUsername,
    MissingPassword,
    MissingName,
    MissingSeriesId,
    MissingStreamId,
    InvalidStreamType,
    MissingSourceId,
    SourceNotFound,
    InvalidSeriesId,
    InvalidBase64,
    InvalidUtf8,
    InvalidTimestamp,
    /// Too few row ids remain to store every episode.
    StoreFull,
}

/// One stream record of a live, movie or series listing.
#[derive(Clone, Debug)]
pub struct XtreamStream {
    pub stream_id: Option<u64>,
    pub name: Option<String>,
    pub category_id: Option<String>,
    pub stream_icon: Option<String>,
    pub series_id: Option<u64>,
    pub cover: Option<String>,
    pub container_extension: Option<String>,
}

pub struct StreamView {
    pub stream_id: Option<u64>,
    pub name: Option<Seq<char>>,
    pub category_id: Option<Seq<char>>,
    pub stream_icon: Option<Seq<char>>,
    pub series_id: Option<u64>,
    pub cover: Option<Seq<char>>,
    pub container_extension: Option<Seq<char>>,
}

impl View for XtreamStream {
    type V = StreamView;

    open spec fn view(&self) -> StreamView {
        StreamView {
            stream_id: self.stream_id,
            name: self.name.deep_view(),
            category_id: self.category_id.deep_view(),
            stream_icon: self.stream_icon.deep_view(),
            series_id: self.series_id,
            cover: self.cover.deep_view(),
            container_extension: self.container_extension.deep_view(),
        }
    }
}

/// One category record: an id and the name shown for it.
#[derive(Clone, Debug)]
pub struct XtreamCategory {
    pub category_id: String,
    pub category_name: String,
}

pub open spec fn category_pairs(v: Seq<XtreamCategory>) -> Seq<(Seq<char>, Seq<char>)> {
    v.map_values(|c: XtreamCategory| (c.category_id@, c.category_name@))
}

pub open spec fn stream_views(v: Seq<XtreamStream>) -> Seq<StreamView> {
    v.map_values(|s: XtreamStream| s@)
}

/// The origin (scheme, host and port) that the url crate serializes for a url,
/// or none where the text is not an absolute url.
pub uninterp spec fn origin_of(url: Seq<char>) -> Option<Seq<char>>;

/// Relies on url::Url::parse and url::Origin::ascii_serialization.
#[verifier::external_body]
fn url_origin(url: &str) -> (r: Option<String>)
    ensures
        r.deep_view() == origin_of(url@),
{
    url::Url::parse(url).ok().map(|u| u.origin().ascii_serialization())
}

/// The url that the url crate serializes after appending these query pairs, or
/// none where the base is not an absolute url.
pub uninterp spec fn query_url_of(base: Seq<char>, pairs: Seq<(Seq<char>, Seq<char>)>) -> Option<
    Seq<char>,
>;

pub open spec fn pair_views(v: Seq<(String, String)>) -> Seq<(Seq<char>, Seq<char>)> {
    v.map_values(|p: (String, String)| (p.0@, p.1@))
}

/// Relies on url::Url::parse, form_urlencoded::Serializer::extend_pairs and
/// url::Url::as_str.
#[verifier::external_body]
fn url_with_query(base: &str, pairs: &Vec<(String, String)>) -> (r: Option<String>)
    ensures
        r.deep_view() == query_url_of(base@, pair_views(pairs@)),
{
    let mut u = url::Url::parse(base).ok()?;
    u.query_pairs_mut().extend_pairs(pairs.iter());
    Some(u.as_str().to_string())
}

/// The source with its origin filled in from its url, or why it cannot serve the API.
pub open spec fn with_origin(s: SourceView) -> Result<SourceView, XtreamError> {
    match s.url {
        None => Err(XtreamError::MissingUrl),
        Some(u) => match origin_of(u) {
            None => Err(XtreamError::InvalidUrl),
            Some(o) => if s.username is None {
                Err(XtreamError::MissingUsername)
            } else if s.password is None {
                Err(XtreamError::MissingPassword)
            } else {
                Ok(SourceView { url_origin: Some(o), ..s })
            },
        },
    }
}

/// Check that the source can serve the API and fill in its url origin.
pub fn build_xtream_url(source: &mut Source) -> (r: Result<(), XtreamError>)
    ensures
        match with_origin(old(source)@) {
            Ok(s) => r is Ok && final(source)@ == s,
            Err(e) => r == Err::<(), XtreamError>(e) && final(source)@ == old(source)@,
        },
{
    let origin = match &source.url {
        None => {
            return Err(XtreamError::MissingUrl);
        },
        Some(u) => match url_origin(u.as_str()) {
            None => {
                return Err(XtreamError::InvalidUrl);
            },
            Some(o) => o,
        },
    };
    if source.username.is_none() {
        return Err(XtreamError::MissingUsername);
    }
    if source.password.is_none() {
        return Err(XtreamError::MissingPassword);
    }
    source.url_origin = Some(origin);
    Ok(())
}

pub open spec fn username_key() -> Seq<char> {
    seq!['u', 's', 'e', 'r', 'n', 'a', 'm', 'e']
}

pub open spec fn password_key() -> Seq<char> {
    seq!['p', 'a', 's', 's', 'w', 'o', 'r', 'd']
}

pub open spec fn action_key() -> Seq<char> {
    seq!['a', 'c', 't', 'i', 'o', 'n']
}

/// The request url of an API action: the source url with username, password,
/// action and the extra pairs appended to its query.
pub open spec fn action_url(
    s: SourceView,
    action: Seq<char>,
    extra: Seq<(Seq<char>, Seq<char>)>,
) -> Result<Seq<char>, XtreamError> {
    match with_origin(s) {
        Err(e) => Err(e),
        Ok(_) => match query_url_of(
            s.url->0,
            seq![
                (username_key(), s.username->0),
                (password_key(), s.password->0),
                (action_key(), action),
            ] + extra,
        ) {
            None => Err(XtreamError::InvalidUrl),
            Some(u) => Ok(u),
        },
    }
}

/// The url to request for an API action on this source.
pub fn get_action_url(source: &Source, action: &String, extra: &Vec<(String, String)>) -> (r:
    Result<String, XtreamError>)
    ensures
        match r {
            Ok(u) => action_url(source@, action@, pair_views(extra@)) == Ok::<
                Seq<char>,
                XtreamError,
            >(u@),
            Err(e) => action_url(source@, action@, pair_views(extra@)) == Err::<
                Seq<char>,
                XtreamError,
            >(e),
        },
{
    let mut probe = source.duplicate();
    match build_xtream_url(&mut probe) {
        Err(e) => {
            return Err(e);
        },
        Ok(()) => {},
    }
    let base = match &source.url {
        Some(u) => u,
        None => {
            return Err(XtreamError::MissingUrl);
        },
    };
    let user = match &source.username {
        Some(u) => u.clone(),
        None => {
            return Err(XtreamError::MissingUsername);
        },
    };
    let pass = match &source.password {
        Some(p) => p.clone(),
        None => {
            return Err(XtreamError::MissingPassword);
        },
    };
    let mut pairs: Vec<(String, String)> = Vec::new();
    let uk = string_of(&chars_of("username"));
    let pk = string_of(&chars_of("password"));
    let ak = string_of(&chars_of("action"));
    proof {
        reveal_strlit("username");
        reveal_strlit("password");
        reveal_strlit("action");
        assert(uk@ =~= username_key());
        assert(pk@ =~= password_key());
        assert(ak@ =~= action_key());
    }
    pairs.push((uk, user));
    pairs.push((pk, pass));
    pairs.push((ak, action.clone()));
    let mut i: usize = 0;
    let ghost head = pair_views(pairs@);
    while i < extra.len()
        invariant
            i <= extra.len(),
            head.len() == 3,
            pair_views(pairs@) == head + pair_views(extra@).take(i as int),
        decreases extra.len() - i,
    {
        let ghost prev = pairs@;
        pairs.push((extra[i].0.clone(), extra[i].1.clone()));
        assert(pair_views(pairs@) =~= pair_views(prev).push(pair_views(extra@)[i as int]));
        assert(pair_views(extra@).take(i + 1) =~= pair_views(extra@).take(i as int).push(
            pair_views(extra@)[i as int],
        ));
        i += 1;
    }
    assert(pair_views(extra@).take(extra.len() as int) =~= pair_views(extra@));
    assert(head =~= seq![
        (username_key(), source@.username->0),
        (password_key(), source@.password->0),
        (action_key(), action@),
    ]);
    match url_with_query(base.as_str(), &pairs) {
        None => Err(XtreamError::InvalidUrl),
        Some(u) => Ok(u),
    }
}

/// The path segment of a stream kind.
pub open spec fn kind_segment(kind: u8) -> Result<Seq<char>, XtreamError> {
    if kind == LIVESTREAM {
        Ok(seq!['l', 'i', 'v', 'e'])
    } else if kind == MOVIE {
        Ok(seq!['m', 'o', 'v', 'i', 'e'])
    } else if kind == SERIE {
        Ok(seq!['s', 'e', 'r', 'i', 'e', 's'])
    } else {
        Err(XtreamError::InvalidStreamType)
    }
}

pub fn get_media_type_string(stream_type: u8) -> (r: Result<Vec<char>, XtreamError>)
    ensures
        match r {
            Ok(v) => kind_segment(stream_type) == Ok::<Seq<char>, XtreamError>(v@),
            Err(e) => kind_segment(stream_type) == Err::<Seq<char>, XtreamError>(e),
        },
{
    proof {
        reveal_strlit("live");
        reveal_strlit("movie");
        reveal_strlit("series");
    }
    if stream_type == LIVESTREAM {
        let v = chars_of("live");
        assert(v@ =~= seq!['l', 'i', 'v', 'e']);
        Ok(v)
    } else if stream_type == MOVIE {
        let v = chars_of("movie");
        assert(v@ =~= seq!['m', 'o', 'v', 'i', 'e']);
        Ok(v)
    } else if stream_type == SERIE {
        let v = chars_of("series");
        assert(v@ =~= seq!['s', 'e', 'r', 'i', 'e', 's']);
        Ok(v)
    } else {
        Err(XtreamError::InvalidStreamType)
    }
}

/// `{origin}/{kind}/{username}/{password}/{id}.{extension, else ts}`.
pub open spec fn stream_url(
    s: SourceView,
    kind: u8,
    id: Seq<char>,
    extension: Option<Seq<char>>,
) -> Result<Seq<char>, XtreamError> {
    match kind_segment(kind) {
        Err(e) => Err(e),
        Ok(seg) => if s.url_origin is None {
            Err(XtreamError::MissingUrl)
        } else if s.username is None {
            Err(XtreamError::MissingUsername)
        } else if s.password is None {
            Err(XtreamError::MissingPassword)
        } else {
            let ext = match extension {
                Some(e) => e,
                None => seq!['t', 's'],
            };
            Ok(
                s.url_origin->0 + seq!['/'] + seg + seq!['/'] + s.username->0 + seq!['/']
                    + s.password->0 + seq!['/'] + id + seq!['.'] + ext,
            )
        },
    }
}

fn push_all(v: &mut Vec<char>, s: &Vec<char>)
    ensures
        final(v)@ == old(v)@ + s@,
{
    let mut i: usize = 0;
    let ghost start = v@;
    while i < s.len()
        invariant
            i <= s.len(),
            v@ == start + s@.take(i as int),
        decreases s.len() - i,
    {
        v.push(s[i]);
        assert(s@.take(i + 1) =~= s@.take(i as int).push(s@[i as int]));
        assert(v@ =~= start + s@.take(i + 1));
        i += 1;
    }
    assert(s@.take(s.len() as int) =~= s@);
}

/// The playable url of a stream or episode.
pub fn get_url(stream_id: &Vec<char>, source: &Source, stream_type: u8, extension: &Option<String>) -> (r:
    Result<String, XtreamError>)
    ensures
        match r {
            Ok(u) => stream_url(source@, stream_type, stream_id@, extension.deep_view()) == Ok::<
                Seq<char>,
                XtreamError,
            >(u@),
            Err(e) => stream_url(source@, stream_type, stream_id@, extension.deep_view()) == Err::<
                Seq<char>,
                XtreamError,
            >(e),
        },
{
    let seg = match get_media_type_string(stream_type) {
        Ok(s) => s,
        Err(e) => {
            return Err(e);
        },
    };
    let origin = match &source.url_origin {
        Some(o) => chars_of(o.as_str()),
        None => {
            return Err(XtreamError::MissingUrl);
        },
    };
    let user = match &source.username {
        Some(u) => chars_of(u.as_str()),
        None => {
            return Err(XtreamError::MissingUsername);
        },
    };
    let pass = match &source.password {
        Some(p) => chars_of(p.as_str()),
        None => {
            return Err(XtreamError::MissingPassword);
        },
    };
    let ext = match extension {
        Some(e) => chars_of(e.as_str()),
        None => {
            let t = chars_of("ts");
            proof {
                reveal_strlit("ts");
            }
            assert(t@ =~= seq!['t', 's']);
            t
        },
    };
    let mut slash: Vec<char> = Vec::new();
    slash.push('/');
    let mut dot: Vec<char> = Vec::new();
    dot.push('.');
    let mut out: Vec<char> = Vec::new();
    push_all(&mut out, &origin);
    push_all(&mut out, &slash);
    push_all(&mut out, &seg);
    push_all(&mut out, &slash);
    push_all(&mut out, &user);
    push_all(&mut out, &slash);
    push_all(&mut out, &pass);
    push_all(&mut out, &slash);
    push_all(&mut out, stream_id);
    push_all(&mut out, &dot);
    push_all(&mut out, &ext);
    assert(slash@ =~= seq!['/']);
    assert(dot@ =~= seq!['.']);
    assert(out@ =~= source@.url_origin->0 + seq!['/'] + seg@ + seq!['/'] + source@.username->0
        + seq!['/'] + source@.password->0 + seq!['/'] + stream_id@ + seq!['.'] + ext@);
    Ok(string_of(&out))
}

/// The name of the category with this id; where several share the id, the last one.
pub open spec fn category_name(cats: Seq<(Seq<char>, Seq<char>)>, id: Seq<char>) -> Option<Seq<char>>
    decreases cats.len(),
{
    if cats.len() == 0 {
        None
    } else if cats.last().0 == id {
        Some(cats.last().1)
    } else {
        category_name(cats.drop_last(), id)
    }
}

pub open spec fn category_of(cats: Seq<(Seq<char>, Seq<char>)>, id: Option<Seq<char>>) -> Option<
    Seq<char>,
> {
    match id {
        None => None,
        Some(i) => category_name(cats, i),
    }
}

pub fn get_cat_name(cats: &Vec<XtreamCategory>, category_id: &Option<String>) -> (r: Option<String>)
    ensures
        r.deep_view() == category_of(category_pairs(cats@), category_id.deep_view()),
{
    let id = match category_id {
        None => {
            return None;
        },
        Some(i) => i,
    };
    let ghost cs = category_pairs(cats@);
    let mut k: usize = cats.len();
    assert(cs.take(cats.len() as int) =~= cs);
    while k > 0
        invariant
            k <= cats.len(),
            cs == category_pairs(cats@),
            category_id.deep_view() == Some(id@),
            category_name(cs, id@) == category_name(cs.take(k as int), id@),
        decreases k,
    {
        assert(cs.take(k as int).drop_last() =~= cs.take(k - 1));
        assert(cs.take(k as int).last() == cs[k - 1]);
        assert(cs[k - 1] == (cats@[k - 1].category_id@, cats@[k - 1].category_name@));
        if cats[k - 1].category_id == *id {
            let n = cats[k - 1].category_name.clone();
            assert(category_name(cs.take(k as int), id@) == Some(n@));
            let r = Some(n);
            assert(r.deep_view() == Some(n@));
            return r;
        }
        k -= 1;
    }
    assert(cs.take(0) =~= Seq::<(Seq<char>, Seq<char>)>::empty());
    None
}

/// The channel of a stream record of kind `kind`: a series keeps its series id
/// (in decimal) where a playable url would stand.
pub open spec fn stream_channel(
    st: StreamView,
    s: SourceView,
    kind: u8,
    category: Option<Seq<char>>,
) -> Result<ChannelView, XtreamError> {
    let url: Result<Seq<char>, XtreamError> = if kind == SERIE {
        match st.series_id {
            None => Err(XtreamError::MissingSeriesId),
            Some(id) => Ok(decimal(id as nat)),
        }
    } else {
        match st.stream_id {
            None => Err(XtreamError::MissingStreamId),
            Some(id) => stream_url(s, kind, decimal(id as nat), st.container_extension),
        }
    };
    match st.name {
        None => Err(XtreamError::MissingName),
        Some(n) => match url {
            Err(e) => Err(e),
            Ok(u) => Ok(
                ChannelView {
                    id: None,
                    name: trimmed(n),
                    url: Some(u),
                    group: trimmed_opt(category),
                    image: trimmed_opt(
                        if st.stream_icon is Some {
                            st.stream_icon
                        } else {
                            st.cover
                        },
                    ),
                    media_type: kind,
                    source_id: s.id,
                    series_id: None,
                    group_id: None,
                    favorite: false,
                    stream_id: st.stream_id,
                    hidden: false,
                    last_watched: None,
                    season_id: None,
                    episode_num: None,
                    tv_archive: None,
                },
            ),
        },
    }
}

fn trimmed_copy(o: &Option<String>) -> (r: Option<String>)
    ensures
        r.deep_view() == trimmed_opt(o.deep_view()),
{
    match o {
        Some(s) => {
            let t = string_of(&trim_chars(&chars_of(s.as_str())));
            let r = Some(t);
            assert(r.deep_view() == Some(t@));
            r
        },
        None => None,
    }
}

pub fn convert_xtream_live_to_channel(
    stream: &XtreamStream,
    source: &Source,
    stream_type: u8,
    category_name: &Option<String>,
) -> (r: Result<Channel, XtreamError>)
    ensures
        match r {
            Ok(c) => stream_channel(stream@, source@, stream_type, category_name.deep_view())
                == Ok::<ChannelView, XtreamError>(c@),
            Err(e) => stream_channel(stream@, source@, stream_type, category_name.deep_view())
                == Err::<ChannelView, XtreamError>(e),
        },
{
    let name = match &stream.name {
        None => {
            return Err(XtreamError::MissingName);
        },
        Some(n) => n,
    };
    let url = if stream_type == SERIE {
        match stream.series_id {
            None => {
                return Err(XtreamError::MissingSeriesId);
            },
            Some(id) => string_of(&decimal_chars(id)),
        }
    } else {
        match stream.stream_id {
            None => {
                return Err(XtreamError::MissingStreamId);
            },
            Some(id) => match get_url(&decimal_chars(id), source, stream_type, &stream.container_extension) {
                Ok(u) => u,
                Err(e) => {
                    return Err(e);
                },
            },
        }
    };
    let image = if stream.stream_icon.is_some() {
        trimmed_copy(&stream.stream_icon)
    } else {
        trimmed_copy(&stream.cover)
    };
    let c = Channel {
        id: None,
        name: string_of(&trim_chars(&chars_of(name.as_str()))),
        url: Some(url),
        group: trimmed_copy(category_name),
        image,
        media_type: stream_type,
        source_id: source.id,
        series_id: None,
        group_id: None,
        favorite: false,
        stream_id: stream.stream_id,
        hidden: false,
        last_watched: None,
        season_id: None,
        episode_num: None,
        tv_archive: None,
    };
    assert(c.url.deep_view() == Some(url@));
    Ok(c)
}


/// One stream stored: converted, its group resolved, then upserted; a stream
/// that does not convert is skipped.
pub open spec fn stream_committed(
    c: CatalogView,
    st: StreamView,
    cats: Seq<(Seq<char>, Seq<char>)>,
    s: SourceView,
    source_id: i64,
    kind: u8,
) -> CatalogView {
    match stream_channel(st, s, kind, category_of(cats, st.category_id)) {
        Err(_) => c,
        Ok(ch) => {
            let (c1, ch1, _g) = group_resolved(c, ch, source_id);
            channel_upserted(c1, ch1).0
        },
    }
}

pub open spec fn streams_committed(
    c: CatalogView,
    sts: Seq<StreamView>,
    cats: Seq<(Seq<char>, Seq<char>)>,
    s: SourceView,
    source_id: i64,
    kind: u8,
) -> CatalogView
    decreases sts.len(),
{
    if sts.len() == 0 {
        c
    } else {
        stream_committed(
            streams_committed(c, sts.drop_last(), cats, s, source_id, kind),
            sts.last(),
            cats,
            s,
            source_id,
            kind,
        )
    }
}

/// Store the streams of one kind, each joined to its category name.
pub fn process_xtream(
    catalog: &mut Catalog,
    streams: &Vec<XtreamStream>,
    cats: &Vec<XtreamCategory>,
    source: &Source,
    source_id: i64,
    stream_type: u8,
)
    requires
        catalog_wf(old(catalog)@),
    ensures
        final(catalog)@ == streams_committed(
            old(catalog)@,
            stream_views(streams@),
            category_pairs(cats@),
            source@,
            source_id,
            stream_type,
        ),
        catalog_wf(final(catalog)@),
{
    let ghost c0 = catalog@;
    let ghost sv = stream_views(streams@);
    let mut i: usize = 0;
    assert(sv.take(0) =~= Seq::<StreamView>::empty());
    while i < streams.len()
        invariant
            i <= streams.len(),
            sv == stream_views(streams@),
            catalog@ == streams_committed(
                c0,
                sv.take(i as int),
                category_pairs(cats@),
                source@,
                source_id,
                stream_type,
            ),
            catalog_wf(catalog@),
        decreases streams.len() - i,
    {
        assert(sv.take(i + 1).drop_last() =~= sv.take(i as int));
        assert(sv.take(i + 1).last() == streams@[i as int]@);
        let st = &streams[i];
        let name = get_cat_name(cats, &st.category_id);
        match convert_xtream_live_to_channel(st, source, stream_type, &name) {
            Ok(mut channel) => {
                let _ = catalog.set_channel_group_id(&mut channel, source_id);
                let _ = catalog.insert_channel(&channel);
            },
            Err(_) => {},
        }
        i += 1;
    }
    assert(sv.take(streams.len() as int) =~= sv);
}

/// What the six listing requests returned; `None` where a request failed.
#[derive(Clone, Debug)]
pub struct XtreamData {
    pub live: Option<Vec<XtreamStream>>,
    pub live_cats: Option<Vec<XtreamCategory>>,
    pub vods: Option<Vec<XtreamStream>>,
    pub vods_cats: Option<Vec<XtreamCategory>>,
    pub series: Option<Vec<XtreamStream>>,
    pub series_cats: Option<Vec<XtreamCategory>>,
}

/// A stream kind fails where its stream listing or its category listing failed.
pub open spec fn kind_failed(
    streams: Option<Vec<XtreamStream>>,
    cats: Option<Vec<XtreamCategory>>,
) -> bool {
    streams is None || cats is None
}

pub open spec fn failure_count(d: XtreamData) -> int {
    (if kind_failed(d.live, d.live_cats) {
        1int
    } else {
        0
    }) + (if kind_failed(d.vods, d.vods_cats) {
        1int
    } else {
        0
    }) + (if kind_failed(d.series, d.series_cats) {
        1int
    } else {
        0
    })
}

pub open spec fn kind_committed(
    c: CatalogView,
    streams: Option<Vec<XtreamStream>>,
    cats: Option<Vec<XtreamCategory>>,
    s: SourceView,
    source_id: i64,
    kind: u8,
) -> CatalogView {
    match (streams, cats) {
        (Some(st), Some(ca)) => streams_committed(
            c,
            stream_views(st@),
            category_pairs(ca@),
            s,
            source_id,
            kind,
        ),
        _ => c,
    }
}

/// Live, then movies, then series, each kind stored only where both of its listings came.
pub open spec fn kinds_committed(c: CatalogView, d: XtreamData, s: SourceView, source_id: i64) -> CatalogView {
    let c1 = kind_committed(c, d.live, d.live_cats, s, source_id, LIVESTREAM);
    let c2 = kind_committed(c1, d.vods, d.vods_cats, s, source_id, MOVIE);
    kind_committed(c2, d.series, d.series_cats, s, source_id, SERIE)
}

/// A remote-API ingestion. More than two failed kinds reject it and leave the
/// catalog as it was; otherwise the kinds that came are stored, after a
/// snapshot and wipe where `wipe` asks for a refresh, and the snapshot is then
/// restored.
pub open spec fn xtream_ingested(
    before: CatalogView,
    after: CatalogView,
    src: SourceView,
    d: XtreamData,
    wipe: bool,
    r: Result<(), IngestError>,
) -> bool {
    match with_origin(src) {
        Err(e) => r == Err::<(), IngestError>(IngestError::Remote(e)) && after == before,
        Ok(s1) => if failure_count(d) > 2 {
            r == Err::<(), IngestError>(IngestError::TooManyFailures) && after == before
        } else if wipe {
            match s1.id {
                None => r == Err::<(), IngestError>(IngestError::MissingSourceId) && after
                    == before,
                Some(sid) => {
                    let c1 = kinds_committed(wiped(before, sid), d, s1, sid);
                    &&& r is Ok
                    &&& restored(
                        c1,
                        after,
                        sid,
                        preserved_channels(before.channels, sid),
                        hidden_group_names(before.groups, sid),
                    )
                }
            }
        } else {
            let (c1, sr) = source_upserted(before, src);
            match sr {
                Err(e) => r == Err::<(), IngestError>(IngestError::Store(e)) && after == before,
                Ok(sid) => r is Ok && after == kinds_committed(
                    c1,
                    d,
                    SourceView { id: Some(sid), ..s1 },
                    sid,
                ),
            }
        }
    }
}

fn process_kind(
    catalog: &mut Catalog,
    streams: &Option<Vec<XtreamStream>>,
    cats: &Option<Vec<XtreamCategory>>,
    source: &Source,
    source_id: i64,
    stream_type: u8,
)
    requires
        catalog_wf(old(catalog)@),
    ensures
        final(catalog)@ == kind_committed(old(catalog)@, *streams, *cats, source@, source_id, stream_type),
        catalog_wf(final(catalog)@),
{
    match (streams, cats) {
        (Some(st), Some(ca)) => process_xtream(catalog, st, ca, source, source_id, stream_type),
        _ => {},
    }
}

fn failures(d: &XtreamData) -> (r: u8)
    ensures
        r as int == failure_count(*d),
{
    let mut n: u8 = 0;
    if d.live.is_none() || d.live_cats.is_none() {
        n += 1;
    }
    if d.vods.is_none() || d.vods_cats.is_none() {
        n += 1;
    }
    if d.series.is_none() || d.series_cats.is_none() {
        n += 1;
    }
    n
}

/// Ingest a remote-API source from what its listing requests returned (see `xtream_ingested`).
pub fn get_xtream(catalog: &mut Catalog, source: &Source, data: &XtreamData, wipe: bool) -> (r:
    Result<(), IngestError>)
    requires
        catalog_wf(old(catalog)@),
    ensures
        xtream_ingested(old(catalog)@, final(catalog)@, source@, *data, wipe, r),
        catalog_wf(final(catalog)@),
{
    let mut src = source.duplicate();
    match build_xtream_url(&mut src) {
        Err(e) => {
            return Err(IngestError::Remote(e));
        },
        Ok(()) => {},
    }
    if failures(data) > 2 {
        return Err(IngestError::TooManyFailures);
    }
    if wipe {
        let sid = match src.id {
            Some(id) => id,
            None => {
                return Err(IngestError::MissingSourceId);
            },
        };
        let keep = catalog.snapshot(sid);
        catalog.wipe(sid);
        process_kind(catalog, &data.live, &data.live_cats, &src, sid, LIVESTREAM);
        process_kind(catalog, &data.vods, &data.vods_cats, &src, sid, MOVIE);
        process_kind(catalog, &data.series, &data.series_cats, &src, sid, SERIE);
        catalog.restore(sid, &keep);
        Ok(())
    } else {
        let sid = match catalog.create_or_find_source_by_name(source) {
            Ok(id) => id,
            Err(e) => {
                return Err(IngestError::Store(e));
            },
        };
        src.id = Some(sid);
        process_kind(catalog, &data.live, &data.live_cats, &src, sid, LIVESTREAM);
        process_kind(catalog, &data.vods, &data.vods_cats, &src, sid, MOVIE);
        process_kind(catalog, &data.series, &data.series_cats, &src, sid, SERIE);
        Ok(())
    }
}


/// One episode of a series, as the series-detail request lists it; `image` is
/// the episode's artwork where its info carries one.
#[derive(Clone, Debug)]
pub struct XtreamEpisode {
    pub id: String,
    pub title: String,
    pub container_extension: String,
    pub episode_num: u32,
    pub season: u32,
    pub image: Option<String>,
}

pub struct EpisodeView {
    pub id: Seq<char>,
    pub title: Seq<char>,
    pub container_extension: Seq<char>,
    pub episode_num: u32,
    pub season: u32,
    pub image: Option<Seq<char>>,
}

impl View for XtreamEpisode {
    type V = EpisodeView;

    open spec fn view(&self) -> EpisodeView {
        EpisodeView {
            id: self.id@,
            title: self.title@,
            container_extension: self.container_extension@,
            episode_num: self.episode_num,
            season: self.season,
            image: self.image.deep_view(),
        }
    }
}

pub open spec fn episode_views(v: Seq<XtreamEpisode>) -> Seq<EpisodeView> {
    v.map_values(|e: XtreamEpisode| e@)
}

/// `a` comes strictly before `b` by (season, episode number).
pub open spec fn episode_before(a: EpisodeView, b: EpisodeView) -> bool {
    a.season < b.season || (a.season == b.season && a.episode_num < b.episode_num)
}

pub open spec fn episode_goes_before(x: EpisodeView) -> spec_fn(EpisodeView) -> bool {
    |y: EpisodeView| episode_before(x, y)
}

pub open spec fn insert_episode(s: Seq<EpisodeView>, x: EpisodeView) -> Seq<EpisodeView> {
    let p = first_index(s, episode_goes_before(x));
    s.take(p).push(x) + s.skip(p)
}

/// The episodes by (season, episode number); ties keep their order.
pub open spec fn episodes_ordered(s: Seq<EpisodeView>) -> Seq<EpisodeView>
    decreases s.len(),
{
    if s.len() == 0 {
        s
    } else {
        insert_episode(episodes_ordered(s.drop_last()), s.last())
    }
}

fn copy_episode(e: &XtreamEpisode) -> (r: XtreamEpisode)
    ensures
        r@ == e@,
{
    XtreamEpisode {
        id: e.id.clone(),
        title: e.title.clone(),
        container_extension: e.container_extension.clone(),
        episode_num: e.episode_num,
        season: e.season,
        image: copy_text(&e.image),
    }
}

/// The episodes sorted by (season, episode number), stably.
pub fn sort_episodes(eps: &Vec<XtreamEpisode>) -> (r: Vec<XtreamEpisode>)
    ensures
        episode_views(r@) == episodes_ordered(episode_views(eps@)),
{
    let ghost ev = episode_views(eps@);
    let mut out: Vec<XtreamEpisode> = Vec::new();
    let mut i: usize = 0;
    assert(ev.take(0) =~= Seq::<EpisodeView>::empty());
    assert(episode_views(out@) =~= Seq::<EpisodeView>::empty());
    while i < eps.len()
        invariant
            i <= eps.len(),
            ev == episode_views(eps@),
            episode_views(out@) == episodes_ordered(ev.take(i as int)),
        decreases eps.len() - i,
    {
        assert(ev.take(i + 1).drop_last() =~= ev.take(i as int));
        assert(ev.take(i + 1).last() == eps@[i as int]@);
        let ghost ov = episode_views(out@);
        let x = &eps[i];
        let mut p: usize = 0;
        while p < out.len() && !(x.season < out[p].season || (x.season == out[p].season
            && x.episode_num < out[p].episode_num))
            invariant
                i < eps.len(),
                x@ == eps@[i as int]@,
                p <= out.len(),
                ov == episode_views(out@),
                first_index(ov, episode_goes_before(x@)) == first_from(
                    ov,
                    episode_goes_before(x@),
                    p as int,
                ),
            decreases out.len() - p,
        {
            p += 1;
        }
        let y = copy_episode(x);
        out.insert(p, y);
        assert(episode_views(out@) =~= ov.take(p as int).push(y@) + ov.skip(p as int));
        i += 1;
    }
    assert(ev.take(eps.len() as int) =~= ev);
    out
}

proof fn lemma_sorted_len(s: Seq<EpisodeView>)
    ensures
        episodes_ordered(s).len() == s.len(),
    decreases s.len(),
{
    if s.len() > 0 {
        lemma_sorted_len(s.drop_last());
        crate::store::lemma_first_index(
            episodes_ordered(s.drop_last()),
            episode_goes_before(s.last()),
        );
    }
}

/// The channel of an episode: a movie-kind row of the series, its url built
/// from the episode id and container extension.
pub open spec fn episode_channel(e: EpisodeView, s: SourceView, series_id: u64) -> Result<
    ChannelView,
    XtreamError,
> {
    match stream_url(s, SERIE, e.id, Some(e.container_extension)) {
        Err(err) => Err(err),
        Ok(u) => Ok(
            ChannelView {
                id: None,
                name: trimmed(e.title),
                url: Some(u),
                group: None,
                image: e.image,
                media_type: MOVIE,
                source_id: s.id,
                series_id: Some(series_id),
                group_id: None,
                favorite: false,
                stream_id: None,
                hidden: false,
                last_watched: None,
                season_id: None,
                episode_num: Some(e.episode_num),
                tv_archive: None,
            },
        ),
    }
}

pub fn episode_to_channel(episode: &XtreamEpisode, source: &Source, series_id: u64) -> (r: Result<
    Channel,
    XtreamError,
>)
    ensures
        match r {
            Ok(c) => episode_channel(episode@, source@, series_id) == Ok::<
                ChannelView,
                XtreamError,
            >(c@),
            Err(e) => episode_channel(episode@, source@, series_id) == Err::<
                ChannelView,
                XtreamError,
            >(e),
        },
{
    let ext = Some(episode.container_extension.clone());
    assert(ext.deep_view() == Some(episode@.container_extension));
    let url = match get_url(&chars_of(episode.id.as_str()), source, SERIE, &ext) {
        Ok(u) => u,
        Err(e) => {
            return Err(e);
        },
    };
    let c = Channel {
        id: None,
        name: string_of(&trim_chars(&chars_of(episode.title.as_str()))),
        url: Some(url),
        group: None,
        image: copy_text(&episode.image),
        media_type: MOVIE,
        source_id: source.id,
        series_id: Some(series_id),
        group_id: None,
        favorite: false,
        stream_id: None,
        hidden: false,
        last_watched: None,
        season_id: None,
        episode_num: Some(episode.episode_num),
        tv_archive: None,
    };
    assert(c.url.deep_view() == Some(url@));
    Ok(c)
}

/// The season row an episode belongs to, named by its number.
pub open spec fn episode_season(e: EpisodeView, series_id: u64, source_id: i64) -> SeasonView {
    SeasonView {
        id: 0,
        name: decimal(e.season as nat),
        image: None,
        series_id,
        season_number: e.season,
        source_id,
    }
}

/// One episode stored: its season upserted, then the episode under that season.
pub open spec fn episode_committed(
    c: CatalogView,
    e: EpisodeView,
    s: SourceView,
    series_id: u64,
    source_id: i64,
) -> CatalogView {
    match episode_channel(e, s, series_id) {
        Err(_) => c,
        Ok(ch) => {
            let (c1, sr) = season_upserted(c, episode_season(e, series_id, source_id));
            let ch1 = match sr {
                Ok(id) => ChannelView { season_id: Some(id), ..ch },
                Err(_) => ch,
            };
            channel_upserted(c1, ch1).0
        },
    }
}

pub open spec fn episodes_committed(
    c: CatalogView,
    es: Seq<EpisodeView>,
    s: SourceView,
    series_id: u64,
    source_id: i64,
) -> CatalogView
    decreases es.len(),
{
    if es.len() == 0 {
        c
    } else {
        episode_committed(
            episodes_committed(c, es.drop_last(), s, series_id, source_id),
            es.last(),
            s,
            series_id,
            source_id,
        )
    }
}

/// Storing this episode succeeds at both steps: its season row and its channel row.
pub open spec fn episode_stores(
    c: CatalogView,
    e: EpisodeView,
    s: SourceView,
    series_id: u64,
    source_id: i64,
) -> bool {
    match episode_channel(e, s, series_id) {
        Err(_) => false,
        Ok(ch) => {
            let (c1, sr) = season_upserted(c, episode_season(e, series_id, source_id));
            &&& sr is Ok
            &&& channel_upserted(c1, ChannelView { season_id: Some(sr->Ok_0), ..ch }).1 is Ok
        },
    }
}

/// Every episode, in turn, is stored in full.
pub open spec fn episodes_all_stored(
    c: CatalogView,
    es: Seq<EpisodeView>,
    s: SourceView,
    series_id: u64,
    source_id: i64,
) -> bool
    decreases es.len(),
{
    es.len() == 0 || (episodes_all_stored(c, es.drop_last(), s, series_id, source_id)
        && episode_stores(
        episodes_committed(c, es.drop_last(), s, series_id, source_id),
        es.last(),
        s,
        series_id,
        source_id,
    ))
}

/// The series id (from the url of a series row) and source id of a channel.
pub open spec fn series_ref(ch: ChannelView) -> Result<(u64, i64), XtreamError> {
    match ch.url {
        None => Err(XtreamError::MissingSeriesId),
        Some(u) => match parsed_u64(u) {
            None => Err(XtreamError::InvalidSeriesId),
            Some(series) => match ch.source_id {
                None => Err(XtreamError::MissingSourceId),
                Some(src) => Ok((series, src)),
            },
        },
    }
}

fn get_series_ref(channel: &Channel) -> (r: Result<(u64, i64), XtreamError>)
    ensures
        r == series_ref(channel@),
{
    let url = match &channel.url {
        None => {
            return Err(XtreamError::MissingSeriesId);
        },
        Some(u) => chars_of(u.as_str()),
    };
    let series = match parse_u64(&url) {
        None => {
            return Err(XtreamError::InvalidSeriesId);
        },
        Some(v) => v,
    };
    match channel.source_id {
        None => Err(XtreamError::MissingSourceId),
        Some(src) => Ok((series, src)),
    }
}

/// The series whose episodes must be fetched for this series row: none where
/// its episodes are stored already.
pub fn episodes_wanted(catalog: &Catalog, channel: &Channel) -> (r: Result<Option<u64>, XtreamError>)
    ensures
        match series_ref(channel@) {
            Err(e) => r == Err::<Option<u64>, XtreamError>(e),
            Ok((series, src)) => r == Ok::<Option<u64>, XtreamError>(
                if first_index(catalog@.channels, episode_of(series, src)) < catalog@.channels.len() {
                    None
                } else {
                    Some(series)
                },
            ),
        },
{
    let (series, src) = match get_series_ref(channel) {
        Err(e) => {
            return Err(e);
        },
        Ok(p) => p,
    };
    if catalog.series_has_episodes(series, src) {
        Ok(None)
    } else {
        Ok(Some(series))
    }
}

/// Storing the fetched episodes of a series row: nothing where they are stored
/// already; otherwise all of them, each in full, in (season, episode) order
/// under its season, or none where too few row ids remain.
pub open spec fn episodes_stored(
    before: CatalogView,
    after: CatalogView,
    ch: ChannelView,
    es: Seq<EpisodeView>,
    r: Result<(), XtreamError>,
) -> bool {
    match series_ref(ch) {
        Err(e) => r == Err::<(), XtreamError>(e) && after == before,
        Ok((series, src)) => if first_index(before.channels, episode_of(series, src))
            < before.channels.len() {
            r is Ok && after == before
        } else {
            let k = first_index(before.sources, source_with_id(src));
            if k == before.sources.len() {
                r == Err::<(), XtreamError>(XtreamError::SourceNotFound) && after == before
            } else {
                match with_origin(before.sources[k]) {
                    Err(e) => r == Err::<(), XtreamError>(e) && after == before,
                    Ok(s1) => if before.next_id + 2 * es.len() >= i64::MAX {
                        r == Err::<(), XtreamError>(XtreamError::StoreFull) && after == before
                    } else {
                        &&& r is Ok
                        &&& after == episodes_committed(
                            before,
                            episodes_ordered(es),
                            s1,
                            series,
                            src,
                        )
                        &&& episodes_all_stored(before, episodes_ordered(es), s1, series, src)
                    },
                }
            }
        },
    }
}

/// Store the episodes fetched for a series row (see `episodes_stored`).
pub fn get_episodes(catalog: &mut Catalog, channel: &Channel, episodes: &Vec<XtreamEpisode>) -> (r:
    Result<(), XtreamError>)
    requires
        catalog_wf(old(catalog)@),
    ensures
        episodes_stored(old(catalog)@, final(catalog)@, channel@, episode_views(episodes@), r),
        catalog_wf(final(catalog)@),
{
    let (series, src) = match get_series_ref(channel) {
        Err(e) => {
            return Err(e);
        },
        Ok(p) => p,
    };
    if catalog.series_has_episodes(series, src) {
        return Ok(());
    }
    proof {
        crate::store::lemma_first_index(catalog@.sources, source_with_id(src));
    }
    let mut source = match catalog.get_source_from_id(src) {
        None => {
            return Err(XtreamError::SourceNotFound);
        },
        Some(s) => s,
    };
    match build_xtream_url(&mut source) {
        Err(e) => {
            return Err(e);
        },
        Ok(()) => {},
    }
    if catalog.next_id as u128 + 2 * (episodes.len() as u128) >= i64::MAX as u128 {
        return Err(XtreamError::StoreFull);
    }
    let sorted = sort_episodes(episodes);
    proof {
        lemma_sorted_len(episode_views(episodes@));
    }
    let ghost c0 = catalog@;
    let ghost ev = episode_views(sorted@);
    let mut i: usize = 0;
    assert(ev.take(0) =~= Seq::<EpisodeView>::empty());
    while i < sorted.len()
        invariant
            i <= sorted.len(),
            ev == episode_views(sorted@),
            c0.next_id + 2 * sorted.len() < i64::MAX,
            source@.url_origin is Some,
            source@.username is Some,
            source@.password is Some,
            catalog@ == episodes_committed(c0, ev.take(i as int), source@, series, src),
            episodes_all_stored(c0, ev.take(i as int), source@, series, src),
            catalog@.next_id <= c0.next_id + 2 * i,
            catalog_wf(catalog@),
        decreases sorted.len() - i,
    {
        assert(ev.take(i + 1).drop_last() =~= ev.take(i as int));
        assert(ev.take(i + 1).last() == sorted@[i as int]@);
        let e = &sorted[i];
        match episode_to_channel(e, &source, series) {
            Ok(mut channel) => {
                let season = Season {
                    id: 0,
                    name: string_of(&decimal_chars(e.season as u64)),
                    image: None,
                    series_id: series,
                    season_number: e.season,
                    source_id: src,
                };
                assert(season@ == episode_season(e@, series, src));
                let rs = catalog.upsert_season(&season);
                match rs {
                    Ok(id) => {
                        channel.season_id = Some(id);
                    },
                    Err(_) => {},
                }
                let rc = catalog.insert_channel(&channel);
                assert(rs is Ok && rc is Ok);
            },
            Err(_) => {},
        }
        i += 1;
    }
    assert(ev.take(sorted.len() as int) =~= ev);
    Ok(())
}

/// One program-guide listing as the API sends it: title and description in
/// base64, times as decimal epoch seconds.
#[derive(Clone, Debug)]
pub struct XtreamEpgItem {
    pub id: String,
    pub title: String,
    pub description: String,
    pub start_timestamp: String,
    pub stop_timestamp: String,
}

/// The bytes that standard-alphabet base64 decoding gives, or none where the
/// text is not valid base64.
pub uninterp spec fn base64_decoded(s: Seq<char>) -> Option<Seq<u8>>;

/// Relies on base64's STANDARD engine `decode`.
#[verifier::external_body]
fn decode_base64(s: &str) -> (r: Option<Vec<u8>>)
    ensures
        match r {
            Some(v) => base64_decoded(s@) == Some(v@),
            None => base64_decoded(s@) is None,
        },
{
    base64::prelude::BASE64_STANDARD.decode(s).ok()
}

/// Relies on String::from_utf8: the text of the bytes where they are valid UTF-8.
#[verifier::external_body]
fn utf8_text(bytes: Vec<u8>) -> (r: Option<String>)
    ensures
        r is Some <==> valid_utf8(bytes@),
        r is Some ==> r->0@ == decode_utf8(bytes@),
{
    String::from_utf8(bytes).ok()
}

/// Relies on chrono's DateTime::from_timestamp, its conversion to the local
/// time zone, and `format("%Hh%M")`, which writes a zero-padded hour and
/// minute around `h`. Which hour depends on the machine's zone;
/// `from_timestamp` fails only outside its date range (years beyond about
/// 262000), far past the bound stated here.
#[verifier::external_body]
fn local_hour_minute(timestamp: i64) -> (r: Option<String>)
    ensures
        in_clock_range(timestamp) ==> r is Some,
        r is Some ==> clock_text(r->0@),
{
    let utc = chrono::DateTime::<chrono::Utc>::from_timestamp(timestamp, 0)?;
    Some(chrono::DateTime::<chrono::Local>::from(utc).format("%Hh%M").to_string())
}

/// Two decimal digits whose value is below `bound`.
pub open spec fn two_digits_below(a: char, b: char, bound: int) -> bool {
    crate::numeric::is_digit(a) && crate::numeric::is_digit(b) && (a as int - '0' as int) * 10 + (
    b as int - '0' as int) < bound
}

/// What `%Hh%M` writes: a two-digit hour below 24, `h`, a two-digit minute below 60.
pub open spec fn clock_text(s: Seq<char>) -> bool {
    s.len() == 5 && two_digits_below(s[0], s[1], 24) && s[2] == 'h' && two_digits_below(
        s[3],
        s[4],
        60,
    )
}

/// Epoch seconds that the local clock can always show.
pub open spec fn in_clock_range(t: i64) -> bool {
    -0x100_0000_0000 <= t <= 0x100_0000_0000
}

/// The decoded text of a base64 field.
pub open spec fn decoded_text(s: Seq<char>) -> Result<Seq<char>, XtreamError> {
    match base64_decoded(s) {
        None => Err(XtreamError::InvalidBase64),
        Some(b) => if valid_utf8(b) {
            Ok(decode_utf8(b))
        } else {
            Err(XtreamError::InvalidUtf8)
        },
    }
}

fn decode_text(s: &String) -> (r: Result<String, XtreamError>)
    ensures
        match r {
            Ok(t) => decoded_text(s@) == Ok::<Seq<char>, XtreamError>(t@),
            Err(e) => decoded_text(s@) == Err::<Seq<char>, XtreamError>(e),
        },
{
    match decode_base64(s.as_str()) {
        None => Err(XtreamError::InvalidBase64),
        Some(b) => match utf8_text(b) {
            None => Err(XtreamError::InvalidUtf8),
            Some(t) => Ok(t),
        },
    }
}

/// What a listing decodes to before its times are written in local time:
/// title, description, start and stop.
pub open spec fn epg_parts(item: XtreamEpgItem) -> Result<
    (Seq<char>, Seq<char>, i64, i64),
    XtreamError,
> {
    match decoded_text(item.title@) {
        Err(e) => Err(e),
        Ok(t) => match decoded_text(item.description@) {
            Err(e) => Err(e),
            Ok(d) => match (parsed_i64(item.start_timestamp@), parsed_i64(item.stop_timestamp@)) {
                (Some(a), Some(b)) => Ok((t, d, a, b)),
                _ => Err(XtreamError::InvalidTimestamp),
            },
        },
    }
}

/// `e` is the listing `item` displayed: decoded texts, the start timestamp,
/// and start and end times written as local hours and minutes.
pub open spec fn epg_shows(e: EPG, item: XtreamEpgItem) -> bool {
    match epg_parts(item) {
        Ok((t, d, a, _b)) => e.epg_id@ == item.id@ && e.title@ == t && e.description@ == d
            && e.start_timestamp == a && clock_text(e.start_time@) && clock_text(e.end_time@),
        Err(_) => false,
    }
}

/// A listing that decodes, with both times in the clock's range, is shown.
pub open spec fn epg_good(item: XtreamEpgItem) -> bool {
    match epg_parts(item) {
        Ok((_t, _d, a, b)) => in_clock_range(a) && in_clock_range(b),
        Err(_) => false,
    }
}

/// How a listing may fail: with its decoding error, or, where a time is outside
/// the clock's range, with `InvalidTimestamp`.
pub open spec fn epg_fails_with(item: XtreamEpgItem, err: XtreamError) -> bool {
    match epg_parts(item) {
        Err(e) => err == e,
        Ok(_) => !epg_good(item) && err == XtreamError::InvalidTimestamp,
    }
}

/// Decode one listing: a decoding or parsing error comes as `epg_parts` gives
/// it; a listing that decodes with times in the clock's range is shown.
pub fn xtream_epg_to_epg(item: &XtreamEpgItem) -> (r: Result<EPG, XtreamError>)
    ensures
        epg_good(*item) ==> r is Ok,
        match r {
            Ok(e) => epg_shows(e, *item),
            Err(err) => epg_fails_with(*item, err),
        },
{
    let title = match decode_text(&item.title) {
        Ok(t) => t,
        Err(e) => {
            return Err(e);
        },
    };
    let description = match decode_text(&item.description) {
        Ok(t) => t,
        Err(e) => {
            return Err(e);
        },
    };
    let start = parse_i64(&chars_of(item.start_timestamp.as_str()));
    let stop = parse_i64(&chars_of(item.stop_timestamp.as_str()));
    let (a, b) = match (start, stop) {
        (Some(a), Some(b)) => (a, b),
        _ => {
            return Err(XtreamError::InvalidTimestamp);
        },
    };
    let start_time = match local_hour_minute(a) {
        Some(t) => t,
        None => {
            return Err(XtreamError::InvalidTimestamp);
        },
    };
    let end_time = match local_hour_minute(b) {
        Some(t) => t,
        None => {
            return Err(XtreamError::InvalidTimestamp);
        },
    };
    Ok(
        EPG {
            epg_id: item.id.clone(),
            title,
            description,
            start_time,
            start_timestamp: a,
            end_time,
        },
    )
}

/// Decode every listing in order; the first listing that fails fails the whole.
pub fn get_short_epg(items: &Vec<XtreamEpgItem>) -> (r: Result<Vec<EPG>, XtreamError>)
    ensures
        (forall|i: int| 0 <= i < items.len() ==> epg_good(#[trigger] items@[i])) ==> r is Ok,
        match r {
            Ok(v) => v.len() == items.len() && forall|i: int|
                0 <= i < items.len() ==> epg_shows(#[trigger] v@[i], items@[i]),
            Err(err) => exists|i: int|
                0 <= i < items.len() && (forall|k: int|
                    0 <= k < i ==> #[trigger] epg_parts(items@[k]) is Ok) && epg_fails_with(
                    #[trigger] items@[i],
                    err,
                ),
        },
        forall|i: int|
            0 <= i < items.len() && (forall|k: int| 0 <= k < i ==> epg_good(#[trigger] items@[k]))
                && #[trigger] epg_parts(items@[i]) is Err ==> r == Err::<Vec<EPG>, XtreamError>(
                epg_parts(items@[i])->Err_0,
            ),
{
    let mut out: Vec<EPG> = Vec::new();
    let mut i: usize = 0;
    while i < items.len()
        invariant
            i <= items.len(),
            out.len() == i,
            forall|k: int| 0 <= k < i ==> epg_shows(#[trigger] out@[k], items@[k]),
            forall|k: int| 0 <= k < i ==> #[trigger] epg_parts(items@[k]) is Ok,
        decreases items.len() - i,
    {
        match xtream_epg_to_epg(&items[i]) {
            Ok(e) => {
                out.push(e);
                assert(epg_parts(items@[i as int]) is Ok);
            },
            Err(err) => {
                return Err(err);
            },
        }
        i += 1;
    }
    Ok(out)
}


/// A remote ingestion in which only the series listings failed succeeds and
/// stores the live and movie streams.
pub proof fn lemma_series_failure_tolerated(
    before: CatalogView,
    after: CatalogView,
    src: SourceView,
    d: XtreamData,
    r: Result<(), IngestError>,
)
    requires
        xtream_ingested(before, after, src, d, false, r),
        with_origin(src) is Ok,
        !kind_failed(d.live, d.live_cats),
        !kind_failed(d.vods, d.vods_cats),
        kind_failed(d.series, d.series_cats),
        source_upserted(before, src).1 is Ok,
    ensures
        r is Ok,
        ({
            let (c1, sr) = source_upserted(before, src);
            let sid = sr->Ok_0;
            let s = SourceView { id: Some(sid), ..with_origin(src)->Ok_0 };
            after == kind_committed(
                kind_committed(c1, d.live, d.live_cats, s, sid, LIVESTREAM),
                d.vods,
                d.vods_cats,
                s,
                sid,
                MOVIE,
            )
        }),
{
}

/// A remote ingestion in which all three kinds failed is rejected and leaves
/// the catalog, and so the source's prior rows, as they were.
pub proof fn lemma_all_failed_rolls_back(
    before: CatalogView,
    after: CatalogView,
    src: SourceView,
    d: XtreamData,
    wipe: bool,
    r: Result<(), IngestError>,
)
    requires
        xtream_ingested(before, after, src, d, wipe, r),
        with_origin(src) is Ok,
        kind_failed(d.live, d.live_cats),
        kind_failed(d.vods, d.vods_cats),
        kind_failed(d.series, d.series_cats),
    ensures
        r == Err::<(), IngestError>(IngestError::TooManyFailures),
        after == before,
{
}


/// Storing streams leaves the source rows as they were.
pub proof fn lemma_streams_keep_sources(
    c: CatalogView,
    sts: Seq<StreamView>,
    cats: Seq<(Seq<char>, Seq<char>)>,
    s: SourceView,
    source_id: i64,
    kind: u8,
)
    ensures
        streams_committed(c, sts, cats, s, source_id, kind).sources == c.sources,
    decreases sts.len(),
{
    if sts.len() > 0 {
        lemma_streams_keep_sources(c, sts.drop_last(), cats, s, source_id, kind);
    }
}

pub proof fn lemma_kinds_keep_sources(c: CatalogView, d: XtreamData, s: SourceView, source_id: i64)
    ensures
        kinds_committed(c, d, s, source_id).sources == c.sources,
{
    let c1 = kind_committed(c, d.live, d.live_cats, s, source_id, LIVESTREAM);
    let c2 = kind_committed(c1, d.vods, d.vods_cats, s, source_id, MOVIE);
    match (d.live, d.live_cats) {
        (Some(st), Some(ca)) => lemma_streams_keep_sources(
            c,
            stream_views(st@),
            category_pairs(ca@),
            s,
            source_id,
            LIVESTREAM,
        ),
        _ => {},
    }
    match (d.vods, d.vods_cats) {
        (Some(st), Some(ca)) => lemma_streams_keep_sources(
            c1,
            stream_views(st@),
            category_pairs(ca@),
            s,
            source_id,
            MOVIE,
        ),
        _ => {},
    }
    match (d.series, d.series_cats) {
        (Some(st), Some(ca)) => lemma_streams_keep_sources(
            c2,
            stream_views(st@),
            category_pairs(ca@),
            s,
            source_id,
            SERIE,
        ),
        _ => {},
    }
}


/// Some stream of the listing converts to a channel named `name`.
pub open spec fn stream_named(
    sts: Seq<StreamView>,
    cats: Seq<(Seq<char>, Seq<char>)>,
    s: SourceView,
    kind: u8,
    name: Seq<char>,
) -> bool {
    exists|j: int|
        0 <= j < sts.len() && #[trigger] stream_channel(
            sts[j],
            s,
            kind,
            category_of(cats, sts[j].category_id),
        ) is Ok && stream_channel(sts[j], s, kind, category_of(cats, sts[j].category_id))->Ok_0.name
            == name
}

proof fn lemma_stream_step(
    c: CatalogView,
    st: StreamView,
    cats: Seq<(Seq<char>, Seq<char>)>,
    s: SourceView,
    source_id: i64,
    kind: u8,
)
    requires
        s.id == Some(source_id),
    ensures
        ({
            let c2 = stream_committed(c, st, cats, s, source_id, kind);
            let conv = stream_channel(st, s, kind, category_of(cats, st.category_id));
            &&& c.next_id <= c2.next_id <= c.next_id + 2
            &&& c2.channels.len() >= c.channels.len()
            &&& forall|i: int|
                0 <= i < c.channels.len() ==> (#[trigger] c2.channels[i]).name
                    == c.channels[i].name && c2.channels[i].source_id == c.channels[i].source_id
            &&& forall|i: int|
                c.channels.len() <= i < c2.channels.len() ==> conv is Ok
                    && (#[trigger] c2.channels[i]).name == conv->Ok_0.name
                    && c2.channels[i].source_id == Some(source_id)
            &&& conv is Ok && c.next_id + 1 < i64::MAX ==> crate::m3u::has_channel(
                c2,
                source_id,
                conv->Ok_0.name,
            )
        }),
{
    match stream_channel(st, s, kind, category_of(cats, st.category_id)) {
        Err(_) => {},
        Ok(ch) => {
            let (c1, ch1, _g) = group_resolved(c, ch, source_id);
            assert(c1.channels == c.channels);
            let p = crate::store::channel_keyed(ch1);
            crate::store::lemma_first_index(c1.channels, p);
            let k = first_index(c1.channels, p);
            let c2 = channel_upserted(c1, ch1).0;
            if c.next_id + 1 < i64::MAX {
                let idx = if k < c1.channels.len() {
                    k
                } else {
                    c1.channels.len() as int
                };
                assert(c2.channels[idx].source_id == Some(source_id) && c2.channels[idx].name
                    == ch.name);
            }
        },
    }
}

/// Storing a listing keeps every row's name and source; every added row belongs
/// to the source and is named by a stream; where ids suffice (two per stream),
/// every stream that converts leaves a channel of its name.
pub proof fn lemma_streams_rows(
    c: CatalogView,
    sts: Seq<StreamView>,
    cats: Seq<(Seq<char>, Seq<char>)>,
    s: SourceView,
    source_id: i64,
    kind: u8,
)
    requires
        s.id == Some(source_id),
    ensures
        ({
            let r = streams_committed(c, sts, cats, s, source_id, kind);
            &&& c.next_id <= r.next_id <= c.next_id + 2 * sts.len()
            &&& r.channels.len() >= c.channels.len()
            &&& forall|i: int|
                0 <= i < c.channels.len() ==> (#[trigger] r.channels[i]).name == c.channels[i].name
                    && r.channels[i].source_id == c.channels[i].source_id
            &&& forall|i: int|
                c.channels.len() <= i < r.channels.len() ==> (#[trigger] r.channels[i]).source_id
                    == Some(source_id) && stream_named(sts, cats, s, kind, r.channels[i].name)
            &&& c.next_id + 2 * sts.len() < i64::MAX ==> forall|j: int|
                0 <= j < sts.len() && #[trigger] stream_channel(
                    sts[j],
                    s,
                    kind,
                    category_of(cats, sts[j].category_id),
                ) is Ok ==> crate::m3u::has_channel(
                    r,
                    source_id,
                    stream_channel(sts[j], s, kind, category_of(cats, sts[j].category_id))->Ok_0.name,
                )
        }),
    decreases sts.len(),
{
    if sts.len() > 0 {
        let init = sts.drop_last();
        lemma_streams_rows(c, init, cats, s, source_id, kind);
        let c1 = streams_committed(c, init, cats, s, source_id, kind);
        lemma_stream_step(c1, sts.last(), cats, s, source_id, kind);
        let r = streams_committed(c, sts, cats, s, source_id, kind);
        assert forall|i: int| c.channels.len() <= i < r.channels.len() implies (
        #[trigger] r.channels[i]).source_id == Some(source_id) && stream_named(
            sts,
            cats,
            s,
            kind,
            r.channels[i].name,
        ) by {
            if i < c1.channels.len() {
                let j = choose|j: int|
                    0 <= j < init.len() && #[trigger] stream_channel(
                        init[j],
                        s,
                        kind,
                        category_of(cats, init[j].category_id),
                    ) is Ok && stream_channel(
                        init[j],
                        s,
                        kind,
                        category_of(cats, init[j].category_id),
                    )->Ok_0.name == c1.channels[i].name;
                assert(sts[j] == init[j]);
            } else {
                assert(sts[sts.len() - 1] == sts.last());
            }
        }
        if c.next_id + 2 * sts.len() < i64::MAX {
            assert forall|j: int|
                0 <= j < sts.len() && #[trigger] stream_channel(
                    sts[j],
                    s,
                    kind,
                    category_of(cats, sts[j].category_id),
                ) is Ok implies crate::m3u::has_channel(
                r,
                source_id,
                stream_channel(sts[j], s, kind, category_of(cats, sts[j].category_id))->Ok_0.name,
            ) by {
                if j < init.len() {
                    assert(sts[j] == init[j]);
                    let n = stream_channel(
                        sts[j],
                        s,
                        kind,
                        category_of(cats, sts[j].category_id),
                    )->Ok_0.name;
                    let i = choose|i: int|
                        0 <= i < c1.channels.len() && (#[trigger] c1.channels[i]).source_id == Some(
                            source_id,
                        ) && c1.channels[i].name == n;
                    assert(r.channels[i].name == n);
                } else {
                    assert(sts[j] == sts.last());
                }
            }
        }
    }
}

/// A kind whose listings both came names `name` through one of its streams.
pub open spec fn kind_named(
    streams: Option<Vec<XtreamStream>>,
    cats: Option<Vec<XtreamCategory>>,
    s: SourceView,
    kind: u8,
    name: Seq<char>,
) -> bool {
    match (streams, cats) {
        (Some(st), Some(ca)) => stream_named(stream_views(st@), category_pairs(ca@), s, kind, name),
        _ => false,
    }
}

/// Some stream of the live, movie or series listings gives the name.
pub open spec fn remote_named(d: XtreamData, s: SourceView, name: Seq<char>) -> bool {
    kind_named(d.live, d.live_cats, s, LIVESTREAM, name) || kind_named(
        d.vods,
        d.vods_cats,
        s,
        MOVIE,
        name,
    ) || kind_named(d.series, d.series_cats, s, SERIE, name)
}

pub open spec fn listing_len(streams: Option<Vec<XtreamStream>>) -> int {
    match streams {
        Some(st) => st.len() as int,
        None => 0,
    }
}

/// The stream records of all three listings.
pub open spec fn stream_count(d: XtreamData) -> int {
    listing_len(d.live) + listing_len(d.vods) + listing_len(d.series)
}

proof fn lemma_kind_rows(
    c: CatalogView,
    streams: Option<Vec<XtreamStream>>,
    cats: Option<Vec<XtreamCategory>>,
    s: SourceView,
    source_id: i64,
    kind: u8,
)
    requires
        s.id == Some(source_id),
    ensures
        ({
            let r = kind_committed(c, streams, cats, s, source_id, kind);
            &&& c.next_id <= r.next_id <= c.next_id + 2 * listing_len(streams)
            &&& r.channels.len() >= c.channels.len()
            &&& forall|i: int|
                0 <= i < c.channels.len() ==> (#[trigger] r.channels[i]).name == c.channels[i].name
                    && r.channels[i].source_id == c.channels[i].source_id
            &&& forall|i: int|
                c.channels.len() <= i < r.channels.len() ==> (#[trigger] r.channels[i]).source_id
                    == Some(source_id) && kind_named(streams, cats, s, kind, r.channels[i].name)
            &&& forall|n: Seq<char>|
                c.next_id + 2 * listing_len(streams) < i64::MAX && #[trigger] kind_named(
                    streams,
                    cats,
                    s,
                    kind,
                    n,
                ) ==> crate::m3u::has_channel(r, source_id, n)
        }),
{
    match (streams, cats) {
        (Some(st), Some(ca)) => {
            lemma_streams_rows(c, stream_views(st@), category_pairs(ca@), s, source_id, kind);
            let sts = stream_views(st@);
            let cs = category_pairs(ca@);
            let r = kind_committed(c, streams, cats, s, source_id, kind);
            assert forall|n: Seq<char>|
                c.next_id + 2 * listing_len(streams) < i64::MAX && #[trigger] kind_named(
                    streams,
                    cats,
                    s,
                    kind,
                    n,
                ) implies crate::m3u::has_channel(r, source_id, n) by {
                let j = choose|j: int|
                    0 <= j < sts.len() && #[trigger] stream_channel(
                        sts[j],
                        s,
                        kind,
                        category_of(cs, sts[j].category_id),
                    ) is Ok && stream_channel(sts[j], s, kind, category_of(cs, sts[j].category_id))->Ok_0.name
                        == n;
            }
        },
        _ => {},
    }
}

/// Storing the three listings: every row added belongs to the source and is
/// named by some stream; where ids suffice, every converting stream leaves a
/// channel of its name.
pub proof fn lemma_kinds_rows(c: CatalogView, d: XtreamData, s: SourceView, source_id: i64)
    requires
        s.id == Some(source_id),
    ensures
        ({
            let r = kinds_committed(c, d, s, source_id);
            &&& forall|i: int|
                0 <= i < c.channels.len() ==> (#[trigger] r.channels[i]).name == c.channels[i].name
                    && r.channels[i].source_id == c.channels[i].source_id
            &&& forall|i: int|
                c.channels.len() <= i < r.channels.len() ==> (#[trigger] r.channels[i]).source_id
                    == Some(source_id) && remote_named(d, s, r.channels[i].name)
            &&& forall|n: Seq<char>|
                c.next_id + 2 * stream_count(d) < i64::MAX && #[trigger] remote_named(d, s, n)
                    ==> crate::m3u::has_channel(r, source_id, n)
        }),
{
    let c1 = kind_committed(c, d.live, d.live_cats, s, source_id, LIVESTREAM);
    let c2 = kind_committed(c1, d.vods, d.vods_cats, s, source_id, MOVIE);
    let r = kinds_committed(c, d, s, source_id);
    lemma_kind_rows(c, d.live, d.live_cats, s, source_id, LIVESTREAM);
    lemma_kind_rows(c1, d.vods, d.vods_cats, s, source_id, MOVIE);
    lemma_kind_rows(c2, d.series, d.series_cats, s, source_id, SERIE);
    assert forall|i: int| c.channels.len() <= i < r.channels.len() implies (
    #[trigger] r.channels[i]).source_id == Some(source_id) && remote_named(
        d,
        s,
        r.channels[i].name,
    ) by {
        if i < c1.channels.len() {
            assert(r.channels[i].name == c1.channels[i].name);
        } else if i < c2.channels.len() {
            assert(r.channels[i].name == c2.channels[i].name);
        }
    }
    assert forall|n: Seq<char>|
        c.next_id + 2 * stream_count(d) < i64::MAX && #[trigger] remote_named(d, s, n) implies crate::m3u::has_channel(
        r,
        source_id,
        n,
    ) by {
        if kind_named(d.live, d.live_cats, s, LIVESTREAM, n) {
            assert(crate::m3u::has_channel(c1, source_id, n));
            let i = choose|i: int|
                0 <= i < c1.channels.len() && (#[trigger] c1.channels[i]).source_id == Some(
                    source_id,
                ) && c1.channels[i].name == n;
            assert(r.channels[i].name == n && c2.channels[i].name == n);
        } else if kind_named(d.vods, d.vods_cats, s, MOVIE, n) {
            assert(crate::m3u::has_channel(c2, source_id, n));
            let i = choose|i: int|
                0 <= i < c2.channels.len() && (#[trigger] c2.channels[i]).source_id == Some(
                    source_id,
                ) && c2.channels[i].name == n;
            assert(r.channels[i].name == n);
        }
    }
}

/// A remote-API refresh leaves no channel of the source with a name that no
/// stream of the new listings gives: a favorite gone upstream is not recreated.
pub proof fn lemma_remote_refresh_drops_absent(
    before: CatalogView,
    after: CatalogView,
    src: SourceView,
    d: XtreamData,
    r: Result<(), IngestError>,
    name: Seq<char>,
)
    requires
        xtream_ingested(before, after, src, d, true, r),
        r is Ok,
        !remote_named(d, with_origin(src)->Ok_0, name),
    ensures
        forall|i: int|
            0 <= i < after.channels.len() && (#[trigger] after.channels[i]).source_id == src.id
                ==> after.channels[i].name != name,
{
    let s1 = with_origin(src)->Ok_0;
    let sid = s1.id->0;
    let w = wiped(before, sid);
    lemma_kinds_rows(w, d, s1, sid);
    let c1 = kinds_committed(w, d, s1, sid);
    assert forall|i: int|
        0 <= i < after.channels.len() && (#[trigger] after.channels[i]).source_id
            == src.id implies after.channels[i].name != name by {
        assert(after.channels[i] == crate::store::restored_channel(
            c1.channels[i],
            sid,
            preserved_channels(before.channels, sid),
        ));
        if i < w.channels.len() {
            w.channels.lemma_filter_pred(crate::store::channel_not_of(sid), i);
        }
    }
}

/// A remote-API refresh keeps favorites present upstream: where a non-episode
/// channel of the source named `name` was favorite (and every such channel of
/// that name was), and a stream of the new listings gives the name, the source
/// has a favorite channel of that name afterwards, provided ids do not run out.
pub proof fn lemma_remote_refresh_keeps_favorite(
    before: CatalogView,
    after: CatalogView,
    src: SourceView,
    d: XtreamData,
    r: Result<(), IngestError>,
    name: Seq<char>,
)
    requires
        xtream_ingested(before, after, src, d, true, r),
        r is Ok,
        remote_named(d, with_origin(src)->Ok_0, name),
        before.next_id + 2 * stream_count(d) < i64::MAX,
        exists|j: int|
            0 <= j < before.channels.len() && #[trigger] crate::store::preservable(src.id->0)(
                before.channels[j],
            ) && before.channels[j].favorite && before.channels[j].name == name,
        forall|j: int|
            0 <= j < before.channels.len() && #[trigger] crate::store::preservable(src.id->0)(
                before.channels[j],
            ) && before.channels[j].name == name ==> before.channels[j].favorite,
    ensures
        exists|i: int|
            0 <= i < after.channels.len() && (#[trigger] after.channels[i]).source_id == src.id
                && after.channels[i].name == name && after.channels[i].favorite,
{
    let s1 = with_origin(src)->Ok_0;
    let sid = s1.id->0;
    let w = wiped(before, sid);
    lemma_kinds_rows(w, d, s1, sid);
    let c1 = kinds_committed(w, d, s1, sid);
    assert(crate::m3u::has_channel(c1, sid, name));
    let i = choose|i: int|
        0 <= i < c1.channels.len() && (#[trigger] c1.channels[i]).source_id == Some(sid)
            && c1.channels[i].name == name;
    crate::store::lemma_restore_keeps_favorites(before, c1, after, sid, i);
}

} // verus!
