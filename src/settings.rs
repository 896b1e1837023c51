//! User settings, kept as key-value text pairs.
use vstd::prelude::*;
use crate::numeric::{decimal, decimal_chars, parse_u64, parsed_u64};
use crate::text::{chars_of, string_of};
use crate::types::Settings;

verus! {

pub open spec fn pair_texts(v: Seq<(String, String)>) -> Seq<(Seq<char>, Seq<char>)> {
    v.map_values(|p: (String, String)| (p.0@, p.1@))
}

pub open spec fn key_is(key: Seq<char>) -> spec_fn((Seq<char>, Seq<char>)) -> bool {
    |p: (Seq<char>, Seq<char>)| p.0 == key
}

/// The value stored under a key: the first pair with that key.
pub open spec fn value_of(pairs: Seq<(Seq<char>, Seq<char>)>, key: Seq<char>) -> Option<Seq<char>> {
    let k = crate::store::first_index(pairs, key_is(key));
    if k < pairs.len() {
        Some(pairs[k].1)
    } else {
        None
    }
}

pub open spec fn true_text() -> Seq<char> {
    seq!['t', 'r', 'u', 'e']
}

pub open spec fn false_text() -> Seq<char> {
    seq!['f', 'a', 'l', 's', 'e']
}

/// What `str::parse::<bool>` yields.
pub open spec fn parsed_bool(s: Seq<char>) -> Option<bool> {
    if s == true_text() {
        Some(true)
    } else if s == false_text() {
        Some(false)
    } else {
        None
    }
}

/// What `str::parse::<u8>` yields.
pub open spec fn parsed_u8(s: Seq<char>) -> Option<u8> {
    match parsed_u64(s) {
        Some(v) => if v <= 255 {
            Some(v as u8)
        } else {
            None
        },
        None => None,
    }
}

pub open spec fn bool_setting(pairs: Seq<(Seq<char>, Seq<char>)>, key: Seq<char>) -> Option<bool> {
    match value_of(pairs, key) {
        Some(v) => parsed_bool(v),
        None => None,
    }
}

pub open spec fn u8_setting(pairs: Seq<(Seq<char>, Seq<char>)>, key: Seq<char>) -> Option<u8> {
    match value_of(pairs, key) {
        Some(v) => parsed_u8(v),
        None => None,
    }
}

pub open spec fn stream_caching_key() -> Seq<char> {
    seq!['u', 's', 'e', 'S', 't', 'r', 'e', 'a', 'm', 'i', 'n', 'g', 'C', 'a', 'c', 'h', 'i', 'n', 'g']
}

pub open spec fn default_view_key() -> Seq<char> {
    seq!['d', 'e', 'f', 'a', 'u', 'l', 't', 'V', 'i', 'e', 'w']
}

pub open spec fn refresh_on_start_key() -> Seq<char> {
    seq!['r', 'e', 'f', 'r', 'e', 's', 'h', 'O', 'n', 'S', 't', 'a', 'r', 't']
}

pub open spec fn default_sort_key() -> Seq<char> {
    seq!['d', 'e', 'f', 'a', 'u', 'l', 't', 'S', 'o', 'r', 't']
}

pub open spec fn force_tv_mode_key() -> Seq<char> {
    seq!['f', 'o', 'r', 'c', 'e', 'T', 'V', 'M', 'o', 'd', 'e']
}

fn find_value(pairs: &Vec<(String, String)>, key: &Vec<char>) -> (r: Option<Vec<char>>)
    ensures
        r.deep_view() == value_of(pair_texts(pairs@), key@),
{
    let ghost ps = pair_texts(pairs@);
    let k = string_of(key);
    let mut i: usize = 0;
    while i < pairs.len()
        invariant
            i <= pairs.len(),
            ps == pair_texts(pairs@),
            k@ == key@,
            crate::store::first_index(ps, key_is(key@)) == crate::store::first_from(
                ps,
                key_is(key@),
                i as int,
            ),
        decreases pairs.len() - i,
    {
        assert(ps[i as int] == (pairs@[i as int].0@, pairs@[i as int].1@));
        if pairs[i].0 == k {
            let v = chars_of(pairs[i].1.as_str());
            let r = Some(v);
            assert(r.deep_view() =~= Some(v@));
            return r;
        }
        i += 1;
    }
    None
}

fn seq_eq(a: &Vec<char>, b: &Vec<char>) -> (r: bool)
    ensures
        r == (a@ == b@),
{
    if a.len() != b.len() {
        return false;
    }
    let mut i: usize = 0;
    while i < a.len()
        invariant
            a.len() == b.len(),
            i <= a.len(),
            forall|k: int| 0 <= k < i ==> a@[k] == b@[k],
        decreases a.len() - i,
    {
        if a[i] != b[i] {
            return false;
        }
        i += 1;
    }
    assert(a@ =~= b@);
    true
}

fn bool_value(v: &Option<Vec<char>>) -> (r: Option<bool>)
    ensures
        r == match v.deep_view() {
            Some(s) => parsed_bool(s),
            None => None,
        },
{
    match v {
        None => None,
        Some(s) => {
            assert(v.deep_view() == Some(s@));
            let t = chars_of("true");
            let f = chars_of("false");
            proof {
                reveal_strlit("true");
                reveal_strlit("false");
                assert(t@ =~= true_text());
                assert(f@ =~= false_text());
            }
            if seq_eq(s, &t) {
                Some(true)
            } else if seq_eq(s, &f) {
                Some(false)
            } else {
                None
            }
        },
    }
}

fn u8_value(v: &Option<Vec<char>>) -> (r: Option<u8>)
    ensures
        r == match v.deep_view() {
            Some(s) => parsed_u8(s),
            None => None,
        },
{
    match v {
        None => None,
        Some(s) => {
            assert(v.deep_view() == Some(s@));
            match parse_u64(s) {
                Some(n) => if n <= 255 {
                    Some(n as u8)
                } else {
                    None
                },
                None => None,
            }
        },
    }
}

/// The settings that stored key-value pairs hold; a missing or unreadable value is none.
pub fn get_settings(pairs: &Vec<(String, String)>) -> (r: Settings)
    ensures
        r.use_stream_caching == bool_setting(pair_texts(pairs@), stream_caching_key()),
        r.default_view == u8_setting(pair_texts(pairs@), default_view_key()),
        r.refresh_on_start == bool_setting(pair_texts(pairs@), refresh_on_start_key()),
        r.default_sort == u8_setting(pair_texts(pairs@), default_sort_key()),
        r.force_tv_mode == bool_setting(pair_texts(pairs@), force_tv_mode_key()),
{
    let k1 = chars_of("useStreamingCaching");
    let k2 = chars_of("defaultView");
    let k3 = chars_of("refreshOnStart");
    let k4 = chars_of("defaultSort");
    let k5 = chars_of("forceTVMode");
    proof {
        reveal_strlit("useStreamingCaching");
        reveal_strlit("defaultView");
        reveal_strlit("refreshOnStart");
        reveal_strlit("defaultSort");
        reveal_strlit("forceTVMode");
        assert(k1@ =~= stream_caching_key());
        assert(k2@ =~= default_view_key());
        assert(k3@ =~= refresh_on_start_key());
        assert(k4@ =~= default_sort_key());
        assert(k5@ =~= force_tv_mode_key());
    }
    Settings {
        use_stream_caching: bool_value(&find_value(pairs, &k1)),
        default_view: u8_value(&find_value(pairs, &k2)),
        refresh_on_start: bool_value(&find_value(pairs, &k3)),
        default_sort: u8_value(&find_value(pairs, &k4)),
        force_tv_mode: bool_value(&find_value(pairs, &k5)),
    }
}

pub open spec fn bool_text(b: bool) -> Seq<char> {
    if b {
        true_text()
    } else {
        false_text()
    }
}

pub open spec fn bool_pair(key: Seq<char>, v: Option<bool>) -> Seq<(Seq<char>, Seq<char>)> {
    match v {
        Some(b) => seq![(key, bool_text(b))],
        None => Seq::empty(),
    }
}

pub open spec fn u8_pair(key: Seq<char>, v: Option<u8>) -> Seq<(Seq<char>, Seq<char>)> {
    match v {
        Some(n) => seq![(key, decimal(n as nat))],
        None => Seq::empty(),
    }
}

/// The pairs that store the settings that are set, in field order.
pub open spec fn settings_pairs(s: Settings) -> Seq<(Seq<char>, Seq<char>)> {
    bool_pair(stream_caching_key(), s.use_stream_caching) + u8_pair(
        default_view_key(),
        s.default_view,
    ) + bool_pair(refresh_on_start_key(), s.refresh_on_start) + u8_pair(
        default_sort_key(),
        s.default_sort,
    ) + bool_pair(force_tv_mode_key(), s.force_tv_mode)
}

fn push_bool(out: &mut Vec<(String, String)>, key: &str, v: Option<bool>)
    ensures
        pair_texts(final(out)@) == pair_texts(old(out)@) + bool_pair(key@, v),
{
    match v {
        None => {
            assert(pair_texts(old(out)@) + Seq::empty() =~= pair_texts(old(out)@));
        },
        Some(b) => {
            let t = if b {
                let t = chars_of("true");
                proof {
                    reveal_strlit("true");
                }
                assert(t@ =~= true_text());
                t
            } else {
                let t = chars_of("false");
                proof {
                    reveal_strlit("false");
                }
                assert(t@ =~= false_text());
                t
            };
            let ghost prev = out@;
            out.push((string_of(&chars_of(key)), string_of(&t)));
            assert(pair_texts(out@) =~= pair_texts(prev) + bool_pair(key@, v));
        },
    }
}

fn push_u8(out: &mut Vec<(String, String)>, key: &str, v: Option<u8>)
    ensures
        pair_texts(final(out)@) == pair_texts(old(out)@) + u8_pair(key@, v),
{
    match v {
        None => {
            assert(pair_texts(old(out)@) + Seq::empty() =~= pair_texts(old(out)@));
        },
        Some(n) => {
            let ghost prev = out@;
            out.push((string_of(&chars_of(key)), string_of(&decimal_chars(n as u64))));
            assert(pair_texts(out@) =~= pair_texts(prev) + u8_pair(key@, v));
        },
    }
}

/// The key-value pairs to store for the settings that are set.
pub fn update_settings(settings: &Settings) -> (r: Vec<(String, String)>)
    ensures
        pair_texts(r@) == settings_pairs(*settings),
{
    let mut out: Vec<(String, String)> = Vec::new();
    proof {
        reveal_strlit("useStreamingCaching");
        reveal_strlit("defaultView");
        reveal_strlit("refreshOnStart");
        reveal_strlit("defaultSort");
        reveal_strlit("forceTVMode");
        assert("useStreamingCaching"@ =~= stream_caching_key());
        assert("defaultView"@ =~= default_view_key());
        assert("refreshOnStart"@ =~= refresh_on_start_key());
        assert("defaultSort"@ =~= default_sort_key());
        assert("forceTVMode"@ =~= force_tv_mode_key());
    }
    assert(pair_texts(out@) =~= Seq::<(Seq<char>, Seq<char>)>::empty());
    push_bool(&mut out, "useStreamingCaching", settings.use_stream_caching);
    push_u8(&mut out, "defaultView", settings.default_view);
    push_bool(&mut out, "refreshOnStart", settings.refresh_on_start);
    push_u8(&mut out, "defaultSort", settings.default_sort);
    push_bool(&mut out, "forceTVMode", settings.force_tv_mode);
    assert(pair_texts(out@) =~= settings_pairs(*settings));
    out
}

} // verus!
