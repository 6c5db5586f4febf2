use crate::bbc::{
    BbcResponseError, Connection, ContainerListData, Media, MediaList, QualityVariant,
    QualityVariants, Synopses,
};
use crate::text::{
    after_last, contains, contains_spec, decimal, parse_u32, parsed_u32, push_str, text_after_last,
    to_decimal,
};
use vstd::prelude::*;

verus! {

/// A piece of a URL template: literal text, or the name of a `{variable}`.
#[derive(Clone, Debug)]
pub enum TemplatePiece {
    Text(String),
    Var(String),
}

pub open spec fn piece_view(p: TemplatePiece) -> (bool, Seq<char>) {
    match p {
        TemplatePiece::Text(t) => (false, t@),
        TemplatePiece::Var(v) => (true, v@),
    }
}

pub open spec fn pieces_view(ps: Seq<TemplatePiece>) -> Seq<(bool, Seq<char>)> {
    ps.map_values(|p: TemplatePiece| piece_view(p))
}

/// The first index from `i` on that holds a brace, if any.
pub open spec fn next_brace(s: Seq<char>, i: int) -> Option<int>
    decreases s.len() - i,
{
    if i < 0 || i >= s.len() {
        None
    } else if s[i] == '{' || s[i] == '}' {
        Some(i)
    } else {
        next_brace(s, i + 1)
    }
}

/// Where the variable that opens at `i` closes: `{`, then one or more
/// characters that are no brace, then `}`.
pub open spec fn variable_at(s: Seq<char>, i: int) -> Option<int> {
    if 0 <= i < s.len() && s[i] == '{' {
        match next_brace(s, i + 1) {
            Some(c) => if s[c] == '}' && c > i + 1 {
                Some(c)
            } else {
                None
            },
            None => None,
        }
    } else {
        None
    }
}

/// The pieces of `s` from `i` on, the text in progress starting at `start`:
/// matches are taken leftmost first, and the search goes on after each one.
pub open spec fn pieces_from(s: Seq<char>, start: int, i: int) -> Seq<(bool, Seq<char>)>
    decreases s.len() - i,
{
    if i >= s.len() {
        seq![(false, s.subrange(start, s.len() as int))]
    } else {
        match variable_at(s, i) {
            Some(c) => if i < c < s.len() {
                seq![(false, s.subrange(start, i)), (true, s.subrange(i + 1, c))] + pieces_from(
                    s,
                    c + 1,
                    c + 1,
                )
            } else {
                pieces_from(s, start, i + 1)
            },
            None => pieces_from(s, start, i + 1),
        }
    }
}

/// How the pattern `\{([^\{\}]+)\}` cuts the template `url`: the text before,
/// between and after the matches, and each match's name, in order.
pub open spec fn template_pieces(url: Seq<char>) -> Seq<(bool, Seq<char>)> {
    pieces_from(url, 0, 0)
}

/// Relies on regex's `Regex::captures_iter` with the pattern `\{([^\{\}]+)\}`:
/// its matches are found leftmost first and do not overlap; the text before,
/// between and after them, and each match's name, are handed out in order.
#[verifier::external_body]
fn split_template(url: &str) -> (r: Vec<TemplatePiece>)
    ensures
        pieces_view(r@) == template_pieces(url@),
{
    let re = regex::Regex::new(r"\{([^\{\}]+)\}").unwrap();
    let mut pieces = Vec::new();
    let mut last: usize = 0;
    for caps in re.captures_iter(url) {
        let m = caps.get(0).unwrap();
        pieces.push(TemplatePiece::Text(url[last..m.start()].to_string()));
        pieces.push(TemplatePiece::Var(caps[1].to_string()));
        last = m.end();
    }
    pieces.push(TemplatePiece::Text(url[last..].to_string()));
    pieces
}

/// The value of a URL variable: images come 400 pixels square.
pub open spec fn url_variable(name: Seq<char>) -> Option<Seq<char>> {
    if name == "recipe"@ {
        Some("400x400"@)
    } else {
        None
    }
}

/// The template's text with each variable replaced by its value; `None` if a
/// variable has no value.
pub open spec fn render(ps: Seq<(bool, Seq<char>)>) -> Option<Seq<char>>
    decreases ps.len(),
{
    if ps.len() == 0 {
        Some(Seq::empty())
    } else {
        match render(ps.drop_last()) {
            None => None,
            Some(prefix) => {
                let (is_var, text) = ps.last();
                if !is_var {
                    Some(prefix + text)
                } else {
                    match url_variable(text) {
                        Some(value) => Some(prefix + value),
                        None => None,
                    }
                }
            },
        }
    }
}

fn variable_value(name: &String) -> (r: Option<&'static str>)
    ensures
        match url_variable(name@) {
            Some(v) => r matches Some(s) && s@ == v,
            None => r is None,
        },
{
    if *name == "recipe".to_owned() {
        Some("400x400")
    } else {
        None
    }
}

/// Fills in the variables of a cut template.
pub fn render_template(pieces: &Vec<TemplatePiece>) -> (r: Option<String>)
    ensures
        match render(pieces_view(pieces@)) {
            Some(s) => r matches Some(t) && t@ == s,
            None => r is None,
        },
{
    let mut out = String::new();
    let mut i: usize = 0;
    while i < pieces.len()
        invariant
            i <= pieces@.len(),
            render(pieces_view(pieces@).take(i as int)) == Some(out@),
        decreases pieces@.len() - i,
    {
        let ghost ps = pieces_view(pieces@).take(i + 1);
        assert(ps.drop_last() =~= pieces_view(pieces@).take(i as int));
        assert(ps.last() == piece_view(pieces@[i as int]));
        match &pieces[i] {
            TemplatePiece::Text(t) => {
                push_str(&mut out, t.as_str());
            },
            TemplatePiece::Var(name) => {
                match variable_value(name) {
                    Some(value) => {
                        push_str(&mut out, value);
                    },
                    None => {
                        proof {
                            lemma_render_none_extends(pieces_view(pieces@), i as int + 1);
                        }
                        return None;
                    },
                }
            },
        }
        i = i + 1;
    }
    assert(pieces_view(pieces@).take(pieces@.len() as int) =~= pieces_view(pieces@));
    Some(out)
}

/// Once a prefix of the pieces has no rendering, the whole has none.
proof fn lemma_render_none_extends(ps: Seq<(bool, Seq<char>)>, k: int)
    requires
        0 <= k <= ps.len(),
        render(ps.take(k)) is None,
    ensures
        render(ps) is None,
    decreases ps.len() - k,
{
    if k < ps.len() {
        assert(ps.take(k + 1).drop_last() =~= ps.take(k));
        lemma_render_none_extends(ps, k + 1);
    } else {
        assert(ps.take(k) =~= ps);
    }
}

/// The URL template with its variables filled in, or `None` if one of them has
/// no value.
pub fn template_url(url: String) -> (r: Option<String>)
    ensures
        match render(template_pieces(url@)) {
            Some(s) => r matches Some(t) && t@ == s,
            None => r is None,
        },
{
    let pieces = split_template(url.as_str());
    render_template(&pieces)
}

/// The bitrate a media record declares; zero where it is not a number.
pub open spec fn bitrate_of(m: Media) -> u32 {
    match parsed_u32(m.bitrate@) {
        Some(b) => b,
        None => 0,
    }
}

/// The last, in their order, of the items of highest key: what a stable sort
/// by key leaves at the end.
pub open spec fn last_of_highest(items: Seq<(usize, u32)>) -> Option<(usize, u32)>
    decreases items.len(),
{
    if items.len() == 0 {
        None
    } else {
        let b = last_of_highest(items.drop_last());
        if b is None || b->Some_0.1 <= items.last().1 {
            Some(items.last())
        } else {
            b
        }
    }
}

/// Relies on itertools' `Itertools::sorted_by_key`, a stable sort by key (it
/// uses `slice::sort_by_key`): its last item is the last, in the given order,
/// of the items of highest key.
#[verifier::external_body]
fn last_sorted_by_key(items: Vec<(usize, u32)>) -> (r: Option<(usize, u32)>)
    ensures
        r == last_of_highest(items@),
{
    itertools::Itertools::sorted_by_key(items.into_iter(), |item| item.1).last()
}

proof fn lemma_last_of_highest_member(items: Seq<(usize, u32)>)
    ensures
        last_of_highest(items) matches Some(x) ==> items.contains(x),
    decreases items.len(),
{
    if items.len() > 0 {
        lemma_last_of_highest_member(items.drop_last());
        if let Some(x) = last_of_highest(items.drop_last()) {
            if items.drop_last().contains(x) {
                let k = choose|k: int| 0 <= k < items.drop_last().len() && items.drop_last()[k] == x;
                assert(items[k] == x);
            }
        }
        assert(items[items.len() - 1] == items.last());
    }
}

/// Each audio media record by its index, with its bitrate as the key.
pub open spec fn audio_items(ms: Seq<Media>) -> Seq<(usize, u32)>
    decreases ms.len(),
{
    if ms.len() == 0 {
        Seq::empty()
    } else {
        let rest = audio_items(ms.drop_last());
        if ms.last().kind@ == "audio"@ {
            rest.push(((ms.len() - 1) as usize, bitrate_of(ms.last())))
        } else {
            rest
        }
    }
}

/// Each connection by its index, keyed so that plain `http` comes first.
pub open spec fn connection_items(cs: Seq<Connection>) -> Seq<(usize, u32)>
    decreases cs.len(),
{
    if cs.len() == 0 {
        Seq::empty()
    } else {
        let key: u32 = if cs.last().protocol@ == "http"@ {
            0
        } else {
            1
        };
        connection_items(cs.drop_last()).push(((cs.len() - 1) as usize, key))
    }
}

proof fn lemma_audio_items_bound(ms: Seq<Media>)
    requires
        ms.len() <= usize::MAX,
    ensures
        forall|k: int| 0 <= k < audio_items(ms).len() ==> (#[trigger] audio_items(ms)[k]).0 < ms.len(),
    decreases ms.len(),
{
    if ms.len() > 0 {
        lemma_audio_items_bound(ms.drop_last());
        let rest = audio_items(ms.drop_last());
        assert forall|k: int| 0 <= k < audio_items(ms).len() implies (#[trigger] audio_items(ms)[k]).0
            < ms.len() by {
            if k < rest.len() {
                assert(audio_items(ms)[k] == rest[k]);
            }
        }
    }
}

proof fn lemma_connection_items_bound(cs: Seq<Connection>)
    requires
        cs.len() <= usize::MAX,
    ensures
        forall|k: int|
            0 <= k < connection_items(cs).len() ==> (#[trigger] connection_items(cs)[k]).0 < cs.len(),
    decreases cs.len(),
{
    if cs.len() > 0 {
        lemma_connection_items_bound(cs.drop_last());
        let rest = connection_items(cs.drop_last());
        assert forall|k: int| 0 <= k < connection_items(cs).len() implies (#[trigger] connection_items(
            cs,
        )[k]).0 < cs.len() by {
            if k < rest.len() {
                assert(connection_items(cs)[k] == rest[k]);
            }
        }
    }
}

/// The HLS manifest URL of an episode's best audio stream: of the audio media,
/// the last of highest bitrate, reached by the last of its connections that is
/// not plain `http`, else its last one. No audio media is "not found", a media
/// without connections is not understood, and a URL that is not an HLS
/// manifest is unsupported media.
pub fn pick_stream_url(episode_id: &str, media: &MediaList) -> (r: Result<String, BbcResponseError>)
    ensures
        match last_of_highest(audio_items(media.media@)) {
            None => r matches Err(BbcResponseError::NotFound),
            Some((i, _)) => match last_of_highest(connection_items(media.media@[i as int].connection@)) {
                None => r matches Err(BbcResponseError::FormatError),
                Some((j, _)) => {
                    let url = media.media@[i as int].connection@[j as int].href@;
                    if contains_spec(url, ".m3u8"@) {
                        r matches Ok(u) && u@ == url
                    } else {
                        r matches Err(BbcResponseError::UnsupportedMedia(p, u)) && p@ == episode_id@
                            && u@ == url
                    }
                },
            },
        },
{
    let ghost ms = media.media@;
    let mut audio: Vec<(usize, u32)> = Vec::new();
    let mut i: usize = 0;
    while i < media.media.len()
        invariant
            i <= ms.len(),
            ms == media.media@,
            audio@ == audio_items(ms.take(i as int)),
        decreases ms.len() - i,
    {
        let m = &media.media[i];
        let ghost t = ms.take(i + 1);
        assert(t.drop_last() =~= ms.take(i as int));
        assert(t.last() == ms[i as int]);
        if m.kind == "audio".to_owned() {
            let rate = match parse_u32(m.bitrate.as_str()) {
                Some(b) => b,
                None => 0,
            };
            audio.push((i, rate));
        }
        i = i + 1;
    }
    assert(ms.take(ms.len() as int) =~= ms);
    proof {
        lemma_audio_items_bound(ms);
        lemma_last_of_highest_member(audio@);
    }
    let chosen = match last_sorted_by_key(audio) {
        None => {
            return Err(BbcResponseError::NotFound);
        },
        Some((j, _)) => &media.media[j],
    };
    let ghost cs = chosen.connection@;
    let mut keyed: Vec<(usize, u32)> = Vec::new();
    let mut k: usize = 0;
    while k < chosen.connection.len()
        invariant
            k <= cs.len(),
            cs == chosen.connection@,
            keyed@ == connection_items(cs.take(k as int)),
        decreases cs.len() - k,
    {
        let ghost t = cs.take(k + 1);
        assert(t.drop_last() =~= cs.take(k as int));
        assert(t.last() == cs[k as int]);
        let key: u32 = if chosen.connection[k].protocol == "http".to_owned() {
            0
        } else {
            1
        };
        keyed.push((k, key));
        k = k + 1;
    }
    assert(cs.take(cs.len() as int) =~= cs);
    proof {
        lemma_connection_items_bound(cs);
        lemma_last_of_highest_member(keyed@);
    }
    let url = match last_sorted_by_key(keyed) {
        None => {
            return Err(BbcResponseError::FormatError);
        },
        Some((j, _)) => chosen.connection[j].href.clone(),
    };
    if contains(url.as_str(), ".m3u8") {
        Ok(url)
    } else {
        Err(BbcResponseError::UnsupportedMedia(episode_id.to_owned(), url))
    }
}

/// The enclosure of a feed item: where the audio is, its size and its type.
pub struct Enclosure {
    pub url: String,
    pub length: u64,
    pub mime_type: String,
}

/// The best quality variant offered: high, else medium, else low.
pub open spec fn best_variant(v: QualityVariants) -> Option<QualityVariant> {
    if v.high is Some {
        v.high
    } else if v.medium is Some {
        v.medium
    } else {
        v.low
    }
}

/// A size estimated from a duration in seconds, at 50000 bytes a second, and
/// at most `u64::MAX`.
pub open spec fn estimated_size(seconds: u64) -> u64 {
    if 50000 * seconds > u64::MAX {
        u64::MAX
    } else {
        (50000 * seconds) as u64
    }
}

/// The type of an audio file by its extension.
pub open spec fn mime_for(file: Seq<char>) -> Seq<char> {
    let ext = after_last(file, '.');
    if ext == "m4a"@ || ext == "mp4"@ {
        "audio/mp4"@
    } else {
        "audio/mpeg"@
    }
}

fn estimate_size(seconds: u64) -> (r: u64)
    ensures
        r == estimated_size(seconds),
{
    if seconds > u64::MAX / 50000 {
        assert(50000 * seconds > u64::MAX) by (nonlinear_arith)
            requires
                seconds > u64::MAX / 50000,
        ;
        u64::MAX
    } else {
        assert(50000 * seconds <= u64::MAX) by (nonlinear_arith)
            requires
                seconds <= u64::MAX / 50000,
        ;
        seconds * 50000
    }
}

/// The enclosure of an episode: the file of its best variant, with the size
/// that variant gives or else one estimated from the duration; an episode
/// without a public file is served by this relay, as AAC.
pub fn enclosure(base_url: &str, d: &ContainerListData) -> (r: Enclosure)
    ensures
        match best_variant(d.download.quality_variants) {
            Some(QualityVariant { file_url: Some(f), file_size }) => {
                &&& r.url@ == f@
                &&& r.mime_type@ == mime_for(f@)
                &&& r.length == match file_size {
                    Some(s) => s,
                    None => estimated_size(d.duration.value),
                }
            },
            _ => {
                &&& r.url@ == base_url@ + "/episode/"@ + d.id@
                &&& r.mime_type@ == "audio/aac"@
                &&& r.length == estimated_size(d.duration.value)
            },
        },
{
    let v = &d.download.quality_variants;
    let best = if v.high.is_some() {
        v.high.as_ref()
    } else if v.medium.is_some() {
        v.medium.as_ref()
    } else {
        v.low.as_ref()
    };
    let estimate = estimate_size(d.duration.value);
    if let Some(q) = best {
        if let Some(f) = &q.file_url {
            let ext = text_after_last(f.as_str(), '.');
            let mime = if ext == "m4a".to_owned() || ext == "mp4".to_owned() {
                "audio/mp4".to_owned()
            } else {
                "audio/mpeg".to_owned()
            };
            let length = match q.file_size {
                Some(s) => s,
                None => estimate,
            };
            return Enclosure { url: f.clone(), length, mime_type: mime };
        }
    }
    let mut url = base_url.to_owned();
    push_str(&mut url, "/episode/");
    push_str(&mut url, d.id.as_str());
    Enclosure { url, length: estimate, mime_type: "audio/aac".to_owned() }
}

/// Two decimal digits.
pub open spec fn two_digits(n: nat) -> Seq<char> {
    if n < 10 {
        "0"@ + decimal(n)
    } else {
        decimal(n)
    }
}

/// A duration in seconds as hours, minutes and seconds: `H:MM:SS`.
pub open spec fn duration_spec(s: nat) -> Seq<char> {
    decimal(s / 3600) + ":"@ + two_digits((s / 60) % 60) + ":"@ + two_digits(s % 60)
}

fn push_two_digits(out: &mut String, n: u64)
    requires
        n < 100,
    ensures
        final(out)@ == old(out)@ + two_digits(n as nat),
{
    if n < 10 {
        push_str(out, "0");
    }
    let digits = to_decimal(n);
    push_str(out, digits.as_str());
}

/// A duration in seconds as `H:MM:SS`.
pub fn duration_text(seconds: u64) -> (r: String)
    ensures
        r@ == duration_spec(seconds as nat),
{
    let mut out = to_decimal(seconds / 3600);
    push_str(&mut out, ":");
    push_two_digits(&mut out, (seconds / 60) % 60);
    push_str(&mut out, ":");
    push_two_digits(&mut out, seconds % 60);
    out
}

fn copy_text(t: &Option<String>) -> (r: Option<String>)
    ensures
        r == *t,
{
    match t {
        Some(s) => Some(s.clone()),
        None => None,
    }
}

/// A programme's subtitle: its short synopsis, else the medium, else the long.
pub fn show_subtitle(s: &Synopses) -> (r: Option<String>)
    ensures
        r == (if s.short is Some {
            s.short
        } else if s.medium is Some {
            s.medium
        } else {
            s.long
        }),
{
    if s.short.is_some() {
        copy_text(&s.short)
    } else if s.medium.is_some() {
        copy_text(&s.medium)
    } else {
        copy_text(&s.long)
    }
}

/// An episode's summary: its long synopsis, else the medium, else the short.
pub fn episode_summary(s: &Synopses) -> (r: Option<String>)
    ensures
        r == (if s.long is Some {
            s.long
        } else if s.medium is Some {
            s.medium
        } else {
            s.short
        }),
{
    if s.long.is_some() {
        copy_text(&s.long)
    } else if s.medium.is_some() {
        copy_text(&s.medium)
    } else {
        copy_text(&s.short)
    }
}

/// Which release date a feed shows as its latest, as an index into the
/// episodes' dates (instants, in milliseconds): walking the episodes in order,
/// a date is kept when none is kept yet, or when it is later than the kept one.
pub open spec fn latest_walk(ds: Seq<Option<i64>>) -> Option<int>
    decreases ds.len(),
{
    if ds.len() == 0 {
        None
    } else {
        let k = latest_walk(ds.drop_last());
        let kept: Option<i64> = match k {
            Some(j) => ds[j],
            None => None,
        };
        let d = ds.last();
        if kept is None || (d is Some && d->Some_0 > kept->Some_0) {
            Some(ds.len() - 1)
        } else {
            k
        }
    }
}

proof fn lemma_latest_range(ds: Seq<Option<i64>>)
    ensures
        latest_walk(ds) matches Some(i) ==> 0 <= i < ds.len(),
    decreases ds.len(),
{
    if ds.len() > 0 {
        lemma_latest_range(ds.drop_last());
    }
}

/// The index of the release date a feed shows as its latest.
pub fn latest_release(dates: &Vec<Option<i64>>) -> (r: Option<usize>)
    ensures
        match latest_walk(dates@) {
            Some(i) => r == Some(i as usize),
            None => r is None,
        },
{
    let ghost ds = dates@;
    let mut kept: Option<usize> = None;
    let mut i: usize = 0;
    while i < dates.len()
        invariant
            i <= ds.len(),
            ds == dates@,
            match latest_walk(ds.take(i as int)) {
                Some(j) => 0 <= j < i && kept == Some(j as usize),
                None => kept is None,
            },
        decreases ds.len() - i,
    {
        let ghost t = ds.take(i + 1);
        assert(t.drop_last() =~= ds.take(i as int));
        assert(t.last() == ds[i as int]);
        proof {
            lemma_latest_range(ds.take(i as int));
            if let Some(j) = latest_walk(ds.take(i as int)) {
                assert(t[j] == ds[j]);
            }
        }
        let replace = match kept {
            None => true,
            Some(j) => match dates[j] {
                None => true,
                Some(current) => match dates[i] {
                    Some(d) => d > current,
                    None => false,
                },
            },
        };
        if replace {
            kept = Some(i);
        }
        i = i + 1;
    }
    assert(ds.take(ds.len() as int) =~= ds);
    kept
}

/// The page of a series on the BBC's site.
pub fn series_link(programme_id: &str) -> (r: String)
    ensures
        r@ == "https://www.bbc.co.uk/sounds/series/"@ + programme_id@,
{
    let mut link = "https://www.bbc.co.uk/sounds/series/".to_owned();
    push_str(&mut link, programme_id);
    link
}

/// Where this relay serves an episode's AAC stream.
pub fn relay_url(base_url: &str, episode_id: &str) -> (r: String)
    ensures
        r@ == base_url@ + "/episode/"@ + episode_id@ + ".aac"@,
{
    let mut url = base_url.to_owned();
    push_str(&mut url, "/episode/");
    push_str(&mut url, episode_id);
    push_str(&mut url, ".aac");
    url
}

/// The object store key of an episode's AAC stream.
pub fn object_key(episode_id: &str) -> (r: String)
    ensures
        r@ == episode_id@ + ".aac"@,
{
    let mut key = episode_id.to_owned();
    push_str(&mut key, ".aac");
    key
}

/// Where a stored episode is fetched: under the configured public base URL,
/// else at the bucket's own address in its region.
pub fn object_url(base_url: Option<&str>, bucket: &str, region: &str, episode_id: &str) -> (r: String)
    ensures
        match base_url {
            Some(b) => r@ == b@ + "/"@ + episode_id@ + ".aac"@,
            None => r@ == "https://"@ + bucket@ + ".s3."@ + region@ + ".amazonaws.com/"@
                + episode_id@ + ".aac"@,
        },
{
    let mut url = match base_url {
        Some(b) => {
            let mut u = b.to_owned();
            push_str(&mut u, "/");
            u
        },
        None => {
            let mut u = "https://".to_owned();
            push_str(&mut u, bucket);
            push_str(&mut u, ".s3.");
            push_str(&mut u, region);
            push_str(&mut u, ".amazonaws.com/");
            u
        },
    };
    push_str(&mut url, episode_id);
    push_str(&mut url, ".aac");
    url
}

} // verus!
