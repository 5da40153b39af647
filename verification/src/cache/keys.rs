//! Cache keys of song streams, recognition of entries written under the
//! older key format, and the file extension a downloaded file is stored
//! with.

use vstd::prelude::*;

use crate::cache::types::CacheBucket;
use crate::text::{
    ascii_lower, chars_of, concat, contains_chars, contains_sub, decimal_signed,
    decimal_signed_chars, lower_chars, string_of, trim, trim_chars, utf8_len, utf8_len_chars,
};

verus! {

broadcast use vstd::string::group_string_axioms;

/// The cache key of a song stream: `audio-stream:<song id>:<quality>`, the
/// quality trimmed and lower-cased.
pub open spec fn spec_song_stream_key(song_id: i64, quality: Seq<char>) -> Seq<char> {
    "audio-stream:"@ + decimal_signed(song_id as int) + ":"@ + ascii_lower(trim(quality))
}

/// The cache key of a song stream (see `spec_song_stream_key`).
pub fn song_stream_key(song_id: i64, quality: &str) -> (res: String)
    ensures
        res@ == spec_song_stream_key(song_id, quality@),
{
    proof {
        reveal_strlit("audio-stream:");
        reveal_strlit(":");
    }
    let a = concat(&chars_of("audio-stream:"), &decimal_signed_chars(song_id));
    let b = concat(&a, &chars_of(":"));
    string_of(&concat(&b, &lower_chars(&trim_chars(&chars_of(quality)))))
}

/// Whether an older-format key belongs to audio of song `song_id`: it holds
/// `"scope":"audio"` and `"songId":<song id>`.
pub open spec fn spec_is_legacy_audio_key_for_song(key: Seq<char>, song_id: i64) -> bool {
    contains_sub(key, "\"scope\":\"audio\""@) && contains_sub(key, "\"songId\":"@ + decimal_signed(song_id as int))
}

/// Whether an older-format key belongs to audio of a song (see
/// `spec_is_legacy_audio_key_for_song`).
pub fn is_legacy_audio_key_for_song(key: &str, song_id: i64) -> (res: bool)
    ensures
        res == spec_is_legacy_audio_key_for_song(key@, song_id),
{
    proof {
        reveal_strlit("\"scope\":\"audio\"");
        reveal_strlit("\"songId\":");
    }
    let k = chars_of(key);
    let scope = chars_of("\"scope\":\"audio\"");
    let id = concat(&chars_of("\"songId\":"), &decimal_signed_chars(song_id));
    contains_chars(&k, &scope) && contains_chars(&k, &id)
}

/// Whether an older-format key is for the quality `quality`: it holds
/// `"quality":"<quality>"`, the quality trimmed and lower-cased.
pub open spec fn spec_legacy_audio_key_matches_quality(key: Seq<char>, quality: Seq<char>) -> bool {
    contains_sub(key, "\"quality\":\""@ + ascii_lower(trim(quality)) + "\""@)
}

/// Whether an older-format key is for a quality (see
/// `spec_legacy_audio_key_matches_quality`).
pub fn legacy_audio_key_matches_quality(key: &str, quality: &str) -> (res: bool)
    ensures
        res == spec_legacy_audio_key_matches_quality(key@, quality@),
{
    proof {
        reveal_strlit("\"quality\":\"");
        reveal_strlit("\"");
    }
    let q = lower_chars(&trim_chars(&chars_of(quality)));
    let pat = concat(&concat(&chars_of("\"quality\":\""), &q), &chars_of("\""));
    contains_chars(&chars_of(key), &pat)
}

/// The path of `url` once parsed as a URL; `None` when it is not a URL.
pub uninterp spec fn url_path(url: Seq<char>) -> Option<Seq<char>>;

/// `Url::parse` of the `reqwest` crate, then `Url::path`: the path of the
/// parsed URL, named `url_path`; `None` when parsing fails.  What the URL
/// grammar makes of the text is not stated here.
#[verifier::external_body]
fn parsed_url_path(url: &str) -> (res: Option<String>)
    ensures
        res is Some == url_path(url@) is Some,
        res matches Some(p) ==> url_path(url@) == Some(p@),
{
    match reqwest::Url::parse(url) {
        Ok(parsed) => Some(parsed.path().to_string()),
        Err(_) => None,
    }
}

/// `i` is the last position of `c` in `s`.
pub open spec fn last_char_at(s: Seq<char>, c: char, i: int) -> bool {
    0 <= i < s.len() && s[i] == c && forall|j: int| i < j < s.len() ==> s[j] != c
}

/// The part of `s` after its last `c`, or all of `s` when there is none
/// (what `rsplit(c).next()` gives).
pub open spec fn after_last_char(s: Seq<char>, c: char) -> Seq<char> {
    if s.contains(c) {
        s.skip((choose|i: int| last_char_at(s, c, i)) + 1)
    } else {
        s
    }
}

fn after_last_char_exec(s: &[char], c: char) -> (res: Vec<char>)
    ensures
        res@ == after_last_char(s@, c),
{
    let n = s.len();
    let mut i: usize = n;
    while i > 0
        invariant
            i <= n == s@.len(),
            forall|j: int| i <= j < n ==> s@[j] != c,
        decreases i,
    {
        if s[i - 1] == c {
            proof {
                let k = (i - 1) as int;
                assert(last_char_at(s@, c, k));
                assert(s@.contains(c));
                let m = choose|m: int| last_char_at(s@, c, m);
                assert(last_char_at(s@, c, m));
                if m < k {
                    assert(s@[k] == c);
                }
                if m > k {
                    assert(s@[m] != c);
                }
            }
            return crate::text::sub_chars(s, i, n);
        }
        i = i - 1;
    }
    assert(!s@.contains(c));
    assert(s@.subrange(0, n as int) == s@);
    crate::text::sub_chars(s, 0, n)
}

/// The last segment of a URL path: after its last `/` when the path starts
/// with `/`, else empty.
pub open spec fn last_path_segment(path: Seq<char>) -> Seq<char> {
    if path.len() > 0 && path[0] == '/' {
        after_last_char(path, '/')
    } else {
        Seq::empty()
    }
}

/// The extension that a URL path gives a file: the last segment, up to a
/// `?`, after its last `.`, trimmed and lower-cased; `None` when that is
/// empty or longer than 5 bytes.
pub open spec fn spec_extension_from_url_path(path: Seq<char>) -> Option<Seq<char>> {
    let file = last_path_segment(path);
    let ext = trim(after_last_char(crate::text::before_char(file, '?'), '.'));
    if ext.len() == 0 || utf8_len(ext) > 5 {
        None
    } else {
        Some(ascii_lower(ext))
    }
}

/// The extension that a URL path gives a file (see
/// `spec_extension_from_url_path`).
pub fn extension_from_url_path(path: &str) -> (res: Option<String>)
    ensures
        res is Some == spec_extension_from_url_path(path@) is Some,
        res matches Some(e) ==> spec_extension_from_url_path(path@) == Some(e@),
{
    let p = chars_of(path);
    let file = if p.len() > 0 && p[0] == '/' {
        after_last_char_exec(&p, '/')
    } else {
        Vec::new()
    };
    let ext = trim_chars(&after_last_char_exec(&crate::text::before_char_exec(&file, '?'), '.'));
    if ext.len() == 0 {
        return None;
    }
    if ext.len() > 5 {
        proof {
            lemma_utf8_len_at_least_len(ext@);
        }
        return None;
    }
    let bytes = utf8_len_chars(&ext);
    if bytes > 5 {
        None
    } else {
        Some(string_of(&lower_chars(&ext)))
    }
}

proof fn lemma_utf8_len_at_least_len(s: Seq<char>)
    ensures
        utf8_len(s) >= s.len(),
    decreases s.len(),
{
    if s.len() > 0 {
        lemma_utf8_len_at_least_len(s.drop_last());
        assert(s.take(s.len() - 1) == s.drop_last());
    }
}

/// The extension a URL gives a file: that of its path (see
/// `spec_extension_from_url_path`), `None` when it is not a URL.
pub open spec fn spec_extension_from_url(url: Seq<char>) -> Option<Seq<char>> {
    match url_path(url) {
        None => None,
        Some(p) => spec_extension_from_url_path(p),
    }
}

/// The extension a URL gives a file (see `spec_extension_from_url`).
pub fn extension_from_url(url: &str) -> (res: Option<String>)
    ensures
        res is Some == spec_extension_from_url(url@) is Some,
        res matches Some(e) ==> spec_extension_from_url(url@) == Some(e@),
{
    match parsed_url_path(url) {
        None => None,
        Some(path) => extension_from_url_path(path.as_str()),
    }
}

/// The extension a content type suggests, from the first of these that
/// its trimmed, lower-cased text holds: `mpeg` or `mp3`, `flac`, `wav`,
/// `ogg`, `aac`, `png`, `jpeg` or `jpg`, `webp`.
pub open spec fn content_type_extension(ct: Seq<char>) -> Option<Seq<char>> {
    let n = ascii_lower(trim(ct));
    if contains_sub(n, "mpeg"@) || contains_sub(n, "mp3"@) {
        Some("mp3"@)
    } else if contains_sub(n, "flac"@) {
        Some("flac"@)
    } else if contains_sub(n, "wav"@) {
        Some("wav"@)
    } else if contains_sub(n, "ogg"@) {
        Some("ogg"@)
    } else if contains_sub(n, "aac"@) {
        Some("aac"@)
    } else if contains_sub(n, "png"@) {
        Some("png"@)
    } else if contains_sub(n, "jpeg"@) || contains_sub(n, "jpg"@) {
        Some("jpg"@)
    } else if contains_sub(n, "webp"@) {
        Some("webp"@)
    } else {
        None
    }
}

/// The lower-cased content type names a file format: it mentions one of
/// `mp3`, `mpeg`, `flac`, `wav`, `ogg`, `aac`, `png`, `jpg`, `jpeg`, `webp`.
pub open spec fn names_known_format(n: Seq<char>) -> bool {
    ||| contains_sub(n, "mp3"@)
    ||| contains_sub(n, "mpeg"@)
    ||| contains_sub(n, "flac"@)
    ||| contains_sub(n, "wav"@)
    ||| contains_sub(n, "ogg"@)
    ||| contains_sub(n, "aac"@)
    ||| contains_sub(n, "png"@)
    ||| contains_sub(n, "jpg"@)
    ||| contains_sub(n, "jpeg"@)
    ||| contains_sub(n, "webp"@)
}

/// `e` is an extension the lower-cased content type `n` names: `n`
/// mentions it, or it is `mp3` for an `mpeg` type or `jpg` for a `jpeg` one.
pub open spec fn named_by(n: Seq<char>, e: Seq<char>) -> bool {
    ||| contains_sub(n, e)
    ||| e == "mp3"@ && contains_sub(n, "mpeg"@)
    ||| e == "jpg"@ && contains_sub(n, "jpeg"@)
}

/// Law: a content type gives an extension exactly when it names a known
/// format, and the extension it gives is one it names.
pub proof fn law_content_type_extension_is_named(ct: Seq<char>)
    ensures
        content_type_extension(ct) is Some <==> names_known_format(ascii_lower(trim(ct))),
        content_type_extension(ct) matches Some(e) ==> named_by(ascii_lower(trim(ct)), e),
{
}

/// Law: a file whose URL gives no extension is stored with an extension
/// its content type names, whenever the content type names a known format;
/// the bucket's default is used only when it names none.
pub proof fn law_inferred_extension_follows_content_type(bucket: CacheBucket, url: Seq<char>, ct: Seq<char>)
    requires
        spec_extension_from_url(url) is None,
    ensures
        names_known_format(ascii_lower(trim(ct))) ==> named_by(
            ascii_lower(trim(ct)),
            spec_infer_extension(bucket, url, Some(ct)),
        ),
        !names_known_format(ascii_lower(trim(ct))) ==> spec_infer_extension(bucket, url, Some(ct))
            == bucket_default_extension(bucket),
{
    law_content_type_extension_is_named(ct);
}

fn has(n: &[char], pat: &str) -> (res: bool)
    ensures
        res == contains_sub(n@, pat@),
{
    contains_chars(n, &chars_of(pat))
}

fn content_type_extension_exec(ct: &str) -> (res: Option<String>)
    ensures
        res is Some == content_type_extension(ct@) is Some,
        res matches Some(e) ==> content_type_extension(ct@) == Some(e@),
{
    let n = lower_chars(&trim_chars(&chars_of(ct)));
    if has(&n, "mpeg") || has(&n, "mp3") {
        Some("mp3".to_string())
    } else if has(&n, "flac") {
        Some("flac".to_string())
    } else if has(&n, "wav") {
        Some("wav".to_string())
    } else if has(&n, "ogg") {
        Some("ogg".to_string())
    } else if has(&n, "aac") {
        Some("aac".to_string())
    } else if has(&n, "png") {
        Some("png".to_string())
    } else if has(&n, "jpeg") || has(&n, "jpg") {
        Some("jpg".to_string())
    } else if has(&n, "webp") {
        Some("webp".to_string())
    } else {
        None
    }
}

/// The extension a bucket's files get by default: `mp3` for songs, `jpg`
/// for covers, `json` otherwise.
pub open spec fn bucket_default_extension(bucket: CacheBucket) -> Seq<char> {
    match bucket {
        CacheBucket::Song => "mp3"@,
        CacheBucket::Cover => "jpg"@,
        _ => "json"@,
    }
}

/// The extension a downloaded file is stored with: the URL's, else the
/// content type's, else the bucket's default.
pub open spec fn spec_infer_extension(bucket: CacheBucket, url: Seq<char>, content_type: Option<Seq<char>>) -> Seq<char> {
    match spec_extension_from_url(url) {
        Some(e) => e,
        None => match content_type {
            Some(ct) => match content_type_extension(ct) {
                Some(e) => e,
                None => bucket_default_extension(bucket),
            },
            None => bucket_default_extension(bucket),
        },
    }
}

/// The extension a downloaded file is stored with (see
/// `spec_infer_extension`).
pub fn infer_extension(bucket: CacheBucket, url: &str, content_type: Option<&str>) -> (res: String)
    ensures
        res@ == spec_infer_extension(
            bucket,
            url@,
            match content_type {
                Some(c) => Some(c@),
                None => None,
            },
        ),
{
    if let Some(extension) = extension_from_url(url) {
        return extension;
    }
    if let Some(ct) = content_type {
        if let Some(e) = content_type_extension_exec(ct) {
            return e;
        }
    }
    match bucket {
        CacheBucket::Song => "mp3".to_string(),
        CacheBucket::Cover => "jpg".to_string(),
        _ => "json".to_string(),
    }
}

} // verus!
