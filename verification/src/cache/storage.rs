//! Where the cache keeps its files: paths below the cache root and the
//! hashed file names of entries.

use vstd::prelude::*;

use crate::cache::types::{bucket_name, CacheBucket};
use crate::text::{chars_of, concat, starts_with, string_of, trim, trim_chars};

verus! {

broadcast use vstd::string::group_string_axioms;

/// `rel` appended to `base` the way `Path::join` does it on Unix: an absolute
/// `rel` replaces `base`, and a `/` is put between unless `base` is empty or
/// already ends with one.
pub open spec fn join_path(base: Seq<char>, rel: Seq<char>) -> Seq<char> {
    if rel.len() > 0 && rel[0] == '/' {
        rel
    } else if base.len() == 0 || base.last() == '/' {
        base + rel
    } else {
        base + "/"@ + rel
    }
}

pub fn join(base: &str, rel: &str) -> (res: String)
    ensures
        res@ == join_path(base@, rel@),
{
    let b = chars_of(base);
    let r = chars_of(rel);
    if r.len() > 0 && r[0] == '/' {
        return string_of(&r);
    }
    if b.len() == 0 || b[b.len() - 1] == '/' {
        return string_of(&concat(&b, &r));
    }
    let slash = chars_of("/");
    proof {
        reveal_strlit("/");
    }
    string_of(&concat(&concat(&b, &slash), &r))
}

/// `s` without its leading dots (`trim_start_matches('.')`).
pub open spec fn strip_leading_dots(s: Seq<char>) -> Seq<char>
    decreases s.len(),
{
    if s.len() > 0 && s[0] == '.' {
        strip_leading_dots(s.drop_first())
    } else {
        s
    }
}

fn strip_leading_dots_exec(s: &[char]) -> (res: Vec<char>)
    ensures
        res@ == strip_leading_dots(s@),
{
    let mut i: usize = 0;
    assert(s@.subrange(0, s@.len() as int) == s@);
    while i < s.len() && s[i] == '.'
        invariant
            i <= s@.len(),
            strip_leading_dots(s@) == strip_leading_dots(s@.subrange(i as int, s@.len() as int)),
        decreases s@.len() - i,
    {
        assert(s@.subrange(i as int, s@.len() as int).drop_first() == s@.subrange(i + 1, s@.len() as int));
        i = i + 1;
    }
    crate::text::sub_chars(s, i, s.len())
}

/// The file extension used for an entry: trimmed, without leading dots, and
/// `bin` when nothing is left.
pub open spec fn normalized_extension(extension: Seq<char>) -> Seq<char> {
    let t = strip_leading_dots(trim(extension));
    if t.len() == 0 {
        "bin"@
    } else {
        t
    }
}

pub fn normalize_extension(extension: &str) -> (res: String)
    ensures
        res@ == normalized_extension(extension@),
{
    let t = strip_leading_dots_exec(&trim_chars(&chars_of(extension)));
    if t.len() == 0 {
        let bin = "bin";
        return string_of(&chars_of(bin));
    }
    string_of(&t)
}

/// Lower-case hexadecimal digit of a nibble.
pub open spec fn hex_digit(n: int) -> char {
    if n < 10 {
        (n + 48) as char
    } else {
        (n + 87) as char
    }
}

/// Lower-case hexadecimal text of the bytes, two digits per byte, high
/// nibble first.
pub open spec fn hex_lower(bytes: Seq<u8>) -> Seq<char>
    decreases bytes.len(),
{
    if bytes.len() == 0 {
        Seq::empty()
    } else {
        hex_lower(bytes.drop_last()) + seq![hex_digit((bytes.last() / 16) as int), hex_digit((bytes.last() % 16) as int)]
    }
}

/// The SHA-256 digest of the bytes.
pub uninterp spec fn sha256(data: Seq<u8>) -> Seq<u8>;

/// `Sha256::digest` of the `sha2` crate: the 32-byte SHA-256 digest of
/// `data`, named `sha256`; the algorithm itself is not stated here.
#[verifier::external_body]
fn sha256_digest(data: &[u8]) -> (res: Vec<u8>)
    ensures
        res@ == sha256(data@),
        res@.len() == 32,
{
    <sha2::Sha256 as sha2::Digest>::digest(data).to_vec()
}

/// `hex::encode` of the `hex` crate: two lower-case hexadecimal digits per
/// byte, high nibble first.
#[verifier::external_body]
fn hex_encode(data: &[u8]) -> (res: String)
    ensures
        res@ == hex_lower(data@),
{
    hex::encode(data)
}

/// The file path of an entry below the cache root: the bucket directory,
/// then the hex SHA-256 of `bucket:key` (key trimmed), then the extension.
pub open spec fn relative_path_of(bucket: CacheBucket, key: Seq<char>, extension: Seq<char>) -> Seq<char> {
    let hashed = vstd::utf8::encode_utf8(bucket_name(bucket) + ":"@ + trim(key));
    bucket_name(bucket) + "/"@ + hex_lower(sha256(hashed)) + "."@ + normalized_extension(extension)
}

/// The files of the cache, below one root directory.
pub struct CacheFileStore {
    root_dir: String,
}

impl CacheFileStore {
    pub closed spec fn root(&self) -> Seq<char> {
        self.root_dir@
    }

    /// A store rooted at `root_dir`; creating the directories is up to the caller.
    pub fn at_root(root_dir: String) -> (res: CacheFileStore)
        ensures
            res.root() == root_dir@,
    {
        CacheFileStore { root_dir }
    }

    pub fn root_dir(&self) -> (res: &String)
        ensures
            res@ == self.root(),
    {
        &self.root_dir
    }

    pub fn settings_path(&self) -> (res: String)
        ensures
            res@ == join_path(self.root(), "settings.json"@),
    {
        join(self.root_dir.as_str(), "settings.json")
    }

    pub fn index_path(&self) -> (res: String)
        ensures
            res@ == join_path(self.root(), "index.json"@),
    {
        join(self.root_dir.as_str(), "index.json")
    }

    pub fn bucket_dir(&self, bucket: CacheBucket) -> (res: String)
        ensures
            res@ == join_path(self.root(), bucket_name(bucket)),
    {
        join(self.root_dir.as_str(), bucket.as_str())
    }

    pub fn absolute_path(&self, relative_path: &str) -> (res: String)
        ensures
            res@ == join_path(self.root(), relative_path@),
    {
        join(self.root_dir.as_str(), relative_path)
    }

    /// The metadata file that sits beside a streamed song.
    pub fn song_meta_path(&self, relative_path: &str) -> (res: String)
        ensures
            res@ == join_path(self.root(), relative_path@ + ".meta.json"@),
    {
        let rel = concat(&chars_of(relative_path), &chars_of(".meta.json"));
        let rel = string_of(&rel);
        self.absolute_path(rel.as_str())
    }

    /// The path, relative to the root, where the entry of `key` in `bucket`
    /// is stored.
    pub fn build_relative_path(&self, bucket: CacheBucket, key: &str, extension: &str) -> (res: String)
        ensures
            res@ == relative_path_of(bucket, key@, extension@),
    {
        let name = chars_of(bucket.as_str());
        let colon = chars_of(":");
        let hashed_text = string_of(&concat(&concat(&name, &colon), &trim_chars(&chars_of(key))));
        let digest = sha256_digest(hashed_text.as_str().as_bytes());
        let hex = hex_encode(digest.as_slice());
        let slash = chars_of("/");
        let dot = chars_of(".");
        let ext = normalize_extension(extension);
        let head = concat(&concat(&name, &slash), &chars_of(hex.as_str()));
        string_of(&concat(&concat(&head, &dot), &chars_of(ext.as_str())))
    }

    /// Whether `path` is the root itself or lies below it.
    pub fn is_inside_root(&self, path: &str) -> (res: bool)
        ensures
            res == (path@ == self.root() || (self.root().len() > 0 && self.root().last() == '/' && crate::text::has_prefix(path@, self.root()))
                || crate::text::has_prefix(path@, self.root() + "/"@)),
    {
        let p = chars_of(path);
        let r = chars_of(self.root_dir.as_str());
        if crate::text::chars_eq(&p, &r) {
            return true;
        }
        if r.len() > 0 && r[r.len() - 1] == '/' && starts_with(&p, &r) {
            return true;
        }
        let slash = chars_of("/");
        starts_with(&p, &concat(&r, &slash))
    }
}

} // verus!
