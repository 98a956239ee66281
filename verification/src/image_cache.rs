//! Where cached album artwork lives: one file per image, named after the
//! image id that ends its URL.
use vstd::prelude::*;
use vstd::string::*;
use vstd::utf8::encode_utf8;
use std::path::PathBuf;
use crate::text::{chars_contain, contains_chars, str_chars};

verus! {

#[verifier::external_type_specification]
#[verifier::external_body]
pub struct ExPathBuf(PathBuf);

/// The last index before `end` at which `s` holds `c`, or -1.
pub open spec fn last_index_before(s: Seq<char>, c: char, end: int) -> int
    decreases end,
{
    if end <= 0 {
        -1
    } else if s[end - 1] == c {
        end - 1
    } else {
        last_index_before(s, c, end - 1)
    }
}

proof fn lemma_last_index_before_bounds(s: Seq<char>, c: char, end: int)
    ensures
        -1 <= last_index_before(s, c, end) < if end > 0 { end } else { 0 },
        last_index_before(s, c, end) >= 0 ==> s[last_index_before(s, c, end)] == c,
    decreases end,
{
    if end > 0 && s[end - 1] != c {
        lemma_last_index_before_bounds(s, c, end - 1);
    }
}

/// What follows the last `/` of `url` (all of it when it has none): the
/// first item of `url.rsplit('/')`.
pub open spec fn last_segment(url: Seq<char>) -> Seq<char> {
    url.subrange(last_index_before(url, '/', url.len() as int) + 1, url.len() as int)
}

/// The second item of `url.rsplit('/')`: what lies between the last two
/// slashes (or before the only one), when `url` has a slash.
pub open spec fn segment_before_last(url: Seq<char>) -> Option<Seq<char>> {
    let k = last_index_before(url, '/', url.len() as int);
    if k >= 0 {
        Some(url.subrange(last_index_before(url, '/', k) + 1, k))
    } else {
        None
    }
}

/// The cache file name for an artwork URL: its last path segment, except
/// that a Spotify CDN URL whose last segment is a locale of at most three
/// bytes is named after the segment before it.
pub open spec fn image_id(url: Seq<char>) -> Seq<char> {
    if contains_chars(url, "spotifycdn.com"@) && encode_utf8(last_segment(url)).len() <= 3 {
        match segment_before_last(url) {
            Some(s) => s,
            None => last_segment(url),
        }
    } else {
        last_segment(url)
    }
}

fn last_index_of(chars: &Vec<char>, c: char, end: usize) -> (k: Option<usize>)
    requires
        end <= chars@.len(),
    ensures
        match k {
            Some(i) => i as int == last_index_before(chars@, c, end as int) && i < end,
            None => last_index_before(chars@, c, end as int) == -1,
        },
{
    let mut j: usize = end;
    while j > 0
        invariant
            j <= end <= chars@.len(),
            last_index_before(chars@, c, end as int) == last_index_before(chars@, c, j as int),
        decreases j,
    {
        if chars[j - 1] == c {
            return Some(j - 1);
        }
        j = j - 1;
    }
    None
}

/// The cache file name of the artwork at `url`.
pub fn cache_file_name(url: &str) -> (name: &str)
    ensures
        name@ == image_id(url@),
{
    let chars = str_chars(url);
    let n = chars.len();
    proof {
        lemma_last_index_before_bounds(chars@, '/', n as int);
    }
    let last_slash = last_index_of(&chars, '/', n);
    let start = match last_slash {
        Some(k) => k + 1,
        None => 0,
    };
    let last_part = url.substring_char(start, n);
    assert(last_part@ == last_segment(url@));
    let spotify = chars_contain(&chars, "spotifycdn.com");
    let short = last_part.as_bytes().len() <= 3;
    assert(short == (encode_utf8(last_segment(url@)).len() <= 3));
    if spotify && short {
        match last_slash {
            Some(k) => {
                proof {
                    lemma_last_index_before_bounds(chars@, '/', k as int);
                }
                let before = last_index_of(&chars, '/', k);
                let from = match before {
                    Some(j) => j + 1,
                    None => 0,
                };
                let id = url.substring_char(from, k);
                assert(segment_before_last(url@) == Some(id@));
                id
            },
            None => last_part,
        }
    } else {
        last_part
    }
}

/// The path `PathBuf::join` makes of `dir` and the component `name`.
pub uninterp spec fn path_joined(dir: PathBuf, name: Seq<char>) -> PathBuf;

/// `PathBuf::join`: `dir` with `name` appended as one more component (or
/// `name` alone when it is absolute). A pure function of the two, named by
/// `path_joined`; the path's contents are not modelled.
#[verifier::external_body]
fn join_path(dir: &PathBuf, name: &str) -> (path: PathBuf)
    ensures
        path == path_joined(*dir, name@),
{
    dir.join(name)
}

/// Artwork cached on disk, one file per image id.
pub struct ImageCache {
    cache_dir: PathBuf,
}

impl ImageCache {
    /// The directory that holds the cache files.
    pub closed spec fn directory(&self) -> PathBuf {
        self.cache_dir
    }

    /// A cache kept in `cache_dir`.
    pub fn with_dir(cache_dir: PathBuf) -> (cache: ImageCache)
        ensures
            cache.directory() == cache_dir,
    {
        ImageCache { cache_dir }
    }

    /// The directory that holds the cache files.
    pub fn dir(&self) -> (dir: &PathBuf)
        ensures
            *dir == self.directory(),
    {
        &self.cache_dir
    }

    /// The file that caches the artwork at `url`: the cache directory joined
    /// with `cache_file_name(url)`.
    pub fn get_cache_path(&self, url: &str) -> (path: PathBuf)
        ensures
            path == path_joined(self.directory(), image_id(url@)),
    {
        let name = cache_file_name(url);
        join_path(&self.cache_dir, name)
    }
}

} // verus!
