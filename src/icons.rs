//! Names of locally cached icon files. Fetching and writing the files is
//! left to the caller.
use vstd::prelude::*;
use vstd::string::StrSliceExecFns;
use vstd::string::StringSliceAdditionalSpecFns;
use vstd::string::StringExecFns;

use crate::auth::{strip_key, strip_key_exec};
use crate::text::{decimal, decimal_string};

verus! {

/// Directory in which icons are cached by default.
pub const CACHE_DIR: &'static str = "icon_cache";

/// The djb2 hash of `bytes`: start at 5381, then for each byte multiply by
/// 33 and add the byte, modulo 2^64.
pub open spec fn djb2(bytes: Seq<u8>) -> u64
    decreases bytes.len(),
{
    if bytes.len() == 0 {
        5381
    } else {
        vstd::wrapping::u64_specs::wrapping_add(
            vstd::wrapping::u64_specs::wrapping_mul(djb2(bytes.drop_last()), 33),
            bytes.last() as u64,
        )
    }
}

/// Index of the last '/' in `s`, or -1.
pub open spec fn last_slash(s: Seq<char>) -> int
    decreases s.len(),
{
    if s.len() == 0 {
        -1
    } else if s.last() == '/' {
        s.len() - 1
    } else {
        last_slash(s.drop_last())
    }
}

/// What follows the last '/' of `s`; all of `s` when it has none.
pub open spec fn after_last_slash(s: Seq<char>) -> Seq<char> {
    s.subrange(last_slash(s) + 1, s.len() as int)
}

proof fn lemma_last_slash(s: Seq<char>)
    ensures
        -1 <= last_slash(s) < s.len(),
    decreases s.len(),
{
    if s.len() > 0 {
        lemma_last_slash(s.drop_last());
    }
}

/// The djb2 hash of the bytes of `s`, used to keep cached file names apart.
pub fn simple_hash(s: &str) -> (r: u64)
    ensures
        r == djb2(s.spec_bytes()),
{
    let bytes = s.as_bytes();
    let mut hash: u64 = 5381;
    let mut i: usize = 0;
    while i < bytes.len()
        invariant
            i <= bytes@.len(),
            bytes@ == s.spec_bytes(),
            hash == djb2(bytes@.subrange(0, i as int)),
        decreases bytes.len() - i,
    {
        assert(bytes@.subrange(0, i + 1).drop_last() =~= bytes@.subrange(0, i as int));
        hash = hash.wrapping_mul(33).wrapping_add(bytes[i] as u64);
        i = i + 1;
    }
    assert(bytes@.subrange(0, i as int) =~= bytes@);
    hash
}

/// The cache file name of an icon URL: the hash of the whole URL, '_', and
/// the URL's last path segment.
pub open spec fn cache_file_name_of(url: &str) -> Seq<char> {
    decimal(djb2(url.spec_bytes()) as nat) + "_"@ + after_last_slash(url@)
}

/// The name under which the icon at `url` is cached.
pub fn cache_file_name(url: &str) -> (r: String)
    ensures
        r@ == cache_file_name_of(url),
{
    let n = url.unicode_len();
    let mut i: usize = n;
    let mut start: usize = 0;
    let mut found = false;
    assert(url@.subrange(0, n as int) =~= url@);
    while i > 0 && !found
        invariant
            i <= n == url@.len(),
            start <= n,
            found ==> last_slash(url@) == start - 1,
            !found ==> start == 0 && last_slash(url@) == last_slash(url@.subrange(0, i as int)),
        decreases i,
    {
        assert(url@.subrange(0, i as int).drop_last() =~= url@.subrange(0, i - 1));
        if url.get_char(i - 1) == '/' {
            found = true;
            start = i;
        }
        i = i - 1;
    }
    proof {
        lemma_last_slash(url@);
    }
    let name = url.substring_char(start, n);
    let mut r = decimal_string(simple_hash(url));
    r.append("_");
    r.append(name);
    r
}

/// Path under which the web front end proxies Steam's image hosts.
pub const PROXY_PATH: &'static str = "/steam-media/";

/// The proxied form of a Steam image URL: an image on one of Steam's two
/// image hosts, over https or http, is fetched through `origin`; any other
/// URL is kept.
pub open spec fn proxied_url(origin: Seq<char>, url: Seq<char>) -> Seq<char> {
    match strip_key(url, "https://steamcdn-a.akamaihd.net/"@) {
        Some(p) => origin + PROXY_PATH@ + p,
        None => match strip_key(url, "http://steamcdn-a.akamaihd.net/"@) {
            Some(p) => origin + PROXY_PATH@ + p,
            None => match strip_key(url, "https://media.steampowered.com/"@) {
                Some(p) => origin + PROXY_PATH@ + p,
                None => match strip_key(url, "http://media.steampowered.com/"@) {
                    Some(p) => origin + PROXY_PATH@ + p,
                    None => url,
                },
            },
        },
    }
}

/// `origin`, the proxy path, and `path`.
fn through_proxy(origin: &str, path: &str) -> (r: String)
    ensures
        r@ == origin@ + PROXY_PATH@ + path@,
{
    let mut r = origin.to_string();
    r.append(PROXY_PATH);
    r.append(path);
    r
}

/// Rewrites a Steam image URL to go through the proxy at `origin`, so that
/// a browser may load it from the front end's own origin.
pub fn proxy_steam_image_url(origin: &str, url: &str) -> (r: String)
    ensures
        r@ == proxied_url(origin@, url@),
{
    if let Some(p) = strip_key_exec(url, "https://steamcdn-a.akamaihd.net/") {
        return through_proxy(origin, p.as_str());
    }
    if let Some(p) = strip_key_exec(url, "http://steamcdn-a.akamaihd.net/") {
        return through_proxy(origin, p.as_str());
    }
    if let Some(p) = strip_key_exec(url, "https://media.steampowered.com/") {
        return through_proxy(origin, p.as_str());
    }
    if let Some(p) = strip_key_exec(url, "http://media.steampowered.com/") {
        return through_proxy(origin, p.as_str());
    }
    url.to_string()
}

/// The proxied URL of a game's icon, from its appid and icon hash.
pub open spec fn game_icon_url_of(origin: Seq<char>, appid: u64, icon_hash: Seq<char>) -> Seq<char> {
    origin + "/steam-media/steamcommunity/public/images/apps/"@ + decimal(appid as nat) + "/"@
        + icon_hash + ".jpg"@
}

/// The URL of a game's icon through the proxy at `origin`.
pub fn game_icon_url(origin: &str, appid: u64, icon_hash: &str) -> (r: String)
    ensures
        r@ == game_icon_url_of(origin@, appid, icon_hash@),
{
    let mut r = origin.to_string();
    r.append("/steam-media/steamcommunity/public/images/apps/");
    let id = decimal_string(appid);
    r.append(id.as_str());
    r.append("/");
    r.append(icon_hash);
    r.append(".jpg");
    r
}

/// The URL of a game's icon through the proxy at `origin`, as the log
/// shows it.
pub fn game_icon_url_from_hash(origin: &str, appid: u64, icon_hash: &str) -> (r: String)
    ensures
        r@ == game_icon_url_of(origin@, appid, icon_hash@),
{
    game_icon_url(origin, appid, icon_hash)
}

/// `s` with every backslash turned into '/'.
pub open spec fn forward_slashes(s: Seq<char>) -> Seq<char> {
    s.map_values(|c: char| if c == '\\' { '/' } else { c })
}

/// A local path as a file URI: the extended-length prefix of Windows
/// paths is dropped and backslashes become '/'.
pub open spec fn file_uri_of(path: Seq<char>) -> Seq<char> {
    let rest = match strip_key(path, "\\\\?\\"@) {
        Some(r) => r,
        None => path,
    };
    "file:///"@ + forward_slashes(rest)
}

/// `s` with every backslash turned into '/'.
fn with_forward_slashes(s: &str) -> (r: String)
    ensures
        r@ == forward_slashes(s@),
{
    let n = s.unicode_len();
    let mut r = String::new();
    let mut i: usize = 0;
    while i < n
        invariant
            i <= n == s@.len(),
            r@ == forward_slashes(s@.subrange(0, i as int)),
        decreases n - i,
    {
        if s.get_char(i) == '\\' {
            proof {
                reveal_strlit("/");
            }
            r.append("/");
        } else {
            r.append(s.substring_char(i, i + 1));
        }
        i = i + 1;
        assert(r@ =~= forward_slashes(s@.subrange(0, i as int)));
    }
    assert(s@.subrange(0, n as int) =~= s@);
    r
}

/// Where icons are cached.
#[derive(Debug, Clone)]
pub struct IconCache {
    pub cache_dir: String,
}

impl IconCache {
    /// A cache in the default directory.
    pub fn new() -> (r: IconCache)
        ensures
            r.cache_dir@ == CACHE_DIR@,
    {
        IconCache { cache_dir: CACHE_DIR.to_string() }
    }

    /// The path of the cached copy of the icon at `url`.
    pub fn get_cache_path(&self, url: &str) -> (r: String)
        ensures
            r@ == self.cache_dir@ + "/"@ + cache_file_name_of(url),
    {
        let mut r = self.cache_dir.clone();
        r.append("/");
        let name = cache_file_name(url);
        r.append(name.as_str());
        r
    }

    /// The URI under which to show the icon at `url`: the cached copy's
    /// file URI when the caller found it on disk (`local_path`, its full
    /// path), else `url` itself, which the caller then fetches.
    pub fn get_icon_uri(&self, url: &str, local_path: Option<&str>) -> (r: String)
        ensures
            r@ == match local_path {
                Some(p) => if url@.len() == 0 {
                    url@
                } else {
                    file_uri_of(p@)
                },
                None => url@,
            },
    {
        if url.unicode_len() == 0 {
            return url.to_string();
        }
        match local_path {
            Some(p) => {
                let rest = match strip_key_exec(p, "\\\\?\\") {
                    Some(r) => r,
                    None => p.to_string(),
                };
                let mut r = "file:///".to_string();
                let cleaned = with_forward_slashes(rest.as_str());
                r.append(cleaned.as_str());
                r
            },
            None => url.to_string(),
        }
    }

    /// The cached copy's path, when `url` is not empty and the copy is on
    /// disk (`on_disk`, as the caller found it); `None` tells the caller to
    /// fetch the icon.
    pub fn get_cached_path(&self, url: &str, on_disk: bool) -> (r: Option<String>)
        ensures
            url@.len() == 0 || !on_disk ==> r is None,
            url@.len() > 0 && on_disk ==> r is Some && r->0@ == self.cache_dir@ + "/"@
                + cache_file_name_of(url),
    {
        if url.unicode_len() == 0 || !on_disk {
            None
        } else {
            Some(self.get_cache_path(url))
        }
    }
}

} // verus!
