//! Where the cache of build checkpoints and image metadata is kept, following the XDG Base
//! Directory Specification, and how its images are named.
use vstd::prelude::*;

use crate::paths::{join, join_path};
use crate::text::{append, to_chars, to_text};

verus! {

/// Why there is no place for the cache.
#[derive(Debug, Clone, Copy, PartialEq, Eq, Structural)]
pub enum CacheError {
    /// Neither `XDG_CACHE_HOME` nor `HOME` is set.
    NoHome,
}

/// The directory of the cache, given the two environment variables that decide it.
pub open spec fn cache_place(xdg: Option<Seq<char>>, home: Option<Seq<char>>) -> Option<Seq<char>> {
    match xdg {
        Some(x) => Some(join_path(x, "dockfoxbuild"@)),
        None => match home {
            Some(h) => Some(join_path(join_path(h, ".cache"@), "dockfoxbuild"@)),
            None => None,
        },
    }
}

/// A text behind a reference.
pub open spec fn opt_str(o: Option<&str>) -> Option<Seq<char>> {
    match o {
        Some(s) => Some(s@),
        None => None,
    }
}

/// The directory of the cache: `dockfoxbuild` below `XDG_CACHE_HOME`, or below `.cache` in
/// `HOME` where that is not set.
pub fn cache_dir(xdg: Option<&str>, home: Option<&str>) -> (r: Result<String, CacheError>)
    ensures
        match r {
            Ok(dir) => cache_place(opt_str(xdg), opt_str(home)) == Some(dir@),
            Err(e) => e == CacheError::NoHome && xdg is None && home is None,
        },
{
    match xdg {
        Some(x) => Ok(join(x, "dockfoxbuild")),
        None => match home {
            Some(h) => Ok(join(join(h, ".cache").as_str(), "dockfoxbuild")),
            None => Err(CacheError::NoHome),
        },
    }
}

/// The database file in the directory of the cache.
pub fn database_path(cache_dir: &str) -> (r: String)
    ensures
        r@ == join_path(cache_dir@, "cache.db"@),
{
    join(cache_dir, "cache.db")
}

/// The name of the image that a hash is cached under.
pub open spec fn cache_name(hash: Seq<char>) -> Seq<char> {
    "localhost/dockfoxbuild_cache:"@ + hash
}

/// The name of the image that a hash is cached under, in the form
/// `localhost/dockfoxbuild_cache:{hash}`.
pub fn cache_image_name(hash: &str) -> (r: String)
    ensures
        r@ == cache_name(hash@),
{
    let mut c = to_chars("localhost/dockfoxbuild_cache:");
    append(&mut c, hash);
    to_text(&c)
}

/// Different hashes are cached under different names.
pub proof fn law_cache_names_are_distinct(a: Seq<char>, b: Seq<char>)
    requires
        a != b,
    ensures
        cache_name(a) != cache_name(b),
{
    let n = "localhost/dockfoxbuild_cache:"@.len() as int;
    assert(cache_name(a).skip(n) =~= a);
    assert(cache_name(b).skip(n) =~= b);
}

/// The name of a cached image in a registry.
pub open spec fn remote_name(repository: Seq<char>, hash: Seq<char>) -> Seq<char> {
    repository + ":"@ + hash
}

/// The name of a cached image in a registry: the repository, tagged by the hash.
pub fn remote_cache_name(repository: &str, hash: &str) -> (r: String)
    ensures
        r@ == remote_name(repository@, hash@),
{
    let mut c = to_chars(repository);
    append(&mut c, ":");
    append(&mut c, hash);
    to_text(&c)
}

/// A cached image has its hash as its tag, here and in a registry.
pub proof fn law_hash_is_the_tag(repository: Seq<char>, hash: Seq<char>)
    ensures
        cache_name(hash) == "localhost/dockfoxbuild_cache"@ + seq![':'] + hash,
        remote_name(repository, hash) == repository + seq![':'] + hash,
{
    reveal_strlit(":");
    reveal_strlit("localhost/dockfoxbuild_cache");
    reveal_strlit("localhost/dockfoxbuild_cache:");
    assert("localhost/dockfoxbuild_cache:"@ =~= "localhost/dockfoxbuild_cache"@ + seq![':']);
    assert(":"@ =~= seq![':']);
}

/// The cache is kept below the directory that `XDG_CACHE_HOME` names, whatever `HOME` is, and
/// below `.cache` in `HOME` only where that is not set. With neither there is no place for it.
pub proof fn law_cache_place(x: Seq<char>, h: Seq<char>, home: Option<Seq<char>>)
    ensures
        cache_place(Some(x), home) == Some(join_path(x, "dockfoxbuild"@)),
        cache_place(None, Some(h)) == Some(join_path(join_path(h, ".cache"@), "dockfoxbuild"@)),
        cache_place(None, None) is None,
{
}

} // verus!
