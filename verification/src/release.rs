//! GitHub releases: picking the AppImage downloads out of a release, the
//! cache that keeps the picks, and the steps of fetching a release.
use vstd::prelude::*;
use crate::pattern::{is_aarch64_appimage, is_aarch64_asset, is_x86_64_appimage, is_x86_64_asset};
use crate::outside::{blake3_digest, blake3_hash, random_below};
use crate::text::{chars_of, hex_lower, opt_text, to_hex};
use vstd::utf8::encode_utf8;

verus! {

/// A GitHub release, as the releases API describes it.
pub struct Release {
    pub tag_name: String,
    pub assets: Vec<Asset>,
}

/// A file attached to a release.
pub struct Asset {
    pub name: String,
    pub browser_download_url: String,
}

/// What a release offers to this store: the download of its x86_64 and of
/// its aarch64 AppImage, where it has one, and its tag.
pub struct Parsed {
    pub x86_64: Option<String>,
    pub aarch64: Option<String>,
    pub tag_name: String,
}

/// A cached `Parsed`, kept until `time` (seconds since the Unix epoch)
/// plus the grace period.
pub struct Cache {
    pub time: u64,
    pub data: Parsed,
}

/// The CPU architectures for which a release may hold an AppImage.
#[derive(Clone, Copy)]
pub enum Arch {
    X86_64,
    Aarch64,
}

/// The asset name is that of an AppImage for `arch`.
pub open spec fn is_appimage_for(name: Seq<char>, arch: Arch) -> bool {
    match arch {
        Arch::X86_64 => is_x86_64_appimage(name),
        Arch::Aarch64 => is_aarch64_appimage(name),
    }
}

/// The download URL of the first asset, in release order, that is an
/// AppImage for `arch`.
pub open spec fn first_download(assets: Seq<Asset>, arch: Arch) -> Option<Seq<char>>
    decreases assets.len(),
{
    if assets.len() == 0 {
        None
    } else if is_appimage_for(assets[0].name@, arch) {
        Some(assets[0].browser_download_url@)
    } else {
        first_download(assets.drop_first(), arch)
    }
}

fn find_download(assets: &Vec<Asset>, arch: Arch) -> (url: Option<String>)
    ensures
        opt_text(url) == first_download(assets@, arch),
{
    let mut i: usize = 0;
    assert(assets@.skip(0) == assets@);
    while i < assets.len()
        invariant
            i <= assets@.len(),
            first_download(assets@, arch) == first_download(assets@.skip(i as int), arch),
        decreases assets@.len() - i,
    {
        let name = chars_of(assets[i].name.as_str());
        let hit = match arch {
            Arch::X86_64 => is_x86_64_asset(&name),
            Arch::Aarch64 => is_aarch64_asset(&name),
        };
        assert(assets@.skip(i as int)[0] == assets@[i as int]);
        if hit {
            return Some(assets[i].browser_download_url.clone());
        }
        assert(assets@.skip(i as int).drop_first() == assets@.skip(i + 1));
        i = i + 1;
    }
    assert(assets@.skip(i as int).len() == 0);
    None
}

/// The pick for an architecture is the URL of the lowest-indexed asset that
/// is an AppImage of that architecture: whatever its index, an asset that
/// is one, with no such asset before it, is picked.
pub proof fn lemma_first_download_is_lowest(assets: Seq<Asset>, arch: Arch, i: int)
    requires
        0 <= i < assets.len(),
        match arch {
            Arch::X86_64 => is_x86_64_appimage(assets[i].name@),
            Arch::Aarch64 => is_aarch64_appimage(assets[i].name@),
        },
        forall|j: int|
            0 <= j < i ==> !(match arch {
                Arch::X86_64 => is_x86_64_appimage(#[trigger] assets[j].name@),
                Arch::Aarch64 => is_aarch64_appimage(assets[j].name@),
            }),
    ensures
        first_download(assets, arch) == Some(assets[i].browser_download_url@),
    decreases i,
{
    if i > 0 {
        assert(!is_appimage_for(assets[0].name@, arch));
        let rest = assets.drop_first();
        assert forall|j: int|
            0 <= j < i - 1 implies !(match arch {
                Arch::X86_64 => is_x86_64_appimage(#[trigger] rest[j].name@),
                Arch::Aarch64 => is_aarch64_appimage(rest[j].name@),
            }) by {
            assert(rest[j] == assets[j + 1]);
        }
        lemma_first_download_is_lowest(rest, arch, i - 1);
    }
}

/// A release without an AppImage of an architecture gives no pick for it,
/// and any pick is the URL of an asset that is an AppImage of it.
pub proof fn lemma_first_download_found(assets: Seq<Asset>, arch: Arch)
    ensures
        (forall|j: int|
            0 <= j < assets.len() ==> !(match arch {
                Arch::X86_64 => is_x86_64_appimage(#[trigger] assets[j].name@),
                Arch::Aarch64 => is_aarch64_appimage(assets[j].name@),
            })) ==> first_download(assets, arch) is None,
        first_download(assets, arch) matches Some(u) ==> exists|i: int|
            0 <= i < assets.len() && (match arch {
                Arch::X86_64 => is_x86_64_appimage(#[trigger] assets[i].name@),
                Arch::Aarch64 => is_aarch64_appimage(assets[i].name@),
            }) && u == assets[i].browser_download_url@,
    decreases assets.len(),
{
    if assets.len() > 0 {
        let rest = assets.drop_first();
        lemma_first_download_found(rest, arch);
        if !is_appimage_for(assets[0].name@, arch) {
            if let Some(u) = first_download(assets, arch) {
                let i = choose|i: int|
                    0 <= i < rest.len() && (match arch {
                        Arch::X86_64 => is_x86_64_appimage(#[trigger] rest[i].name@),
                        Arch::Aarch64 => is_aarch64_appimage(rest[i].name@),
                    }) && u == rest[i].browser_download_url@;
                assert(rest[i] == assets[i + 1]);
            }
            if forall|j: int|
                0 <= j < assets.len() ==> !(match arch {
                    Arch::X86_64 => is_x86_64_appimage(#[trigger] assets[j].name@),
                    Arch::Aarch64 => is_aarch64_appimage(assets[j].name@),
                }) {
                assert forall|j: int|
                    0 <= j < rest.len() implies !(match arch {
                        Arch::X86_64 => is_x86_64_appimage(#[trigger] rest[j].name@),
                        Arch::Aarch64 => is_aarch64_appimage(rest[j].name@),
                    }) by {
                    assert(rest[j] == assets[j + 1]);
                }
            }
        }
    }
}

/// Picks the downloads of a release: the first x86_64 AppImage, the first
/// aarch64 AppImage, and the tag.
pub fn parse(parsed: Release) -> (out: Parsed)
    ensures
        opt_text(out.x86_64) == first_download(parsed.assets@, Arch::X86_64),
        opt_text(out.aarch64) == first_download(parsed.assets@, Arch::Aarch64),
        out.tag_name@ == parsed.tag_name@,
{
    let x86_64 = find_download(&parsed.assets, Arch::X86_64);
    let aarch64 = find_download(&parsed.assets, Arch::Aarch64);
    Parsed { x86_64, aarch64, tag_name: parsed.tag_name }
}

impl Parsed {
    /// A copy of the picks.
    pub fn duplicate(&self) -> (out: Parsed)
        ensures
            out == *self,
    {
        let x86_64 = match &self.x86_64 {
            Some(u) => Some(u.clone()),
            None => None,
        };
        let aarch64 = match &self.aarch64 {
            Some(u) => Some(u.clone()),
            None => None,
        };
        Parsed { x86_64, aarch64, tag_name: self.tag_name.clone() }
    }
}

/// Seconds that a cache entry outlives its recorded time.
pub const CACHE_GRACE: u64 = 7200;

/// Least number of seconds added to the current time to make a cache
/// entry's recorded time.
pub const LIFETIME_MIN: u64 = 3600;

/// Bound (excluded) on the seconds added to the current time to make a
/// cache entry's recorded time.
pub const LIFETIME_MAX: u64 = 7200;

/// A cache entry has expired at `now` once `now` reaches its time plus the
/// grace period.
pub open spec fn expired(now: int, cache: Cache) -> bool {
    now >= cache.time + CACHE_GRACE
}

/// Whether a cache entry read at `now` has expired and is to be removed.
pub fn cache_expired(now: u64, cache: &Cache) -> (r: bool)
    requires
        cache.time + CACHE_GRACE <= u64::MAX,
    ensures
        r == expired(now as int, *cache),
{
    now >= CACHE_GRACE + cache.time
}

/// The cache's timings, in seconds: an entry records the current time plus
/// between one hour (included) and two hours (excluded), and expires two
/// hours after the time it records.
pub proof fn lemma_cache_timings(now: int, cache: Cache)
    ensures
        LIFETIME_MIN == 3600,
        LIFETIME_MAX == 7200,
        CACHE_GRACE == 7200,
        expired(now, cache) <==> now >= cache.time + 7200,
{
}

/// A cache entry stored at `now` outlives three hours and is gone after
/// four: it has not expired before `now` plus the least lifetime and the
/// grace period, and it has expired once `now` plus the lifetime bound and
/// the grace period is reached.
pub proof fn lemma_cache_lifetime(now: int, cache: Cache, later: int)
    requires
        now + LIFETIME_MIN <= cache.time < now + LIFETIME_MAX,
    ensures
        later < now + LIFETIME_MIN + CACHE_GRACE ==> !expired(later, cache),
        later >= now + LIFETIME_MAX + CACHE_GRACE ==> expired(later, cache),
{
}

/// The directory of the cache, `./caches/`.
pub open spec fn caches_dir() -> Seq<char> {
    seq!['.', '/', 'c', 'a', 'c', 'h', 'e', 's', '/']
}

/// Where the cached picks of the release at `url` are kept: the lowercase
/// hex BLAKE3 digest of the URL's UTF-8 bytes, in the cache directory.
pub open spec fn cache_path(url: Seq<char>) -> Seq<char> {
    caches_dir() + hex_lower(blake3_digest(encode_utf8(url)))
}

/// The cache path of a release is `./caches/` followed by the lowercase
/// hex BLAKE3 digest of the UTF-8 bytes of its whole URL.
pub proof fn lemma_cache_path_of_whole_url(url: Seq<char>)
    ensures
        cache_path(url) == "./caches/"@ + hex_lower(blake3_digest(encode_utf8(url))),
        cache_path(url).len() == 9 + 2 * blake3_digest(encode_utf8(url)).len(),
{
    reveal_strlit("./caches/");
    assert(caches_dir() == "./caches/"@);
    crate::text::lemma_hex_lower_len(blake3_digest(encode_utf8(url)));
}

/// Two releases share a cache entry only when the BLAKE3 digests of their
/// whole URLs are equal: the cache never mixes releases whose URL digests
/// differ.
pub proof fn lemma_cache_paths_keep_urls_apart(a: Seq<char>, b: Seq<char>)
    requires
        cache_path(a) == cache_path(b),
    ensures
        blake3_digest(encode_utf8(a)) == blake3_digest(encode_utf8(b)),
{
    lemma_cache_path_of_whole_url(a);
    lemma_cache_path_of_whole_url(b);
    let dir = "./caches/"@;
    assert(hex_lower(blake3_digest(encode_utf8(a))) =~= cache_path(a).skip(dir.len() as int));
    assert(hex_lower(blake3_digest(encode_utf8(b))) =~= cache_path(b).skip(dir.len() as int));
    crate::text::lemma_hex_lower_injective(blake3_digest(encode_utf8(a)), blake3_digest(encode_utf8(b)));
}

/// Computes the cache path of the release at `url`.
pub fn cache_path_of(url: &str) -> (path: String)
    ensures
        path@ == cache_path(url@),
{
    let digest = blake3_hash(url.as_bytes());
    let key = to_hex(digest.as_slice());
    let mut path = String::new();
    path.append("./caches/");
    path.append(key.as_str());
    proof {
        reveal_strlit("./caches/");
    }
    path
}

/// The steps of fetching a release.
pub enum FetchPhase {
    /// Waiting for the cache entry to be read.
    LookingUp,
    /// Waiting for the status of the request for the release.
    Requesting,
    /// Waiting for the body of the release.
    Receiving,
    /// Waiting for the new cache entry to be written.
    Storing,
    /// The fetch has its result.
    Done,
}

/// What the outside world reports back to a fetch.
pub enum FetchEvent {
    /// The cache entry, if it could be read and decoded.
    CacheRead(Option<Cache>),
    /// The HTTP status of the request for the release.
    Responded(u16),
    /// The decoded release, if the body was one, and the current time in
    /// seconds since the Unix epoch.
    BodyRead(Option<Release>, u64),
    /// Whether the new cache entry was written.
    Stored(bool),
}

/// What a fetch asks the outside world to do next.
pub enum FetchAction {
    /// Read and decode the cache entry at `path`.
    ReadCache(String),
    /// Request the release at this URL.
    Get(String),
    /// Read and decode the body of the response.
    ReadBody,
    /// Show the body of the failed response; the fetch yields nothing.
    Report,
    /// Write this cache entry at this path.
    Store(String, Cache),
    /// The fetch is over, with this result.
    Finish(Option<Parsed>),
}

/// A fetch of the picks of one release: from the cache when it holds them,
/// else from the releases API, then kept in the cache.
pub struct Fetcher {
    pub url: String,
    pub path: String,
    pub phase: FetchPhase,
    pub pending: Option<Parsed>,
}

/// The event is one that the phase waits for.
pub open spec fn awaits(phase: FetchPhase, event: FetchEvent) -> bool {
    match (phase, event) {
        (FetchPhase::LookingUp, FetchEvent::CacheRead(_)) => true,
        (FetchPhase::Requesting, FetchEvent::Responded(_)) => true,
        (FetchPhase::Receiving, FetchEvent::BodyRead(_, now)) => now + CACHE_GRACE <= u64::MAX,
        (FetchPhase::Storing, FetchEvent::Stored(_)) => true,
        _ => false,
    }
}

impl Fetcher {
    /// The fetch is in a consistent state: its path is the cache path of
    /// its URL, and it holds picks exactly while it waits to store them.
    pub open spec fn wf(&self) -> bool {
        &&& self.path@ == cache_path(self.url@)
        &&& (self.phase is Storing <==> self.pending is Some)
    }

    /// Starts a fetch of the release at `url`: first, read its cache entry.
    pub fn new(url: String) -> (res: (Fetcher, FetchAction))
        ensures
            res.0.wf(),
            res.0.url == url,
            res.0.phase is LookingUp,
            res.1 == FetchAction::ReadCache(res.0.path),
    {
        let path = cache_path_of(url.as_str());
        let action = FetchAction::ReadCache(path.clone());
        (Fetcher { url, path, phase: FetchPhase::LookingUp, pending: None }, action)
    }

    /// Takes the next decision of the fetch from what the outside world
    /// reported.
    pub fn step(&mut self, event: FetchEvent, rng: &mut rand::rngs::StdRng) -> (action: FetchAction)
        requires
            old(self).wf(),
            awaits(old(self).phase, event),
        ensures
            final(self).wf(),
            final(self).url == old(self).url,
            final(self).path == old(self).path,
            match event {
                FetchEvent::CacheRead(Some(c)) => final(self).phase is Done
                    && action == FetchAction::Finish(Some(c.data)),
                FetchEvent::CacheRead(None) => final(self).phase is Requesting
                    && action == FetchAction::Get(old(self).url),
                FetchEvent::Responded(status) => if status == 200 {
                    final(self).phase is Receiving && action is ReadBody
                } else {
                    final(self).phase is Done && action is Report
                },
                FetchEvent::BodyRead(None, _) => final(self).phase is Done
                    && action == FetchAction::Finish(None),
                FetchEvent::BodyRead(Some(release), now) => {
                    &&& final(self).phase is Storing
                    &&& action matches FetchAction::Store(path, cache)
                    &&& path == old(self).path
                    &&& now + LIFETIME_MIN <= cache.time < now + LIFETIME_MAX
                    &&& final(self).pending == Some(cache.data)
                    &&& opt_text(cache.data.x86_64) == first_download(release.assets@, Arch::X86_64)
                    &&& opt_text(cache.data.aarch64) == first_download(release.assets@, Arch::Aarch64)
                    &&& cache.data.tag_name@ == release.tag_name@
                },
                FetchEvent::Stored(ok) => final(self).phase is Done
                    && action == FetchAction::Finish(if ok { old(self).pending } else { None }),
            },
    {
        match event {
            FetchEvent::CacheRead(Some(c)) => {
                self.phase = FetchPhase::Done;
                FetchAction::Finish(Some(c.data))
            },
            FetchEvent::CacheRead(None) => {
                self.phase = FetchPhase::Requesting;
                FetchAction::Get(self.url.clone())
            },
            FetchEvent::Responded(status) => {
                if status == 200 {
                    self.phase = FetchPhase::Receiving;
                    FetchAction::ReadBody
                } else {
                    self.phase = FetchPhase::Done;
                    FetchAction::Report
                }
            },
            FetchEvent::BodyRead(None, _) => {
                self.phase = FetchPhase::Done;
                FetchAction::Finish(None)
            },
            FetchEvent::BodyRead(Some(release), now) => {
                let picks = parse(release);
                let lifetime = random_below(rng, LIFETIME_MIN, LIFETIME_MAX);
                let cache = Cache { time: now + lifetime, data: picks.duplicate() };
                self.phase = FetchPhase::Storing;
                self.pending = Some(picks);
                FetchAction::Store(self.path.clone(), cache)
            },
            FetchEvent::Stored(ok) => {
                self.phase = FetchPhase::Done;
                let picks = self.pending.take();
                if ok {
                    FetchAction::Finish(picks)
                } else {
                    FetchAction::Finish(None)
                }
            },
        }
    }
}

} // verus!
