//! An application as the AHQ Store lists it, and how a catalogue
//! application becomes one: its version, its downloads, its images.
use std::collections::HashMap;
use vstd::prelude::*;
use crate::outside::{blake3_digest, blake3_hash, debug_escaped, debug_text};
use crate::release::Parsed;
use crate::structs::{ParsedApp, Url};
use crate::text::{concat_all, hex_lower, opt_text, text_of, to_hex};
use vstd::std_specs::iter::IteratorSpec;
use vstd::utf8::encode_utf8;

verus! {

broadcast use vstd::std_specs::hash::group_hash_axioms;

/// The kinds of installer that the store knows.
pub enum InstallerFormat {
    WindowsZip,
    WindowsInstallerMsi,
    WindowsInstallerExe,
    WindowsUWPMsix,
    LinuxAppImage,
    LinuxFlatpak,
    LinuxFlathubFlatpak,
    AndroidApkZip,
}

/// A download of the store: what it is, the release asset it names, and
/// its URL.
pub struct DownloadUrl {
    pub installer_type: InstallerFormat,
    pub asset: String,
    pub url: String,
}

/// The Linux install option of one architecture: which download it uses.
pub struct InstallerOptionsLinux {
    pub asset_id: u8,
}

/// The install options of an application. The Windows and Android options
/// are never set by this builder, so they are not held here.
pub struct InstallerOptions {
    pub linux: Option<InstallerOptionsLinux>,
    pub linux_arm64: Option<InstallerOptionsLinux>,
    pub linux_arm7: Option<InstallerOptionsLinux>,
}

/// The GitHub repository that an application is attributed to.
pub struct AppRepo {
    pub author: String,
    pub repo: String,
}

/// An application of the AHQ Store.
pub struct StoreApp {
    pub app_id: String,
    pub app_shortcut_name: String,
    pub app_display_name: String,
    pub author_id: String,
    pub release_tag_name: String,
    pub download_urls: HashMap<u8, DownloadUrl>,
    pub install: InstallerOptions,
    pub display_images: Vec<u8>,
    pub description: String,
    pub repo: AppRepo,
    pub version: String,
    pub site: Option<String>,
    pub source: Option<String>,
    pub license_or_tos: Option<String>,
    pub resources: Option<HashMap<u8, Vec<u8>>>,
    pub verified: bool,
}

/// The author id under which the AppImage applications are listed.
pub open spec fn appimage_author() -> Seq<char> {
    "6adfb183a4a2c94a2f92dab5ade762a47889a5a1"@
}

/// The asset name of a direct AppImage download, which the store does not
/// look up.
pub open spec fn no_asset() -> Seq<char> {
    "<-- NO NEED -->"@
}

/// `d` is the AppImage download at `url`.
pub open spec fn is_appimage_download(d: DownloadUrl, url: Seq<char>) -> bool {
    d.installer_type is LinuxAppImage && d.asset@ == no_asset() && d.url@ == url
}

/// The text of a download source as `{:#?}` shows it: the variant name,
/// then the URL in its `Debug` form on an indented line of its own.
pub open spec fn pretty_url(url: Url) -> Seq<char> {
    let (variant, link) = match url {
        Url::Aarch64(x) => ("Aarch64"@, x@),
        Url::X86_64(x) => ("X86_64"@, x@),
        Url::GitHubReleases(x) => ("GitHubReleases"@, x@),
    };
    variant + "(\n    "@ + debug_escaped(link) + ",\n)"@
}

/// The lowercase hex BLAKE3 digest of the UTF-8 bytes of a text.
pub open spec fn digest_hex(text: Seq<char>) -> Seq<char> {
    hex_lower(blake3_digest(encode_utf8(text)))
}

/// The version of an application from its name and download source.
pub open spec fn version_of(name: Seq<char>, url: Url) -> Seq<char> {
    digest_hex("l:"@ + name + ":"@ + pretty_url(url))
}

/// For every name and download source, the version is the lowercase hex
/// BLAKE3 digest of the UTF-8 bytes of `l:`, the name, `:`, and the source
/// as `{:#?}` shows it: the variant name, `(`, a line break and four
/// spaces, the URL in its `Debug` form, `,`, a line break and `)`.
pub proof fn lemma_version_digests_name_and_source(name: Seq<char>, url: Url)
    ensures
        version_of(name, url) == hex_lower(
            blake3_digest(
                encode_utf8(
                    "l:"@ + name + ":"@ + match url {
                        Url::Aarch64(x) => "Aarch64(\n    "@ + debug_escaped(x@) + ",\n)"@,
                        Url::X86_64(x) => "X86_64(\n    "@ + debug_escaped(x@) + ",\n)"@,
                        Url::GitHubReleases(x) => "GitHubReleases(\n    "@ + debug_escaped(x@)
                            + ",\n)"@,
                    },
                ),
            ),
        ),
{
    reveal_strlit("Aarch64");
    reveal_strlit("X86_64");
    reveal_strlit("GitHubReleases");
    reveal_strlit("(\n    ");
    reveal_strlit("Aarch64(\n    ");
    reveal_strlit("X86_64(\n    ");
    reveal_strlit("GitHubReleases(\n    ");
    let (v, x) = match url {
        Url::Aarch64(x) => ("Aarch64"@, x@),
        Url::X86_64(x) => ("X86_64"@, x@),
        Url::GitHubReleases(x) => ("GitHubReleases"@, x@),
    };
    assert(v + "(\n    "@ + debug_escaped(x) + ",\n)"@ == (v + "(\n    "@) + debug_escaped(x) + ",\n)"@);
    assert(pretty_url(url) == (v + "(\n    "@) + debug_escaped(x) + ",\n)"@);
    match url {
        Url::Aarch64(_) => assert(v + "(\n    "@ =~= "Aarch64(\n    "@),
        Url::X86_64(_) => assert(v + "(\n    "@ =~= "X86_64(\n    "@),
        Url::GitHubReleases(_) => assert(v + "(\n    "@ =~= "GitHubReleases(\n    "@),
    }
    assert("l:"@ + name + ":"@ + pretty_url(url) =~= "l:"@ + name + ":"@ + ((v + "(\n    "@)
        + debug_escaped(x) + ",\n)"@));
}

/// Sources of one kind whose URLs differ in `Debug` form give versions
/// that digest different texts: the URL is part of what the version
/// digests, so a new download gives a new version unless the digests
/// collide.
pub proof fn lemma_version_follows_the_url(name: Seq<char>, a: Url, b: Url)
    requires
        a is Aarch64 && b is Aarch64 || a is X86_64 && b is X86_64 || a is GitHubReleases
            && b is GitHubReleases,
        debug_escaped(url_text(a)) != debug_escaped(url_text(b)),
    ensures
        exists|ta: Seq<char>, tb: Seq<char>|
            ta != tb && version_of(name, a) == digest_hex(ta) && version_of(name, b) == digest_hex(
                tb,
            ),
{
    let ta = "l:"@ + name + ":"@ + pretty_url(a);
    let tb = "l:"@ + name + ":"@ + pretty_url(b);
    let (va, xa) = match a {
        Url::Aarch64(x) => ("Aarch64"@, x@),
        Url::X86_64(x) => ("X86_64"@, x@),
        Url::GitHubReleases(x) => ("GitHubReleases"@, x@),
    };
    let (vb, xb) = match b {
        Url::Aarch64(x) => ("Aarch64"@, x@),
        Url::X86_64(x) => ("X86_64"@, x@),
        Url::GitHubReleases(x) => ("GitHubReleases"@, x@),
    };
    assert(va == vb);
    let p = "l:"@ + name + ":"@ + va + "(\n    "@;
    let q = ",\n)"@;
    let da = debug_escaped(xa);
    let db = debug_escaped(xb);
    assert(ta =~= p + da + q);
    assert(tb =~= p + db + q);
    if ta == tb {
        assert((p + da + q).len() == (p + db + q).len());
        assert(da =~= (p + da + q).subrange(p.len() as int, (p.len() + da.len()) as int));
        assert(db =~= (p + db + q).subrange(p.len() as int, (p.len() + db.len()) as int));
        assert(da == db);
    }
    assert(version_of(name, a) == digest_hex(ta));
    assert(version_of(name, b) == digest_hex(tb));
}

/// The version of an application from a GitHub release is the lowercase
/// hex BLAKE3 digest of `l:`, its first version, `:` and the release tag;
/// different tags give digests of different texts.
pub proof fn lemma_release_version_digests_tag(first: Seq<char>, tag: Seq<char>, other: Seq<char>)
    ensures
        release_version(first, tag) == hex_lower(
            blake3_digest(encode_utf8(seq!['l', ':'] + first + seq![':'] + tag)),
        ),
        tag != other ==> seq!['l', ':'] + first + seq![':'] + tag != seq!['l', ':'] + first + seq![':']
            + other,
{
    reveal_strlit("l:");
    reveal_strlit(":");
    assert("l:"@ + first + ":"@ + tag =~= seq!['l', ':'] + first + seq![':'] + tag);
    let p = seq!['l', ':'] + first + seq![':'];
    if tag != other && p + tag == p + other {
        assert(tag =~= (p + tag).skip(p.len() as int));
        assert(other =~= (p + other).skip(p.len() as int));
    }
}

/// The URL of a download source.
pub open spec fn url_text(url: Url) -> Seq<char> {
    match url {
        Url::Aarch64(x) => x@,
        Url::X86_64(x) => x@,
        Url::GitHubReleases(x) => x@,
    }
}

/// The version of an application whose downloads come from a GitHub
/// release: its first version, chained with the release tag.
pub open spec fn release_version(first: Seq<char>, tag: Seq<char>) -> Seq<char> {
    digest_hex("l:"@ + first + ":"@ + tag)
}

/// The download that a release gives the store: its aarch64 AppImage when
/// it has one, else its x86_64 AppImage. (Both are put under the x86_64
/// slot, the aarch64 one last, so it is the one that stays.)
pub open spec fn release_download(p: Parsed) -> Option<Seq<char>> {
    if p.aarch64 is Some {
        opt_text(p.aarch64)
    } else {
        opt_text(p.x86_64)
    }
}

/// The parts of a store application that do not depend on its downloads.
pub open spec fn lists_app(s: StoreApp, app: ParsedApp) -> bool {
    &&& s.app_id@ == app.name@
    &&& s.app_shortcut_name@ == app.name@
    &&& s.app_display_name@ == app.name@
    &&& s.author_id@ == appimage_author()
    &&& s.description == app.description
    &&& s.release_tag_name@ == "ahqstore"@
    &&& s.license_or_tos == Some(app.license)
    &&& s.site is None
    &&& s.repo.author@ == "AppImage"@
    &&& s.repo.repo@ == "appimage.github.io"@
    &&& opt_text(s.source) == Some("appimages"@)
    &&& !s.verified
    &&& s.install.linux_arm7 is None
    &&& s.resources == Some(app.resources)
    &&& s.display_images@.no_duplicates()
    &&& forall|k: u8| #[trigger] s.display_images@.contains(k) <==> (k != 0 && app.resources@.contains_key(k))
}

/// The option to install from the download under `id`.
pub open spec fn installs(o: Option<InstallerOptionsLinux>, id: Option<u8>) -> bool {
    match id {
        Some(i) => o matches Some(opt) && opt.asset_id == i,
        None => o is None,
    }
}

/// Computes the `{:#?}` text of a download source.
pub fn pretty_url_text(url: &Url) -> (out: String)
    ensures
        out@ == pretty_url(*url),
{
    let (variant, link) = match url {
        Url::Aarch64(x) => ("Aarch64", x),
        Url::X86_64(x) => ("X86_64", x),
        Url::GitHubReleases(x) => ("GitHubReleases", x),
    };
    let quoted = debug_text(link.as_str());
    let out = text_of(&[variant, "(\n    ", quoted.as_str(), ",\n)"]);
    proof {
        reveal_with_fuel(concat_all, 5);
    }
    out
}

/// Computes the lowercase hex BLAKE3 digest of a text.
pub fn digest_hex_of(text: &str) -> (out: String)
    ensures
        out@ == digest_hex(text@),
{
    let digest = blake3_hash(text.as_bytes());
    to_hex(digest.as_slice())
}

/// Computes the version of an application from its name and download
/// source.
pub fn version_text(name: &str, url: &Url) -> (out: String)
    ensures
        out@ == version_of(name@, *url),
{
    let pretty = pretty_url_text(url);
    let seed = text_of(&["l:", name, ":", pretty.as_str()]);
    proof {
        reveal_with_fuel(concat_all, 5);
    }
    digest_hex_of(seed.as_str())
}

/// Computes the version of an application from its first version and the
/// tag of its release.
pub fn release_version_text(first: &str, tag: &str) -> (out: String)
    ensures
        out@ == release_version(first@, tag@),
{
    let seed = text_of(&["l:", first, ":", tag]);
    proof {
        reveal_with_fuel(concat_all, 5);
    }
    digest_hex_of(seed.as_str())
}

fn appimage_download(url: String) -> (d: DownloadUrl)
    ensures
        is_appimage_download(d, url@),
{
    let mut asset = String::new();
    asset.append("<-- NO NEED -->");
    DownloadUrl { installer_type: InstallerFormat::LinuxAppImage, asset, url }
}

/// The ids of the images other than the icon, in the map's order.
fn display_ids(resources: &HashMap<u8, Vec<u8>>) -> (ids: Vec<u8>)
    ensures
        ids@.no_duplicates(),
        forall|k: u8| #[trigger] ids@.contains(k) <==> (k != 0 && resources@.contains_key(k)),
{
    let mut ids: Vec<u8> = Vec::new();
    let ghost keys = resources.keys().remaining().unref();
    assert(keys.to_set() == resources@.dom());
    assert(keys.no_duplicates());
    for k in it: resources.keys()
        invariant
            it.seq().unref() == keys,
            keys.no_duplicates(),
            keys.to_set() == resources@.dom(),
            ids@.no_duplicates(),
            forall|x: u8| #[trigger] ids@.contains(x) <==> (x != 0 && keys.take(it.index() as int).contains(x)),
    {
        let ghost i = it.index() as int;
        let key = *k;
        assert(keys[i] == key);
        let ghost before = keys.take(i);
        let ghost after = keys.take(i + 1);
        assert(after =~= before.push(key));
        assert forall|x: u8| #[trigger] after.contains(x) <==> (before.contains(x) || x == key) by {
            if before.contains(x) {
                let j = choose|j: int| 0 <= j < before.len() && before[j] == x;
                assert(after[j] == x);
            }
            if x == key {
                assert(after[i] == key);
            }
            if after.contains(x) {
                let j = choose|j: int| 0 <= j < after.len() && after[j] == x;
                if j < i {
                    assert(before[j] == x);
                }
            }
        }
        assert(!before.contains(key)) by {
            if before.contains(key) {
                let j = choose|j: int| 0 <= j < before.len() && before[j] == key;
                assert(keys[j] == keys[i]);
            }
        }
        if key != 0 {
            let ghost old_ids = ids@;
            ids.push(key);
            assert(ids@.no_duplicates()) by {
                assert forall|a: int, b: int| 0 <= a < b < ids@.len() implies ids@[a] != ids@[b] by {
                    if b == old_ids.len() {
                        assert(old_ids.contains(ids@[a]));
                    } else {
                        assert(old_ids[a] != old_ids[b]);
                    }
                }
            }
            assert forall|x: u8| #[trigger] ids@.contains(x) <==> (x != 0 && after.contains(x)) by {
                if ids@.contains(x) && x != key {
                    let j = choose|j: int| 0 <= j < ids@.len() && ids@[j] == x;
                    assert(old_ids[j] == x);
                }
                if x != key && old_ids.contains(x) {
                    let j = choose|j: int| 0 <= j < old_ids.len() && old_ids[j] == x;
                    assert(ids@[j] == x);
                }
                if x == key {
                    assert(ids@[old_ids.len() as int] == key);
                }
            }
        }
    }
    assert(keys.take(keys.len() as int) == keys);
    ids
}

fn text(literal: &str) -> (out: String)
    ensures
        out@ == literal@,
{
    let mut out = String::new();
    out.append(literal);
    out
}

/// The GitHub releases endpoint to fetch for a download source, if it is
/// one.
pub fn release_endpoint(url: &Url) -> (endpoint: Option<String>)
    ensures
        match url {
            Url::GitHubReleases(x) => opt_text(endpoint) == Some(x@),
            _ => endpoint is None,
        },
{
    match url {
        Url::GitHubReleases(x) => Some(x.clone()),
        _ => None,
    }
}

/// Turns a catalogue application into a store application. An
/// application with a GitHub releases source needs the picks of its
/// release (`fetched`): without them it is left out. An application with a
/// direct download ignores `fetched`.
pub fn parse_push(app: ParsedApp, fetched: Option<Parsed>) -> (out: Option<StoreApp>)
    ensures
        match app.url {
            Url::GitHubReleases(_) => match fetched {
                None => out is None,
                Some(p) => out matches Some(s) && {
                    &&& lists_app(s, app)
                    &&& s.version@ == release_version(version_of(app.name@, app.url), p.tag_name@)
                    &&& installs(s.install.linux, if release_download(p) is Some { Some(0u8) } else { None })
                    &&& s.install.linux_arm64 is None
                    &&& match release_download(p) {
                        Some(u) => s.download_urls@.dom() == set![0u8] && is_appimage_download(
                            s.download_urls@[0],
                            u,
                        ),
                        None => s.download_urls@.dom() == Set::<u8>::empty(),
                    }
                },
            },
            Url::X86_64(x) => out matches Some(s) && {
                &&& lists_app(s, app)
                &&& s.version@ == version_of(app.name@, app.url)
                &&& installs(s.install.linux, Some(0u8))
                &&& s.install.linux_arm64 is None
                &&& s.download_urls@.dom() == set![0u8]
                &&& is_appimage_download(s.download_urls@[0], x@)
            },
            Url::Aarch64(x) => out matches Some(s) && {
                &&& lists_app(s, app)
                &&& s.version@ == version_of(app.name@, app.url)
                &&& s.install.linux is None
                &&& installs(s.install.linux_arm64, Some(1u8))
                &&& s.download_urls@.dom() == set![1u8]
                &&& is_appimage_download(s.download_urls@[1], x@)
            },
        },
{
    let first = version_text(app.name.as_str(), &app.url);
    let mut linux: Option<InstallerOptionsLinux> = None;
    let mut linux_arm64: Option<InstallerOptionsLinux> = None;
    let mut downloads: HashMap<u8, DownloadUrl> = HashMap::new();
    let version: String;
    match &app.url {
        Url::Aarch64(x) => {
            linux_arm64 = Some(InstallerOptionsLinux { asset_id: 1 });
            downloads.insert(1, appimage_download(x.clone()));
            version = first;
        },
        Url::X86_64(x) => {
            linux = Some(InstallerOptionsLinux { asset_id: 0 });
            downloads.insert(0, appimage_download(x.clone()));
            version = first;
        },
        Url::GitHubReleases(_) => {
            let p = match fetched {
                Some(p) => p,
                None => {
                    return None;
                },
            };
            version = release_version_text(first.as_str(), p.tag_name.as_str());
            let ghost chosen = release_download(p);
            if let Some(amd64) = p.x86_64 {
                linux = Some(InstallerOptionsLinux { asset_id: 0 });
                downloads.insert(0, appimage_download(amd64));
            }
            if let Some(arm64) = p.aarch64 {
                linux = Some(InstallerOptionsLinux { asset_id: 0 });
                downloads.insert(0, appimage_download(arm64));
            }
            assert(match chosen {
                Some(u) => downloads@.dom() =~= set![0u8] && is_appimage_download(downloads@[0], u),
                None => downloads@.dom() =~= Set::<u8>::empty(),
            });
        },
    }
    let display_images = display_ids(&app.resources);
    let name = app.name;
    let out = StoreApp {
        app_id: name.clone(),
        app_shortcut_name: name.clone(),
        app_display_name: name,
        author_id: text("6adfb183a4a2c94a2f92dab5ade762a47889a5a1"),
        release_tag_name: text("ahqstore"),
        download_urls: downloads,
        install: InstallerOptions { linux, linux_arm64, linux_arm7: None },
        display_images,
        description: app.description,
        repo: AppRepo { author: text("AppImage"), repo: text("appimage.github.io") },
        version,
        site: None,
        source: Some(text("appimages")),
        license_or_tos: Some(app.license),
        resources: Some(app.resources),
        verified: false,
    };
    Some(out)
}

} // verus!
