use ahqstore_appimage::release::Parsed;
use ahqstore_appimage::store::{
    parse_push, pretty_url_text, release_endpoint, release_version_text, version_text, InstallerFormat,
    StoreApp,
};
use ahqstore_appimage::structs::{ParsedApp, Url};
use std::collections::HashMap;

#[derive(Debug)]
#[allow(dead_code)]
enum Shape {
    Aarch64(String),
    X86_64(String),
    GitHubReleases(String),
}

fn app(url: Url) -> ParsedApp {
    let mut resources = HashMap::new();
    resources.insert(0u8, vec![1u8]);
    resources.insert(1u8, vec![2u8]);
    resources.insert(2u8, vec![3u8]);
    ParsedApp {
        name: "Tool".to_string(),
        description: "A tool".to_string(),
        license: "MIT".to_string(),
        authors: vec![],
        screenshots: vec![],
        resources,
        url,
    }
}

fn hex(text: &str) -> String {
    blake3::hash(text.as_bytes()).to_string()
}

#[test]
fn pretty_url_matches_the_derived_debug() {
    let link = "https://x/\"q\"\n\u{7f}é";
    assert_eq!(pretty_url_text(&Url::Aarch64(link.to_string())), format!("{:#?}", Shape::Aarch64(link.to_string())));
    assert_eq!(pretty_url_text(&Url::X86_64(link.to_string())), format!("{:#?}", Shape::X86_64(link.to_string())));
    assert_eq!(
        pretty_url_text(&Url::GitHubReleases(link.to_string())),
        format!("{:#?}", Shape::GitHubReleases(link.to_string()))
    );
}

#[test]
fn versions_are_blake3_digests() {
    let url = Url::X86_64("https://e/t.AppImage".to_string());
    let expected = hex(&format!("l:{}:{:#?}", "Tool", Shape::X86_64("https://e/t.AppImage".to_string())));
    assert_eq!(version_text("Tool", &url), expected);
    assert_eq!(release_version_text("abc", "v1"), hex("l:abc:v1"));
}

fn common(s: &StoreApp) {
    assert_eq!(s.app_id, "Tool");
    assert_eq!(s.app_display_name, "Tool");
    assert_eq!(s.app_shortcut_name, "Tool");
    assert_eq!(s.author_id, "6adfb183a4a2c94a2f92dab5ade762a47889a5a1");
    assert_eq!(s.release_tag_name, "ahqstore");
    assert_eq!(s.license_or_tos.as_deref(), Some("MIT"));
    assert_eq!(s.source.as_deref(), Some("appimages"));
    assert_eq!(s.repo.author, "AppImage");
    assert_eq!(s.repo.repo, "appimage.github.io");
    assert!(!s.verified);
    assert!(s.site.is_none());
    let mut ids = s.display_images.clone();
    ids.sort();
    assert_eq!(ids, vec![1, 2]);
    assert_eq!(s.resources.as_ref().unwrap().len(), 3);
}

#[test]
fn direct_x86_64_download() {
    let url = Url::X86_64("https://e/t.AppImage".to_string());
    let version = version_text("Tool", &url);
    let s = parse_push(app(url), None).unwrap();
    common(&s);
    assert_eq!(s.version, version);
    assert_eq!(s.install.linux.as_ref().unwrap().asset_id, 0);
    assert!(s.install.linux_arm64.is_none());
    assert_eq!(s.download_urls.len(), 1);
    let d = &s.download_urls[&0];
    assert!(matches!(d.installer_type, InstallerFormat::LinuxAppImage));
    assert_eq!(d.url, "https://e/t.AppImage");
    assert_eq!(d.asset, "<-- NO NEED -->");
}

#[test]
fn direct_aarch64_download() {
    let s = parse_push(app(Url::Aarch64("https://e/a.AppImage".to_string())), None).unwrap();
    common(&s);
    assert!(s.install.linux.is_none());
    assert_eq!(s.install.linux_arm64.as_ref().unwrap().asset_id, 1);
    assert_eq!(s.download_urls[&1].url, "https://e/a.AppImage");
    assert_eq!(s.download_urls.len(), 1);
}

fn picks(x86: Option<&str>, arm: Option<&str>) -> Parsed {
    Parsed { x86_64: x86.map(|s| s.to_string()), aarch64: arm.map(|s| s.to_string()), tag_name: "v3".to_string() }
}

#[test]
fn github_release_needs_its_picks() {
    let url = || Url::GitHubReleases("https://api.github.com/repos/o/r/releases/latest".to_string());
    assert!(parse_push(app(url()), None).is_none());
    let first = version_text("Tool", &url());
    let s = parse_push(app(url()), Some(picks(Some("x"), None))).unwrap();
    common(&s);
    assert_eq!(s.version, release_version_text(&first, "v3"));
    assert_eq!(s.install.linux.as_ref().unwrap().asset_id, 0);
    assert_eq!(s.download_urls[&0].url, "x");
}

#[test]
fn github_release_aarch64_pick_takes_the_x86_64_slot() {
    let url = || Url::GitHubReleases("e".to_string());
    let s = parse_push(app(url()), Some(picks(Some("x"), Some("a")))).unwrap();
    assert_eq!(s.download_urls.len(), 1);
    assert_eq!(s.download_urls[&0].url, "a");
    assert_eq!(s.install.linux.as_ref().unwrap().asset_id, 0);
    assert!(s.install.linux_arm64.is_none());
    let s = parse_push(app(url()), Some(picks(None, Some("a")))).unwrap();
    assert_eq!(s.download_urls[&0].url, "a");
    assert!(s.install.linux.is_some());
    let s = parse_push(app(url()), Some(picks(None, None))).unwrap();
    assert!(s.download_urls.is_empty());
    assert!(s.install.linux.is_none());
}

#[test]
fn release_endpoint_only_for_github_sources() {
    assert_eq!(release_endpoint(&Url::GitHubReleases("e".to_string())).as_deref(), Some("e"));
    assert_eq!(release_endpoint(&Url::X86_64("e".to_string())), None);
    assert_eq!(release_endpoint(&Url::Aarch64("e".to_string())), None);
}
