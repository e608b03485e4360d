use ahqstore_appimage::pattern::{is_aarch64_asset, is_x86_64_asset};
use regex::RegexBuilder;

fn chars(s: &str) -> Vec<char> {
    s.chars().collect()
}

fn x86_regex() -> regex::Regex {
    RegexBuilder::new(r"^.*(x86_64|amd64).*\.AppImage$").case_insensitive(true).build().unwrap()
}

fn arm_regex() -> regex::Regex {
    RegexBuilder::new(r"^.*aarch64.*\.AppImage$").case_insensitive(true).build().unwrap()
}

const NAMES: &[&str] = &[
    "App-x86_64.AppImage",
    "App-X86_64.appimage",
    "app-amd64.AppImage",
    "app-AMD64-v2.APPIMAGE",
    "app-aarch64.AppImage",
    "app-AARCH64.AppImage",
    "app-arm64.AppImage",
    "app-x86_64.AppImage.zsync",
    "app-x86_64.tar.gz",
    "x86_64.AppImage",
    "amd64.AppImage",
    ".AppImage",
    "x86_64",
    "",
    "app-x86_64\n.AppImage",
    "app\n-x86_64.AppImage",
    "app-x86_64.AppImage\n",
    "app-x86-64.AppImage",
    "app-x86_64AppImage",
    "app-x86_64.AppImagE",
    "Ünïcödé-x86_64.AppImage",
    "aarch64-amd64.AppImage",
    "app.AppImage-x86_64",
    "app-x86_64_.AppImage",
    "app-amd64\r.AppImage",
    "app-aarch64x86_64.appimage",
];

#[test]
fn x86_64_matching_agrees_with_the_regex() {
    let re = x86_regex();
    for name in NAMES {
        assert_eq!(is_x86_64_asset(&chars(name)), re.is_match(name), "{:?}", name);
    }
}

#[test]
fn aarch64_matching_agrees_with_the_regex() {
    let re = arm_regex();
    for name in NAMES {
        assert_eq!(is_aarch64_asset(&chars(name)), re.is_match(name), "{:?}", name);
    }
}

#[test]
fn generated_names_agree_with_the_regexes() {
    let parts = ["", "a", "x86_64", "AMD64", "aarch64", "\n", ".AppImage", ".appimage", "-", "K", "ı"];
    let (x86, arm) = (x86_regex(), arm_regex());
    for a in parts {
        for b in parts {
            for c in parts {
                let name = format!("{a}{b}{c}");
                assert_eq!(is_x86_64_asset(&chars(&name)), x86.is_match(&name), "{:?}", name);
                assert_eq!(is_aarch64_asset(&chars(&name)), arm.is_match(&name), "{:?}", name);
            }
        }
    }
}

#[test]
fn case_is_ignored_only_for_ascii_letters() {
    assert!(is_x86_64_asset(&chars("TOOL-X86_64.APPIMAGE")));
    assert!(!is_x86_64_asset(&chars("tool-x86_64.appımage")));
}
