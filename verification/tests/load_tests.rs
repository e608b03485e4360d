use ahqstore_appimage::load::{
    assemble_app, front_matter, get_screenshots, icon_path, is_hidden, keeps_line, screenshot_paths,
};
use ahqstore_appimage::structs::{App, Url};
use std::collections::HashMap;

fn reference_front_matter(meta: &str) -> String {
    meta.lines()
        .filter(|x| !x.trim().is_empty() && x.trim() != "---")
        .collect::<Vec<_>>()
        .join("\n")
}

#[test]
fn front_matter_drops_blank_lines_and_markers() {
    let page = "---\nlayout: app\n\nlicense: MIT\n  ---  \ndescription: x\n---\n";
    assert_eq!(front_matter(page), "layout: app\nlicense: MIT\ndescription: x");
}

#[test]
fn front_matter_agrees_with_lines_and_trim() {
    let pages = [
        "",
        "\n",
        "---",
        "a",
        "a\n",
        "a\r\nb\r\n",
        "a\rb\nc\r",
        "  \t\n---\n----\n- --\n--- x\n",
        "x\r\r\n\u{a0}---\u{3000}\ny",
        "\u{85}\n\u{2028}a\u{2029}\n\u{200b}\n",
        "key: value\n\n\n---\n\nother: 1\n   \n",
        "\r\n\r\n",
        "a\n\nb\n\n\nc",
    ];
    for page in pages {
        assert_eq!(front_matter(page), reference_front_matter(page), "{:?}", page);
    }
}

#[test]
fn keeps_line_matches_trim() {
    for line in ["", " ", "---", " --- ", "-- -", "----", "x", "\t---\u{a0}", "\u{200b}"] {
        let v: Vec<char> = line.chars().collect();
        let expected = !line.trim().is_empty() && line.trim() != "---";
        assert_eq!(keeps_line(&v), expected, "{:?}", line);
    }
}

#[test]
fn get_screenshots_holds_the_icon_and_five_readable_screenshots() {
    let shots = vec![
        Some(vec![1u8]),
        None,
        Some(vec![2]),
        Some(vec![3]),
        Some(vec![4]),
        Some(vec![5]),
        Some(vec![6]),
    ];
    let m = get_screenshots(vec![0u8], Some(shots));
    let mut expected: HashMap<u8, Vec<u8>> = HashMap::new();
    expected.insert(0, vec![0]);
    for k in 1..=5u8 {
        expected.insert(k, vec![k]);
    }
    assert_eq!(m, expected);
}

#[test]
fn get_screenshots_without_screenshots_holds_the_icon_only() {
    let m = get_screenshots(vec![9u8, 9], None);
    assert_eq!(m.len(), 1);
    assert_eq!(m.get(&0), Some(&vec![9u8, 9]));
    let m = get_screenshots(vec![], Some(vec![None, None]));
    assert_eq!(m.len(), 1);
    let m = get_screenshots(vec![], Some(vec![None, Some(vec![7])]));
    assert_eq!(m.get(&1), Some(&vec![7u8]));
    assert_eq!(m.len(), 2);
}

#[test]
fn icon_path_takes_the_first_png() {
    let icons = Some(vec!["a/icon.svg".to_string(), "a/icon.png".to_string(), "b.png".to_string()]);
    assert_eq!(icon_path(&icons).as_deref(), Some("./appimage.github.io/database/a/icon.png"));
    assert_eq!(icon_path(&Some(vec!["x.PNG".to_string(), "png".to_string()])), None);
    assert_eq!(icon_path(&Some(vec![".png".to_string()])).as_deref(), Some("./appimage.github.io/database/.png"));
    assert_eq!(icon_path(&None), None);
}

#[test]
fn screenshot_paths_are_in_the_database() {
    let shots = Some(vec!["a/1.png".to_string(), "b.jpg".to_string()]);
    assert_eq!(
        screenshot_paths(&shots),
        Some(vec![
            "./appimage.github.io/database/a/1.png".to_string(),
            "./appimage.github.io/database/b.jpg".to_string()
        ])
    );
    assert_eq!(screenshot_paths(&None), None);
}

#[test]
fn hidden_entries_start_with_a_dot() {
    assert!(is_hidden(".git"));
    assert!(!is_hidden("App"));
    assert!(!is_hidden(""));
}

fn meta(description: Option<&str>, license: Option<&str>) -> App {
    App {
        published: Some(true),
        layout: None,
        created: None,
        updated: None,
        description: description.map(|s| s.to_string()),
        license: license.map(|s| s.to_string()),
        authors: None,
        icons: None,
        screenshots: None,
    }
}

#[test]
fn assemble_app_needs_description_and_license() {
    let url = || Url::X86_64("u".to_string());
    let a = assemble_app("App".to_string(), meta(Some("d"), Some("MIT")), HashMap::new(), url()).unwrap();
    assert_eq!(a.name, "App");
    assert_eq!(a.description, "d");
    assert_eq!(a.license, "MIT");
    assert!(a.authors.is_empty() && a.screenshots.is_empty());
    assert!(assemble_app("A".to_string(), meta(None, Some("MIT")), HashMap::new(), url()).is_none());
    assert!(assemble_app("A".to_string(), meta(Some("d"), None), HashMap::new(), url()).is_none());
}
