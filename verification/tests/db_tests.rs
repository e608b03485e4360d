use ahqstore_appimage::db::{
    app_file, author_file, author_line, filed_id, map_entry, resource_dir, resource_file, search_entry,
    total_text, MapCounter,
};

#[test]
fn counter_separates_entries_within_a_file() {
    let mut c = MapCounter::new();
    let a = c.add();
    assert!(!a.new_file && !a.separator);
    let b = c.add();
    assert!(!b.new_file && b.separator);
    assert_eq!((c.entries, c.files), (2, 1));
}

#[test]
fn counter_opens_a_new_file_after_one_hundred_thousand_entries() {
    let mut c = MapCounter::new();
    for _ in 0..100_000 {
        c.add();
    }
    assert_eq!((c.entries, c.files), (100_000, 1));
    let s = c.add();
    assert!(s.new_file && !s.separator);
    assert_eq!((c.entries, c.files), (1, 2));
    let s = c.add();
    assert!(!s.new_file && s.separator);
}

#[test]
fn entries_are_written_as_the_store_reads_them() {
    assert_eq!(map_entry("My App", "MyApp"), "\"My App\":\"l:MyApp\"");
    let name = "Tab\there \"q\"";
    assert_eq!(
        search_entry(name, "T", "id"),
        format!("{{\"name\": {:?}, \"title\": {:?}, \"id\": {:?}}}", name, "T", format!("l:{}", "id"))
    );
}

#[test]
fn database_paths() {
    assert_eq!(author_file("abc"), "./db/dev/abc");
    assert_eq!(author_line("App"), "l:App\n");
    assert_eq!(app_file("App"), "./db/apps/App.json");
    assert_eq!(resource_dir("App"), "./db/res/App");
    assert_eq!(resource_file("App", 0), "./db/res/App/0");
    assert_eq!(resource_file("App", 255), "./db/res/App/255");
    assert_eq!(total_text(3), "3");
    assert_eq!(filed_id("App"), "f:App");
}
