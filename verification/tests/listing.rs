use fubako::listing::{add_entry, build_listing, listing_full, new_listing, LIST_MAX_DEPTH, LIST_MAX_ENTRIES};
use fubako::model::{FolderEntry, FolderListing};

fn entry(rel: &str, is_dir: bool) -> FolderEntry {
    FolderEntry { rel: rel.to_string(), is_dir, size: 0, modified: None, icon: None }
}

#[test]
fn listing_keeps_a_folder_next_to_its_contents() {
    let collected = FolderListing {
        entries: vec![
            entry("資料2", true),
            entry(r"資料2\控え.txt", false),
            entry("メモ.md", false),
            entry("資料", true),
            entry(r"資料\仕様書.xlsx", false),
        ],
        deeper_omitted: false,
        count_capped: false,
    };
    let rels: Vec<String> = build_listing(collected).entries.into_iter().map(|e| e.rel).collect();
    // `資料2` does not slip in before `資料\仕様書.xlsx`
    assert_eq!(rels, vec!["メモ.md", "資料", r"資料\仕様書.xlsx", "資料2", r"資料2\控え.txt"]);
}

#[test]
fn listing_stops_at_the_depth_limit_and_says_so() {
    assert_eq!(LIST_MAX_DEPTH, 3);
    let mut listing = new_listing();
    let a = add_entry(&mut listing, "", "a", true, 0, None, None, 0).unwrap();
    let b = add_entry(&mut listing, &a, "b", true, 0, None, None, 1).unwrap();
    // the third level is listed, its contents are not
    assert_eq!(add_entry(&mut listing, &b, "c", true, 0, None, None, 2), None);
    let rels: Vec<&str> = listing.entries.iter().map(|e| e.rel.as_str()).collect();
    assert_eq!(rels, vec!["a", r"a\b", r"a\b\c"]);
    assert!(listing.deeper_omitted);
    assert!(!listing.count_capped);
}

#[test]
fn listing_stops_at_the_count_limit_and_says_so() {
    let mut listing = new_listing();
    let mut added = 0;
    for i in 0..(LIST_MAX_ENTRIES + 20) {
        if listing_full(&mut listing) {
            break;
        }
        add_entry(&mut listing, "", &format!("{i:04}.txt"), false, 1, None, None, 0);
        added += 1;
    }
    assert_eq!(added, LIST_MAX_ENTRIES);
    assert_eq!(listing.entries.len(), LIST_MAX_ENTRIES);
    assert!(listing.count_capped);
}

#[test]
fn a_folder_has_no_size_and_a_file_keeps_its_own() {
    let mut listing = new_listing();
    add_entry(&mut listing, "", "d", true, 4096, None, None, 0);
    add_entry(&mut listing, "d", "f.txt", false, 12, Some("t".to_string()), Some("i".to_string()), 1);
    assert_eq!(listing.entries[0].size, 0);
    assert_eq!(listing.entries[1].size, 12);
    assert_eq!(listing.entries[1].rel, r"d\f.txt");
    assert_eq!(listing.entries[1].modified.as_deref(), Some("t"));
    assert_eq!(listing.entries[1].icon.as_deref(), Some("i"));
}
