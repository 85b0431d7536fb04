use fubako::icons::{
    bgra_to_rgba, cache_key, data_uri, encode, icon_from_pixels, icon_query, png_data_uri, record_icon,
    IconCache, IconPlan,
};

#[test]
fn same_extension_shares_one_icon() {
    let a = cache_key(r"C:\work\a\メモ.md", false, "md");
    let b = cache_key(r"C:\work\b\別のメモ.md", false, "md");
    assert_eq!(a, b);
    assert_ne!(a, cache_key(r"C:\work\a\表.xlsx", false, "xlsx"));
}

#[test]
fn icons_bound_to_the_file_itself_are_not_shared() {
    // programs and shortcuts each carry their own icon
    let a = cache_key(r"C:\work\tool.exe", false, "exe");
    let b = cache_key(r"C:\work\other.exe", false, "exe");
    assert_ne!(a, b);
    // paths that differ only in case are the same file
    assert_eq!(a, cache_key(r"C:\WORK\Tool.exe", false, "exe"));
}

#[test]
fn folders_and_extensionless_files_have_their_own_keys() {
    let dir = cache_key(r"C:\work\資料", true, "");
    let file = cache_key(r"C:\work\LICENSE", false, "");
    assert_ne!(dir, file);
    // every folder shares one icon, whatever its name
    assert_eq!(dir, cache_key(r"C:\work\別のフォルダ", true, ""));
}

#[test]
fn the_shell_is_asked_about_a_stand_in_name_unless_the_icon_is_the_files_own() {
    let q = icon_query(r"C:\work\a.md", false, "md");
    assert_eq!(q.text, "x.md");
    assert!(!q.directory);
    assert!(q.by_attributes);
    let q = icon_query(r"C:\work\tool.exe", false, "exe");
    assert_eq!(q.text, r"C:\work\tool.exe");
    assert!(!q.by_attributes);
    let q = icon_query(r"C:\work\資料", true, "");
    assert_eq!(q.text, "x");
    assert!(q.directory);
    assert!(q.by_attributes);
    let q = icon_query(r"C:\work\LICENSE", false, "");
    assert_eq!(q.text, "x");
}

#[test]
fn an_icon_is_asked_for_once_per_kind() {
    let mut cache = IconCache::new();
    let key = match data_uri(&cache, r"C:\work\a\Memo.MD", false) {
        IconPlan::Extract { key, query } => {
            assert_eq!(query.text, "x.md");
            key
        }
        IconPlan::Cached(_) => panic!("nothing is cached yet"),
    };
    assert_eq!(key, "md");
    let shown = record_icon(&mut cache, key, Some("data:image/png;base64,AAAA".to_string()));
    assert_eq!(shown.as_deref(), Some("data:image/png;base64,AAAA"));
    match data_uri(&cache, r"C:\work\b\other.md", false) {
        IconPlan::Cached(hit) => assert_eq!(hit.as_deref(), Some("data:image/png;base64,AAAA")),
        IconPlan::Extract { .. } => panic!("the kind was cached"),
    }
    // a kind for which no icon could be had is not asked for again
    record_icon(&mut cache, "xlsx".to_string(), None);
    assert!(matches!(data_uri(&cache, r"C:\w\t.xlsx", false), IconPlan::Cached(None)));
    assert_eq!(cache.get("md").unwrap().as_deref(), Some("data:image/png;base64,AAAA"));
    assert_eq!(cache.get("txt"), None);
}

#[test]
fn storing_a_key_again_replaces_only_that_key() {
    let mut cache = IconCache::new();
    cache.insert("a".to_string(), Some("1".to_string()));
    cache.insert("b".to_string(), Some("2".to_string()));
    cache.insert("a".to_string(), None);
    assert_eq!(cache.get("a"), Some(None));
    assert_eq!(cache.get("b"), Some(Some("2".to_string())));
}

#[test]
fn bgra_becomes_rgba_and_opaque_when_there_is_no_alpha() {
    // two pixels without any alpha: the bitmap is of the old kind, shown opaque
    let out = bgra_to_rgba(vec![1, 2, 3, 0, 4, 5, 6, 0]);
    assert_eq!(out, vec![3, 2, 1, 255, 6, 5, 4, 255]);
    // with alpha, it is kept
    let out = bgra_to_rgba(vec![1, 2, 3, 0, 4, 5, 6, 128]);
    assert_eq!(out, vec![3, 2, 1, 0, 6, 5, 4, 128]);
    assert_eq!(bgra_to_rgba(vec![]), Vec::<u8>::new());
}

#[test]
fn encode_makes_a_png_data_uri() {
    let uri = encode(1, 1, &[255, 0, 0, 255]).unwrap();
    // the PNG signature, in base64
    assert!(uri.starts_with("data:image/png;base64,iVBORw0KGgo"), "{uri}");
    // the png crate refuses an empty image and pixel data of the wrong length
    assert_eq!(encode(0, 1, &[]), None);
    assert_eq!(encode(2, 1, &[0, 0, 0, 0]), None);
}

#[test]
fn icon_from_pixels_swaps_the_channels_before_encoding() {
    let a = icon_from_pixels(1, 1, vec![0, 0, 255, 255]).unwrap();
    let b = encode(1, 1, &[255, 0, 0, 255]).unwrap();
    assert_eq!(a, b);
}

#[test]
fn png_bytes_are_carried_as_standard_base64() {
    assert_eq!(png_data_uri(&vec![]), "data:image/png;base64,");
    assert_eq!(png_data_uri(&b"M".to_vec()), "data:image/png;base64,TQ==");
    assert_eq!(png_data_uri(&b"Ma".to_vec()), "data:image/png;base64,TWE=");
    assert_eq!(png_data_uri(&b"Man".to_vec()), "data:image/png;base64,TWFu");
    assert_eq!(png_data_uri(&vec![0xfb, 0xff, 0xbf]), "data:image/png;base64,+/+/");
}

#[test]
fn the_key_of_a_file_is_its_extension_lower_cased() {
    let cache = IconCache::new();
    for (path, key) in [
        (r"C:\work\資料\仕様書.XLSX", "xlsx"),
        (r"\\?\C:\work\task\memo.Md", "md"),
        ("/home/u/work/a.b.txt", "txt"),
    ] {
        match data_uri(&cache, path, false) {
            IconPlan::Extract { key: k, .. } => assert_eq!(k, key),
            IconPlan::Cached(_) => panic!("nothing is cached yet"),
        }
    }
}

#[test]
fn files_without_extension_share_one_icon() {
    let mut cache = IconCache::new();
    let key = match data_uri(&cache, r"C:\work\LICENSE", false) {
        IconPlan::Extract { key, query } => {
            assert_eq!(query.text, "x");
            key
        }
        IconPlan::Cached(_) => panic!("nothing is cached yet"),
    };
    assert_eq!(key, "\u{0}file");
    record_icon(&mut cache, key, Some("data:image/png;base64,AAAA".to_string()));
    match data_uri(&cache, r"C:\other\README", false) {
        IconPlan::Cached(hit) => assert_eq!(hit.as_deref(), Some("data:image/png;base64,AAAA")),
        IconPlan::Extract { .. } => panic!("the kind was cached"),
    }
}
