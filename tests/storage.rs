use picstore::local::{target_file_name, DirProbe, Local};
use picstore::models::{
    find_partition, get_thumbnail_name, Config, LocalConfig, Output, PartitionConfig, Scheme,
    SourceFormat, Target, TargetFile,
};
use picstore::naming::{file_extension, generate_url, parse_picture_name, str_eq, trim_base_url};
use picstore::paging::page_entries;
use picstore::picture::{find_variant, locate_picture, picture_mime, PictureError};

fn s(x: &str) -> String {
    x.to_string()
}

fn partition(name: &str, thumbnail: Option<&str>, schemes: &[&str]) -> PartitionConfig {
    PartitionConfig {
        name: s(name),
        thumbnail: thumbnail.map(s),
        schemes: schemes.iter().map(|x| s(x)).collect(),
    }
}

fn config() -> Config {
    Config {
        base_url: s("https://img.example.com/"),
        partitions: vec![
            partition("avatars", Some("s"), &["xs", "s"]),
            partition("posts", None, &["m", "origin"]),
            partition("raw", None, &[]),
        ],
    }
}

fn local() -> Local {
    Local::new(s("/data"), config(), vec![3, 0, 5])
}

fn output(part: &str, hash: &str) -> Output {
    Output {
        partition: s(part),
        hash: s(hash),
        original_format: SourceFormat { ext: s("png"), mime_type: s("image/png") },
        targets: vec![
            Target { name: s("origin"), file: TargetFile::Original(vec![1, 2, 3]) },
            Target { name: s("xs"), file: TargetFile::Processed(vec![4]) },
            Target { name: s("s"), file: TargetFile::Processed(vec![5, 6]) },
        ],
    }
}

fn url(p: &str, name: &str, id: &str) -> String {
    format!("https://img.example.com/api/pictures/{}/{}/{}", p, name, id)
}

fn sorted(sc: &Scheme) -> Vec<(String, String)> {
    let mut v = sc.pictures.clone();
    v.sort();
    v
}

#[test]
fn generate_url_composes_all_parts() {
    assert_eq!(
        generate_url("http://a.com", "avatars", "xs", "abc"),
        "http://a.com/api/pictures/avatars/xs/abc"
    );
}

#[test]
fn trim_base_url_drops_one_trailing_slash() {
    assert_eq!(trim_base_url("http://a.com/"), "http://a.com");
    assert_eq!(trim_base_url("http://a.com//"), "http://a.com/");
    assert_eq!(trim_base_url("http://a.com"), "http://a.com");
    assert_eq!(trim_base_url(""), "");
}

#[test]
fn parse_picture_name_splits_at_first_dot() {
    assert_eq!(parse_picture_name("xs.png"), Some(("xs", "png")));
    assert_eq!(parse_picture_name("a.b.c"), Some(("a", "b.c")));
    assert_eq!(parse_picture_name(".png"), Some(("", "png")));
    assert_eq!(parse_picture_name("noext"), None);
    assert_eq!(parse_picture_name(""), None);
}

#[test]
fn file_extension_reads_after_last_dot() {
    assert_eq!(file_extension("xs.tar.gz"), Some("gz"));
    assert_eq!(file_extension("xs.png"), Some("png"));
    assert_eq!(file_extension(".png"), None);
    assert_eq!(file_extension("xs"), None);
    assert_eq!(file_extension("xs."), Some(""));
}

#[test]
fn str_eq_compares_characters() {
    assert!(str_eq("abc", "abc"));
    assert!(!str_eq("abc", "abd"));
    assert!(!str_eq("abc", "ab"));
}

#[test]
fn thumbnail_name_rules() {
    let c = config();
    assert_eq!(get_thumbnail_name(&c, "avatars"), "s");
    assert_eq!(get_thumbnail_name(&c, "posts"), "m");
    assert_eq!(get_thumbnail_name(&c, "raw"), "origin");
    assert_eq!(get_thumbnail_name(&c, "unknown"), "");
    assert_eq!(find_partition(&c, "posts"), Some(1));
    assert_eq!(find_partition(&c, "nope"), None);
}

#[test]
fn target_file_names() {
    let t = Target { name: s("origin"), file: TargetFile::Original(vec![]) };
    assert_eq!(target_file_name(&t, "jpg"), "origin.jpg");
    let t = Target { name: s("xs"), file: TargetFile::Processed(vec![]) };
    assert_eq!(target_file_name(&t, "jpg"), "xs.webp");
}

#[test]
fn try_from_str_checks_probe() {
    let e = Local::try_from_str(s("/nope"), config(), DirProbe::Missing, vec![]).err().unwrap();
    assert_eq!(e, "The path of local 'dir' [\"/nope\"] does not exist.");
    let e = Local::try_from_str(s("/f"), config(), DirProbe::NotDirectory, vec![]).err().unwrap();
    assert_eq!(e, "The path of local 'dir' [\"/f\"] must be a directory.");
    let e = Local::try_from_str(s("a\\b"), config(), DirProbe::Missing, vec![]).err().unwrap();
    assert_eq!(e, "The path of local 'dir' [\"a\\\\b\"] does not exist.");
    let e = Local::try_from_str(s("q\"x"), config(), DirProbe::NotDirectory, vec![]).err().unwrap();
    assert_eq!(e, "The path of local 'dir' [\"q\\\"x\"] must be a directory.");
    let l = Local::try_from_str(s("/d"), config(), DirProbe::Directory, vec![1, 2, 3]).ok().unwrap();
    assert_eq!(l.root_dir(), "/d");
    assert_eq!(l.count("posts"), Some(2));
    assert_eq!(l.count("other"), None);
}

#[test]
fn try_from_self_uses_dir() {
    let lc = LocalConfig { dir: s("/x") };
    let e = Local::try_from_self(&lc, config(), DirProbe::Missing, vec![]).err().unwrap();
    assert_eq!(e, "The path of local 'dir' [\"/x\"] does not exist.");
    let l = Local::try_from_self(&lc, config(), DirProbe::Directory, vec![0, 0, 0]).ok().unwrap();
    assert_eq!(l.root_dir(), "/x");
    assert_eq!(l.config().partitions.len(), 3);
}

#[test]
fn record_store_builds_scheme_and_counts() {
    let mut l = local();
    let sc = l.record_store(&output("avatars", "h1")).ok().unwrap();
    assert_eq!(sc.id, "h1");
    assert_eq!(sc.thumbnail, "s");
    let mut expected = vec![
        (s("origin"), url("avatars", "origin", "h1")),
        (s("xs"), url("avatars", "xs", "h1")),
        (s("s"), url("avatars", "s", "h1")),
    ];
    expected.sort();
    assert_eq!(sorted(&sc), expected);
    assert_eq!(l.count("avatars"), Some(4));
    assert_eq!(l.count("posts"), Some(0));
}

#[test]
fn record_store_unknown_partition_fails() {
    let mut l = local();
    let e = l.record_store(&output("nope", "h1")).err().unwrap();
    assert_eq!(e, "Not found");
    assert_eq!(l.count("avatars"), Some(3));
}

#[test]
fn record_store_duplicate_target_names_keep_one_entry() {
    let mut l = local();
    let mut o = output("posts", "h2");
    o.targets.push(Target { name: s("xs"), file: TargetFile::Original(vec![]) });
    let sc = l.record_store(&o).ok().unwrap();
    assert_eq!(sc.pictures.len(), 3);
    assert_eq!(sc.thumbnail, "m");
}

#[test]
fn store_twice_counts_twice() {
    let mut l = local();
    let o = output("posts", "same");
    let a = l.record_store(&o).ok().unwrap();
    let b = l.record_store(&o).ok().unwrap();
    assert_eq!(sorted(&a), sorted(&b));
    assert_eq!(l.count("posts"), Some(2));
    let files: Vec<String> = o.targets.iter().map(|t| target_file_name(t, "png")).collect();
    let mut twice = files.clone();
    twice.extend(files.clone());
    twice.sort();
    twice.dedup();
    assert_eq!(twice.len(), 3);
}

#[test]
fn store_then_listing_round_trip() {
    let mut l = local();
    let o = output("avatars", "h3");
    let stored = l.record_store(&o).ok().unwrap();
    let mut files: Vec<String> = o.targets.iter().map(|t| target_file_name(t, "png")).collect();
    files.reverse();
    let found = l.scheme_from_listing("avatars", "h3", Some(&files)).unwrap();
    assert_eq!(found.pictures.len(), 3);
    assert_eq!(sorted(&found), sorted(&stored));
    assert_eq!(found.id, "h3");
    assert_eq!(found.thumbnail, "s");
}

#[test]
fn scheme_from_listing_edge_cases() {
    let l = local();
    assert!(l.scheme_from_listing("avatars", "h", None).is_none());
    let bad = vec![s("xs.webp"), s("README")];
    assert!(l.scheme_from_listing("avatars", "h", Some(&bad)).is_none());
    let empty: Vec<String> = vec![];
    let sc = l.scheme_from_listing("avatars", "h", Some(&empty)).unwrap();
    assert!(sc.pictures.is_empty());
    let two = vec![s("xs.webp"), s("xs.png")];
    let sc = l.scheme_from_listing("posts", "h", Some(&two)).unwrap();
    assert_eq!(sc.pictures, vec![(s("xs"), url("posts", "xs", "h"))]);
}

#[test]
fn scheme_for_entry_reports_bad_name() {
    let l = local();
    let bad = vec![s("xs.webp"), s("broken"), s("other")];
    let e = l.scheme_for_entry("posts", "h", &bad).err().unwrap();
    assert_eq!(e, "File name error: broken");
    let good = vec![s("m.webp")];
    let sc = l.scheme_for_entry("posts", "h", &good).ok().unwrap();
    assert_eq!(sc.pictures, vec![(s("m"), url("posts", "m", "h"))]);
}

#[test]
fn record_delete_counts_down() {
    let mut l = local();
    assert!(l.record_delete("avatars").is_ok());
    assert_eq!(l.count("avatars"), Some(2));
    assert!(l.record_delete("posts").is_ok());
    assert_eq!(l.count("posts"), Some(0));
    assert_eq!(l.record_delete("nope").err().unwrap(), "Not found");
}

#[test]
fn deleted_image_is_not_found() {
    let l = local();
    assert!(l.scheme_from_listing("avatars", "gone", None).is_none());
    assert_eq!(locate_picture(None, "xs"), Err(PictureError::NotFound));
}

#[test]
fn find_variant_needs_dot_after_name() {
    let files = vec![s("xss.png"), s("x.png"), s("xs.webp")];
    assert_eq!(find_variant(&files, "xs"), Some(2));
    assert_eq!(find_variant(&files, "x"), Some(1));
    assert_eq!(find_variant(&files, "m"), None);
}

#[test]
fn mime_from_extension() {
    assert_eq!(picture_mime("origin.png"), Ok(s("image/png")));
    assert_eq!(picture_mime("origin.PNG"), Ok(s("image/png")));
    assert_eq!(picture_mime("origin.jpg"), Ok(s("image/jpeg")));
    assert_eq!(picture_mime("origin.JPEG"), Ok(s("image/jpeg")));
    assert_eq!(picture_mime("a.b.tiff"), Ok(s("image/tiff")));
    assert_eq!(picture_mime("raw.ff"), Ok(s("application/octet-stream")));
    assert_eq!(picture_mime("map.pgm"), Ok(s("image/x-portable-anymap")));
    assert_eq!(picture_mime("icon.ico"), Ok(s("image/x-icon")));
    let t = Target { name: s("xs"), file: TargetFile::Processed(vec![]) };
    assert_eq!(picture_mime(&target_file_name(&t, "png")), Ok(s("image/webp")));
    let files = vec![s("origin.png"), s("xs.webp")];
    assert_eq!(locate_picture(Some(&files), "origin"), Ok((0, s("image/png"))));
    assert_eq!(locate_picture(Some(&files), "xs"), Ok((1, s("image/webp"))));
}

#[test]
fn unknown_format_is_rejected() {
    assert_eq!(picture_mime("xs.foo"), Err(PictureError::UnknownFormat));
    assert_eq!(picture_mime("xs"), Err(PictureError::UnknownFormat));
    assert_eq!(picture_mime("xs.xyz"), Err(PictureError::UnknownFormat));
    assert_eq!(picture_mime(".png"), Err(PictureError::UnknownFormat));
    let files = vec![s("xs.foo")];
    assert_eq!(locate_picture(Some(&files), "xs"), Err(PictureError::UnknownFormat));
    assert_eq!(locate_picture(Some(&files), "m"), Err(PictureError::NotFound));
}

#[test]
fn pages_cover_listing() {
    let entries: Vec<String> = (0..7).map(|i| format!("id{}", i)).collect();
    let mut all = vec![];
    for current in 1..=3 {
        let page = page_entries(&entries, current, 3);
        assert!(page.len() <= 3);
        all.extend(page);
    }
    assert_eq!(all, entries);
    assert_eq!(page_entries(&entries, 3, 3), vec![s("id6")]);
}

#[test]
fn page_past_end_is_empty() {
    let entries: Vec<String> = (0..4).map(|i| format!("id{}", i)).collect();
    assert!(page_entries(&entries, 3, 2).is_empty());
    assert!(page_entries(&entries, 100, 2).is_empty());
    assert!(page_entries(&entries, usize::MAX, usize::MAX).is_empty());
    let l = local();
    let p = l.page_list(3, 2, "raw", vec![]);
    assert!(p.list.is_empty());
    assert_eq!(p.pagination.total, 5);
    assert_eq!(p.pagination.current, 3);
    assert_eq!(p.pagination.page_size, 2);
}
