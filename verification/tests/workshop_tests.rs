use emerald_legacy::workshop::{
    expand_destination, group_archives, record_files, remaining_files, tar_listing_files, unzip_listing_files,
};

fn pair(a: &str, b: &str) -> (String, String) {
    (a.to_string(), b.to_string())
}

fn strings(v: &[&str]) -> Vec<String> {
    v.iter().map(|s| s.to_string()).collect()
}

#[test]
fn archives_are_grouped_into_split_sets() {
    let entries = vec![
        pair("b.zip", "X"),
        pair("a.z01", ""),
        pair("a.zip", "D"),
        pair("c.txt", "E"),
        pair("a.z02", ""),
        pair("d.ZIP", "F"),
        pair("d.zip.001", "G"),
        pair("e.zip.001", "H"),
    ];
    let g = group_archives(&entries);
    let want: Vec<(Vec<String>, String)> = vec![
        (strings(&["a.zip", "a.z01", "a.z02"]), "D".to_string()),
        (strings(&["b.zip"]), "X".to_string()),
        (strings(&["d.ZIP", "d.zip.001"]), "F".to_string()),
        (strings(&["c.txt"]), "E".to_string()),
        (strings(&["e.zip.001"]), "H".to_string()),
    ];
    assert_eq!(g, want);
    assert!(group_archives(&[]).is_empty());
}

#[test]
fn tar_listing_keeps_files() {
    let listing = "  a/\nfoo.txt\n\n  dir/b.bin  \r\n";
    assert_eq!(tar_listing_files(listing), strings(&["foo.txt", "dir/b.bin"]));
}

#[test]
fn unzip_listing_keeps_named_files() {
    let listing = "Archive:  x.zip\n  Length      Date    Time    Name\n---------  ---------- -----   ----\n       12  2024-01-01 10:00   dir/my   file.txt\n        0  2024-01-01 10:00   dir/\n        5  2024-01-01 10:00   star*.txt\n      +7  2024-01-01 10:00   p.bin\n99999999999999999999  2024-01-01 10:00   big.bin\n---------                     -------\n       17                     3 files\n";
    assert_eq!(unzip_listing_files(listing), strings(&["dir/my file.txt", "p.bin", ""]));
}

#[test]
fn destination_placeholders_are_expanded() {
    assert_eq!(expand_destination("{MediaDir}/x/{MobDir}", "M", "D", "H", "B"), "M/x/B");
    assert_eq!(expand_destination("{DLCDir}{DLCDir}{GameHDD}", "M", "D", "H", "B"), "DDH");
    assert_eq!(expand_destination("{Media", "M", "D", "H", "B"), "{Media");
}

#[test]
fn installed_file_lists_are_kept() {
    let mut l = strings(&["a"]);
    record_files(&mut l, &strings(&["b", "a", "b", "c"]));
    assert_eq!(l, strings(&["a", "b", "c"]));
    assert_eq!(remaining_files(strings(&["a", "b", "c", "b"]), &strings(&["b"])), strings(&["a", "c"]));
}

#[test]
fn archive_groups_do_not_depend_on_listing_order() {
    let a = vec![pair("x.zip", "A"), pair("x.z01", ""), pair("y.bin", "B"), pair("w.zip", "C"), pair("w.zip.001", "")];
    let mut b = a.clone();
    b.reverse();
    b.swap(0, 2);
    assert_eq!(group_archives(&a), group_archives(&b));
}
