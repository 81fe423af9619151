use quiche::disk::{
    copy_dir, delete_dir_contents, dir_contains_all_files, get_filename, get_total_files,
    move_dir, to_slash,
};
use quiche::updater::validate_files;

fn strings(v: Vec<&str>) -> Vec<String> {
    v.into_iter().map(|s| s.to_string()).collect()
}

#[test]
fn filename_is_the_last_component() {
    assert_eq!(get_filename(&"dir\\sub\\c.txt".to_string()), "c.txt");
    assert_eq!(get_filename(&"dir/sub/c.txt".to_string()), "c.txt");
    assert_eq!(get_filename(&"c.txt".to_string()), "c.txt");
    assert_eq!(get_filename(&"".to_string()), "");
}

#[test]
fn filename_skips_trailing_separators() {
    // a trailing separator does not hide the last component
    assert_eq!(get_filename(&"dir\\".to_string()), "dir");
    assert_eq!(get_filename(&"a/b/".to_string()), "b");
    assert_eq!(get_filename(&"a\\b\\\\".to_string()), "b");
    // a path with no component at all falls back to the whole path
    assert_eq!(get_filename(&"\\".to_string()), "\\");
    assert_eq!(get_filename(&"//".to_string()), "//");
}

#[test]
fn filename_skips_current_directory_components() {
    // a trailing `.` component names no file of its own
    assert_eq!(get_filename(&"a/.".to_string()), "a");
    assert_eq!(get_filename(&"foo.txt/.".to_string()), "foo.txt");
    assert_eq!(get_filename(&"foo.txt/.//".to_string()), "foo.txt");
    assert_eq!(get_filename(&"a\\.".to_string()), "a");
    // dots inside a component are part of its name
    assert_eq!(get_filename(&"b..".to_string()), "b..");
    assert_eq!(get_filename(&"a/...".to_string()), "...");
    assert_eq!(get_filename(&"a/b.txt".to_string()), "b.txt");
}

#[test]
fn filename_falls_back_on_parent_steps() {
    // a path ending in a parent-directory step names no file
    assert_eq!(get_filename(&"a/..".to_string()), "a/..");
    assert_eq!(get_filename(&"a/../".to_string()), "a/../");
    assert_eq!(get_filename(&"..".to_string()), "..");
    assert_eq!(get_filename(&".".to_string()), ".");
    assert_eq!(get_filename(&"./".to_string()), "./");
    // a parent step earlier in the path does not
    assert_eq!(get_filename(&"a/../b".to_string()), "b");
}

#[test]
fn to_slash_normalises_separators() {
    assert_eq!(to_slash(&"a/b/c".to_string()), "a\\b\\c");
    assert_eq!(to_slash(&"a//b\\\\c".to_string()), "a\\b\\c");
    assert_eq!(to_slash(&"a\\b".to_string()), "a\\b");
    assert_eq!(to_slash(&"".to_string()), "");
}

#[test]
fn contains_all_is_the_completeness_check() {
    let dir = strings(vec!["A", "B", "C"]);
    assert!(dir_contains_all_files(&dir, &strings(vec!["A", "C"])));
    assert!(dir_contains_all_files(&dir, &strings(vec![])));
    assert!(!dir_contains_all_files(&dir, &strings(vec!["A", "D"])));
    assert!(validate_files(&dir, &strings(vec!["B"])));
}

#[test]
fn contains_all_survives_extra_files_and_notices_removals() {
    // extra unrelated files keep the check true; removing a required file
    // turns it false
    let required = strings(vec!["A", "B"]);
    let mut dir = strings(vec!["A", "B"]);
    assert!(dir_contains_all_files(&dir, &required));
    dir.push("extra.txt".to_string());
    assert!(dir_contains_all_files(&dir, &required));
    let without_b = strings(vec!["A", "extra.txt"]);
    assert!(!dir_contains_all_files(&without_b, &required));
}

#[test]
fn total_files_counts_the_listing() {
    assert_eq!(get_total_files(&strings(vec!["A", "B", "C"])), 3);
    assert_eq!(get_total_files(&strings(vec![])), 0);
}

#[test]
fn exclusion_survives_deletion() {
    // the excluded file alone survives a clearing
    let kept = delete_dir_contents(&strings(vec!["keep.txt", "drop.txt"]), &strings(vec![
        "keep.txt",
    ]));
    assert_eq!(kept, vec!["keep.txt"]);
}

#[test]
fn deletion_excludes_by_file_name_not_path() {
    let kept = delete_dir_contents(
        &strings(vec!["sub\\keep.txt", "sub\\drop.txt", "keep.txt"]),
        &strings(vec!["keep.txt"]),
    );
    assert_eq!(kept, vec!["sub\\keep.txt", "keep.txt"]);
}

#[test]
fn copy_clears_the_target_first() {
    // stale files of a previous attempt cannot linger in the target
    let new_to = copy_dir(
        &strings(vec!["A", "C"]),
        &strings(vec!["stale.bin", "boot.exe"]),
        &strings(vec!["boot.exe"]),
    );
    assert_eq!(new_to, vec!["boot.exe", "A", "C"]);
}

#[test]
fn successful_patch_replaces_the_file_set() {
    // install holds A and B; the package holds A and C; after the patch the
    // install path holds exactly A and C plus the always-excluded files
    let exclude = strings(vec!["boot.exe", "boot.log", "boot.exe_old", "boot.exe_new"]);
    let install = strings(vec!["A", "B", "boot.exe"]);
    let staging = strings(vec!["A", "C"]);
    let cleared = delete_dir_contents(&install, &exclude);
    assert_eq!(cleared, vec!["boot.exe"]);
    let (staging_after, install_after) = move_dir(&staging, &cleared, &exclude);
    assert_eq!(install_after, vec!["boot.exe", "A", "C"]);
    assert!(staging_after.is_empty());
}

#[test]
fn move_leaves_excluded_files_behind() {
    let (from_after, to_after) = move_dir(
        &strings(vec!["A", "boot.exe"]),
        &strings(vec![]),
        &strings(vec!["boot.exe"]),
    );
    assert_eq!(from_after, vec!["boot.exe"]);
    assert_eq!(to_after, vec!["A"]);
}
