use lspc::rootpath::{find_root_path, Fs};
use lspc::types::FsPath;

fn p(parts: &[&str]) -> FsPath {
    FsPath { components: parts.iter().map(|s| s.to_string()).collect() }
}

fn markers(names: &[&str]) -> Vec<String> {
    names.iter().map(|s| s.to_string()).collect()
}

fn fs_of(entries: &[&[&str]], files: &[&[&str]]) -> Fs {
    Fs {
        entries: entries.iter().map(|e| p(e)).collect(),
        files: files.iter().map(|e| p(e)).collect(),
    }
}

#[test]
fn root_is_nearest_marked_ancestor() {
    // path /a/b/c/file.txt, marker "manifest" present at /a/b -> root /a/b
    let fs = fs_of(
        &[
            &["a"],
            &["a", "b"],
            &["a", "b", "manifest"],
            &["a", "b", "c"],
            &["a", "b", "c", "file.txt"],
        ],
        &[&["a", "b", "c", "file.txt"]],
    );
    let r = find_root_path(&p(&["a", "b", "c", "file.txt"]), &markers(&["manifest"]), &fs);
    assert_eq!(r, Some(p(&["a", "b"])));
}

#[test]
fn nearer_marker_wins_over_outer() {
    let fs = fs_of(
        &[&["a", "m"], &["a", "b", "m"], &["a", "b", "c"]],
        &[],
    );
    let r = find_root_path(&p(&["a", "b", "c"]), &markers(&["m"]), &fs);
    assert_eq!(r, Some(p(&["a", "b"])));
}

#[test]
fn marker_in_start_directory_itself() {
    let fs = fs_of(&[&["a", "b", "m"]], &[]);
    let r = find_root_path(&p(&["a", "b"]), &markers(&["m"]), &fs);
    assert_eq!(r, Some(p(&["a", "b"])));
}

#[test]
fn no_marker_anywhere_fails() {
    let fs = fs_of(&[&["a"], &["a", "b"]], &[&["a", "b"]]);
    let r = find_root_path(&p(&["a", "b"]), &markers(&["m"]), &fs);
    assert_eq!(r, None);
}

#[test]
fn any_of_several_markers_matches() {
    let fs = fs_of(&[&["a", "other"], &["a", "b"]], &[]);
    let r = find_root_path(&p(&["a", "b"]), &markers(&["m1", "other"]), &fs);
    assert_eq!(r, Some(p(&["a"])));
}

#[test]
fn marker_at_fs_root() {
    let fs = fs_of(&[&["m"], &["a"]], &[]);
    let r = find_root_path(&p(&["a"]), &markers(&["m"]), &fs);
    assert_eq!(r, Some(p(&[])));
}

#[test]
fn file_start_skips_its_own_directory_entry() {
    // the marker list matches the file's own name, but the walk starts
    // from the containing directory, where it still finds it as an entry
    let fs = fs_of(&[&["a", "x"], &["a"]], &[&["a", "x"]]);
    let r = find_root_path(&p(&["a", "x"]), &markers(&["x"]), &fs);
    assert_eq!(r, Some(p(&["a"])));
}
