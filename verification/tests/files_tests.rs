use ferrite::files::{accept_drop, file_name, path_has_allowed_ext};

fn path(s: &str) -> Vec<u8> {
    s.as_bytes().to_vec()
}

#[test]
fn drop_list_considers_only_the_first_entry() {
    // The first entry is rejected, so the whole drop is ignored: the png in
    // second position must not be loaded.
    let files = vec![path("a.txt"), path("b.png")];
    assert_eq!(accept_drop(&files), None);
}

#[test]
fn drop_of_first_allowed_entry_is_accepted() {
    let files = vec![path("b.png"), path("a.txt")];
    assert_eq!(accept_drop(&files), Some(path("b.png")));
}

#[test]
fn empty_drop_is_ignored() {
    let files: Vec<Vec<u8>> = vec![];
    assert_eq!(accept_drop(&files), None);
}

#[test]
fn extension_comparison_ignores_case() {
    assert!(path_has_allowed_ext(&path("photo.JPG")));
    assert!(path_has_allowed_ext(&path("photo.PnG")));
    assert!(path_has_allowed_ext(&path("photo.Jpeg")));
}

#[test]
fn all_listed_extensions_are_accepted() {
    assert!(path_has_allowed_ext(&path("x.jpg")));
    assert!(path_has_allowed_ext(&path("x.jpeg")));
    assert!(path_has_allowed_ext(&path("x.png")));
    assert!(path_has_allowed_ext(&path("x.gif")));
    assert!(path_has_allowed_ext(&path("x.bmp")));
}

#[test]
fn other_extensions_are_rejected() {
    assert!(!path_has_allowed_ext(&path("x.txt")));
    assert!(!path_has_allowed_ext(&path("x.webp")));
    assert!(!path_has_allowed_ext(&path("archive.tar.gz")));
    assert!(!path_has_allowed_ext(&path("x.jpg.partial")));
}

#[test]
fn paths_without_extension_are_rejected() {
    assert!(!path_has_allowed_ext(&path("noext")));
    assert!(!path_has_allowed_ext(&path(".gitignore")));
    assert!(!path_has_allowed_ext(&path("dir.png/file")));
    assert!(!path_has_allowed_ext(&path("")));
}

#[test]
fn extension_is_taken_from_the_file_name_only() {
    assert!(path_has_allowed_ext(&path("/home/user/pics.old/cat.gif")));
    assert!(!path_has_allowed_ext(&path("/home/user/pics.gif/cat")));
}

#[test]
fn file_name_strips_directories() {
    assert_eq!(file_name(&path("/a/b/c.png")), path("c.png"));
    assert_eq!(file_name(&path("plain.jpg")), path("plain.jpg"));
    assert_eq!(file_name(&path("/trailing/dir/")), path(""));
}
