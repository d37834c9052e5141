use qfinder::search::sort_chars;
use qfinder::watcher::{file_name, get_smart_file_type, index_entry, is_ignored_path, wants_content};
use std::path::Path;

#[test]
fn file_kinds_by_extension() {
    assert_eq!(get_smart_file_type("/a/b/photo.JPG"), "image");
    assert_eq!(get_smart_file_type("/a/b/photo.webp"), "image");
    assert_eq!(get_smart_file_type("/x/movie.MOV"), "video");
    assert_eq!(get_smart_file_type("/x/doc.pdf"), "pdf");
    assert_eq!(get_smart_file_type("/x/notes.md"), "note");
    assert_eq!(get_smart_file_type("/x/todo.TXT"), "note");
    assert_eq!(get_smart_file_type("/x/archive.tar.gz"), "file");
    assert_eq!(get_smart_file_type("/x/README"), "file");
    assert_eq!(get_smart_file_type("/x/.bashrc"), "file");
    assert_eq!(get_smart_file_type("/x/.hidden.png"), "image");
    assert_eq!(get_smart_file_type("/x/name."), "file");
    assert_eq!(get_smart_file_type("/"), "file");
}

#[test]
fn file_names_like_std_paths() {
    for p in [
        "/a/b/c.txt", "/a/b/", "/", "", "a/..", "a/.", ".", "./", "..", "/a//b", "a/./b/.",
        "./c", "file.tar.gz", "/x/.bashrc", "relative/dir/f",
    ] {
        let expected = Path::new(p).file_name().map(|f| f.to_string_lossy().into_owned());
        assert_eq!(file_name(p), expected, "path {:?}", p);
    }
}

#[test]
fn file_kinds_like_std_extensions() {
    for p in ["/a/b.PNG", "/a/.png", "/a/b.", "/a/b.c.mkv", "/a.b/c", "/a/b.pdf/", "/a/b.md/.."] {
        let ext = Path::new(p).extension().and_then(|e| e.to_str()).unwrap_or("").to_lowercase();
        let expected = match ext.as_str() {
            "png" | "jpg" | "jpeg" | "gif" | "heic" | "webp" => "image",
            "mp4" | "mov" | "mkv" | "avi" => "video",
            "pdf" => "pdf",
            "md" | "txt" | "rtf" => "note",
            _ => "file",
        };
        assert_eq!(get_smart_file_type(p), expected, "path {:?}", p);
    }
}

#[test]
fn ignored_paths() {
    assert!(is_ignored_path("/x/.git/config"));
    assert!(is_ignored_path("/x/node_modules/a.js"));
    assert!(is_ignored_path("/x/.DS_Store"));
    assert!(!is_ignored_path("/x/a.txt"));
    assert!(!is_ignored_path("/x/.github"));
}

#[test]
fn content_is_read_for_markdown_only() {
    assert!(wants_content("/x/a.md"));
    assert!(!wants_content("/x/a.MD"));
    assert!(!wants_content("/x/a.mdx"));
    assert!(!wants_content("md"));
}

#[test]
fn index_entry_of_a_file() {
    let e = index_entry("/Users/me/Desktop/Report.PDF");
    assert_eq!(e.item_type, "pdf");
    assert_eq!(e.title, "Report.PDF");
    assert_eq!(e.fingerprint, sort_chars("Report.PDF"));
    let e = index_entry("/");
    assert_eq!(e.item_type, "file");
    assert_eq!(e.title, "");
    assert_eq!(e.fingerprint, "");
}
