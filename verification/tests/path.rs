use static_server::mime::guess_mime_type;
use static_server::path::{get_extension_lowercase, join_slash, key_extension, trim_slashes};
use std::path::Path;

#[test]
fn test_join_slash() {
    assert_eq!(join_slash(&["find-exists-key", "path"]), "find-exists-key/path");

    assert_eq!(join_slash(&["find-exists-key/", "/path"]), "find-exists-key/path");

    assert_eq!(join_slash(&["find-exists-key", "", "path"]), "find-exists-key/path");

    assert_eq!(join_slash(&["find-exists-key//", "//path"]), "find-exists-key/path");

    assert_eq!(join_slash(&["find-exists-key"]), "find-exists-key");

    assert_eq!(join_slash(&[]), "");

    assert_eq!(join_slash(&["", "", ""]), "");

    assert_eq!(join_slash(&["/", "/"]), "");

    assert_eq!(join_slash(&["/find-exists-key/", "", "/path/"]), "find-exists-key/path");
}

#[test]
fn join_slash_keeps_inner_separators() {
    assert_eq!(join_slash(&["a/b", "c"]), "a/b/c");
    assert_eq!(join_slash(&["/a//b/", "/c/"]), "a//b/c");
    assert_eq!(join_slash(&["", "x", "", "y", ""]), "x/y");
}

#[test]
fn trim_slashes_removes_surrounding_separators_only() {
    assert_eq!(trim_slashes(""), "");
    assert_eq!(trim_slashes("/"), "");
    assert_eq!(trim_slashes("///"), "");
    assert_eq!(trim_slashes("/site/about/"), "site/about");
    assert_eq!(trim_slashes("site//about"), "site//about");
    assert_eq!(trim_slashes("//a"), "a");
    assert_eq!(trim_slashes("a//"), "a");
    assert_eq!(trim_slashes("/\u{e9}t\u{e9}/"), "\u{e9}t\u{e9}");
}

#[test]
fn extension_lowercase_of_documented_examples() {
    assert_eq!(get_extension_lowercase("file.TXT"), "txt");
    assert_eq!(get_extension_lowercase("path/to/image.PNG"), "png");
    assert_eq!(get_extension_lowercase("noext"), "");
    assert_eq!(get_extension_lowercase(".hidden"), "");
}

#[test]
fn extension_lowercase_folds_beyond_ascii() {
    assert_eq!(get_extension_lowercase("menu.\u{c9}T\u{c9}"), "\u{e9}t\u{e9}");
    assert_eq!(get_extension_lowercase("a.b/c.D"), "d");
    assert_eq!(get_extension_lowercase("archive.tar.GZ"), "gz");
}

#[test]
fn key_extension_edge_cases() {
    assert_eq!(key_extension(""), None);
    assert_eq!(key_extension("/"), None);
    assert_eq!(key_extension("."), None);
    assert_eq!(key_extension(".."), None);
    assert_eq!(key_extension("a/.."), None);
    assert_eq!(key_extension("a."), Some(String::new()));
    assert_eq!(key_extension("..a"), Some("a".to_string()));
    assert_eq!(key_extension("a.txt/"), Some("txt".to_string()));
    assert_eq!(key_extension("a.b/."), Some("b".to_string()));
    assert_eq!(key_extension("a.b/c"), None);
    assert_eq!(key_extension("dir.d/.profile"), None);
    assert_eq!(key_extension("index.html"), Some("html".to_string()));
    assert_eq!(key_extension("site/App.JS"), Some("JS".to_string()));
}

#[test]
fn key_extension_agrees_with_std_paths() {
    let samples = [
        "",
        "/",
        "//",
        ".",
        "./",
        "./.",
        "..",
        "../",
        "a/..",
        "a/../",
        "a",
        "a.",
        ".a",
        "..a",
        "a..",
        "a.b",
        "a.b.c",
        "/a.b",
        "a.b/",
        "a.b//",
        "a.b/.",
        "a.b/./",
        "a.b/c",
        "a.b/.c",
        "a.b/c.",
        "a/b/c.tar.gz",
        "./x.y",
        ".x.y",
        "x/./y.z/.",
        "x/.../y",
        "...",
        ".../a.b",
        "www/site/index.html",
        "www/site/main.JS",
        "caf\u{e9}.t\u{e9}xt",
        "a b.c d",
    ];
    for sample in samples {
        let expected = Path::new(sample)
            .extension()
            .and_then(|ext| ext.to_str())
            .map(|ext| ext.to_string());
        assert_eq!(key_extension(sample), expected, "extension of {:?}", sample);
    }
}

#[test]
fn guess_mime_type_by_extension() {
    assert_eq!(guess_mime_type("site/style.css"), Some("text/css".to_string()));
    assert_eq!(guess_mime_type("site/index.html"), Some("text/html".to_string()));
    assert_eq!(guess_mime_type("logo.PNG"), Some("image/png".to_string()));
    assert_eq!(guess_mime_type("notes.txt"), Some("text/plain".to_string()));
}

#[test]
fn guess_mime_type_without_a_known_extension() {
    assert_eq!(guess_mime_type("noext"), None);
    assert_eq!(guess_mime_type(".hidden"), None);
    assert_eq!(guess_mime_type("trailing."), None);
    assert_eq!(guess_mime_type("css"), None);
    assert_eq!(guess_mime_type("a.css/b"), None);
    assert_eq!(guess_mime_type("data.no-such-extension"), None);
}
