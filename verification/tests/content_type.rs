use file_server::content_type::{
    compressed_ext, get_alt_path, get_content_encoding, get_content_type, HTML, OCTET, TEXT,
};

#[test]
fn content_type_follows_the_extension() {
    assert_eq!(get_content_type("index.html"), "text/html; charset=utf-8");
    assert_eq!(get_content_type("/srv/www/a/style.css"), "text/css; charset=utf-8");
    assert_eq!(get_content_type("/srv/www/app.js"), "text/javascript; charset=utf-8");
    assert_eq!(get_content_type("data.json"), "application/json; charset=utf-8");
    assert_eq!(get_content_type("a.png"), "image/png");
    assert_eq!(get_content_type("a.jpg"), "image/jpeg");
    assert_eq!(get_content_type("a.jpeg"), "image/jpeg");
    assert_eq!(get_content_type("a.svg"), "image/svg+xml");
    assert_eq!(get_content_type("a.wasm"), "application/wasm");
    assert_eq!(get_content_type("a.woff2"), "font/woff2");
    assert_eq!(get_content_type("a.woff"), "font/woff");
    assert_eq!(get_content_type("a.m3u8"), "application/x-mpegURL");
    assert_eq!(get_content_type("a.ts"), "video/MP2T");
    assert_eq!(get_content_type("a.weba"), "audio/webm");
    assert_eq!(get_content_type("a.webmanifest"), "application/manifest+json");
    assert_eq!(get_content_type("a.zip"), "application/zip");
    assert_eq!(get_content_type("notes.txt"), TEXT);
    assert_eq!(get_content_type("index.html"), HTML);
}

#[test]
fn content_type_of_unknown_or_missing_extension() {
    assert_eq!(get_content_type("file"), OCTET);
    assert_eq!(get_content_type("file"), "application/octet-stream");
    assert_eq!(get_content_type("file.unknown"), OCTET);
    assert_eq!(get_content_type(".bashrc"), OCTET);
    assert_eq!(get_content_type(""), OCTET);
    assert_eq!(get_content_type(".."), OCTET);
    assert_eq!(get_content_type("a."), OCTET);
    assert_eq!(get_content_type("a.HTML"), OCTET);
    assert_eq!(get_content_type("/srv/www.html/file"), OCTET);
    assert_eq!(get_content_type("/srv/www/dir.css/"), OCTET);
}

#[test]
fn content_type_uses_the_last_component_only() {
    assert_eq!(get_content_type("/a.png/b.txt"), TEXT);
    assert_eq!(get_content_type("/a.b/c.d/e.html"), HTML);
    assert_eq!(get_content_type("a.tar.html"), HTML);
    assert_eq!(get_content_type(".hidden.css"), "text/css; charset=utf-8");
}

#[test]
fn content_type_looks_through_compression() {
    assert_eq!(get_content_type("page.html.gz"), HTML);
    assert_eq!(get_content_type("/srv/www/style.css.br"), "text/css; charset=utf-8");
    assert_eq!(get_content_type("app.js.zstd"), "text/javascript; charset=utf-8");
    assert_eq!(get_content_type("archive.gz"), OCTET);
    assert_eq!(get_content_type("archive.tar.gz"), OCTET);
    assert_eq!(get_content_type("a.gz.gz"), "application/gzip");
    assert_eq!(get_content_type("a.html.zst"), OCTET);
    assert_eq!(get_content_type("a.html.zz"), OCTET);
}

#[test]
fn content_encoding_follows_the_extension() {
    assert_eq!(get_content_encoding("a.html.gz"), Some("gz"));
    assert_eq!(get_content_encoding("a.br"), Some("br"));
    assert_eq!(get_content_encoding("/x/y.z/a.zstd"), Some("zstd"));
    assert_eq!(get_content_encoding("a.zst"), None);
    assert_eq!(get_content_encoding("a.html"), None);
    assert_eq!(get_content_encoding("gz"), None);
    assert_eq!(get_content_encoding(".gz"), None);
    assert_eq!(get_content_encoding("a.gz/b"), None);
}

#[test]
fn compressed_extensions_are_three() {
    assert!(compressed_ext("gz"));
    assert!(compressed_ext("br"));
    assert!(compressed_ext("zstd"));
    assert!(!compressed_ext("zst"));
    assert!(!compressed_ext("zip"));
    assert!(!compressed_ext(""));
    assert!(!compressed_ext("GZ"));
}

#[test]
fn alt_path_drops_a_compression_extension() {
    assert_eq!(get_alt_path("/x/page.html.gz"), "page.html");
    assert_eq!(get_alt_path("page.br"), "page");
    assert_eq!(get_alt_path("/x/page.html"), "/x/page.html");
    assert_eq!(get_alt_path("/x.gz/page"), "/x.gz/page");
    assert_eq!(get_alt_path(""), "");
}

#[test]
fn extension_agrees_with_the_extension_of_plain_names() {
    let names = [
        "a.gz", "a.b.gz", ".gz", "gz", "a.", "a..gz", "..", "...", "a.br", ".a.br", "dir.gz/a",
        "dir/a.zstd", "a.gz.", "", ".", "a.GZ", "/a.gz", "/.gz", "x/.br", "x/..", "a.b/.c.gz",
    ];
    for name in names.iter() {
        let ext = std::path::Path::new(name).extension().and_then(|e| e.to_str());
        let expected = match ext {
            Some("gz") => Some("gz"),
            Some("br") => Some("br"),
            Some("zstd") => Some("zstd"),
            _ => None,
        };
        assert_eq!(get_content_encoding(name), expected, "{}", name);
    }
}
