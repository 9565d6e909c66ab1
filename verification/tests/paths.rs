use file_server::available_encodings::AvailableEncodings;
use file_server::path::{get_path_from_request_url, valid_path};
use file_server::response_paths::{get_filepaths_from_request, PathDetails, Status};

fn resolved(directory: &str, url_path: &str) -> Option<String> {
    get_path_from_request_url(directory, url_path)
}

#[test]
fn request_path_is_joined_to_the_directory() {
    assert_eq!(resolved("/srv/www", "/index.html"), Some("/srv/www/index.html".to_string()));
    assert_eq!(resolved("/srv/www", "index.html"), Some("/srv/www/index.html".to_string()));
    assert_eq!(resolved("/srv/www", "/a/b/c.txt"), Some("/srv/www/a/b/c.txt".to_string()));
}

#[test]
fn empty_request_path_is_the_directory() {
    assert_eq!(resolved("/srv/www", ""), Some("/srv/www".to_string()));
    assert_eq!(resolved("/srv/www", "/"), Some("/srv/www".to_string()));
    assert_eq!(resolved("/", "/"), Some("/".to_string()));
}

#[test]
fn request_path_is_written_in_its_shortest_form() {
    assert_eq!(resolved("/srv/www", "/a//b/./c/"), Some("/srv/www/a/b/c".to_string()));
    assert_eq!(resolved("/srv/www", "/a/../b"), Some("/srv/www/b".to_string()));
    assert_eq!(resolved("/srv/www", "/a/b/../../c"), Some("/srv/www/c".to_string()));
    assert_eq!(resolved("/srv/www/", "/x"), Some("/srv/www/x".to_string()));
    assert_eq!(resolved("/srv/./www/../www", "/x"), Some("/srv/www/x".to_string()));
    assert_eq!(resolved("/srv/www", "/..."), Some("/srv/www/...".to_string()));
    assert_eq!(resolved("/srv/www", "/..%2f"), Some("/srv/www/..%2f".to_string()));
}

#[test]
fn request_path_cannot_leave_the_directory() {
    assert_eq!(resolved("/srv/www", "/../etc/passwd"), None);
    assert_eq!(resolved("/srv/www", "/.."), None);
    assert_eq!(resolved("/srv/www", "../"), None);
    assert_eq!(resolved("/srv/www", "/a/../../x"), None);
    assert_eq!(resolved("/srv/www", "/../../../../../../etc/passwd"), None);
    assert_eq!(resolved("/srv/www", "/a/../../wwwx/secret"), None);
    assert_eq!(resolved("/srv/www", "/../www2/secret"), None);
}

#[test]
fn request_path_may_leave_and_come_back() {
    assert_eq!(resolved("/srv/www", "/../www/x"), Some("/srv/www/x".to_string()));
    assert_eq!(resolved("/srv/www", "/a/../../www/x"), Some("/srv/www/x".to_string()));
}

#[test]
fn absolute_request_path_replaces_the_directory() {
    assert_eq!(resolved("/srv/www", "//etc/passwd"), None);
    assert_eq!(resolved("/srv/www", "///etc/passwd"), None);
    assert_eq!(resolved("/srv/www", "//srv/www/x"), Some("/srv/www/x".to_string()));
    assert_eq!(resolved("/", "//etc/passwd"), Some("/etc/passwd".to_string()));
}

#[test]
fn relative_directory_resolves_nothing() {
    assert_eq!(resolved("www", "/index.html"), None);
    assert_eq!(resolved("", "/index.html"), None);
    assert_eq!(resolved("./www", "/"), None);
}

#[test]
fn sandbox_holds_of_many_request_paths() {
    let pieces = ["..", ".", "", "a", "www", "srv", "etc", "...", "..a", "a.."];
    let mut count = 0;
    for a in pieces.iter() {
        for b in pieces.iter() {
            for c in pieces.iter() {
                for d in pieces.iter() {
                    for lead in ["", "/", "//"] {
                        let url = format!("{}{}/{}/{}/{}", lead, a, b, c, d);
                        if let Some(path) = resolved("/srv/www", &url) {
                            assert!(path == "/srv/www" || path.starts_with("/srv/www/"));
                            assert!(path.split('/').all(|name| name != ".." && name != "."));
                            assert!(!path.contains("//"));
                            assert!(valid_path("/srv/www", &path));
                            count += 1;
                        }
                    }
                }
            }
        }
    }
    assert!(count > 0);
}

#[test]
fn valid_path_compares_whole_names() {
    assert!(valid_path("/srv/www", "/srv/www"));
    assert!(valid_path("/srv/www", "/srv/www/a"));
    assert!(valid_path("/srv/www", "/srv/www/a/b.txt"));
    assert!(valid_path("/srv/www/", "/srv//www/./a"));
    assert!(valid_path("/", "/anything"));
    assert!(!valid_path("/srv/www", "/srv/wwwx/a"));
    assert!(!valid_path("/srv/www", "/srv/www.gz"));
    assert!(!valid_path("/srv/www", "/srv"));
    assert!(!valid_path("/srv/www", "/"));
    assert!(!valid_path("/srv/www", "/srv/www/../x"));
    assert!(valid_path("/srv/www", "/srv/www/a/../x"));
}

#[test]
fn valid_path_wants_absolute_paths() {
    assert!(!valid_path("/srv/www", "srv/www/a"));
    assert!(!valid_path("srv/www", "/srv/www/a"));
    assert!(!valid_path("srv/www", "srv/www/a"));
    assert!(!valid_path("", ""));
    assert!(!valid_path("/srv/www", ""));
}

fn details(path: &str, status: Status, encoding: Option<&str>, content_type: &'static str) -> PathDetails {
    PathDetails {
        path: path.to_string(),
        status_code: status,
        content_encoding: encoding.map(|e| e.to_string()),
        content_type,
    }
}

#[test]
fn candidates_are_listed_in_order() {
    let av = AvailableEncodings { gzip: true, deflate: false, br: true, zstd: false };
    let fallbacks = vec![
        ("/srv/www/404.html.gz".to_string(), Some("gzip".to_string())),
        ("/srv/www/404.html".to_string(), None),
    ];
    let paths = get_filepaths_from_request(
        "/srv/www",
        &av,
        &fallbacks,
        Some("/srv/www/style.css"),
        Some("br, zstd, gzip"),
    );
    assert_eq!(
        paths,
        vec![
            details("/srv/www/style.css.br", Status::Success, Some("br"), "text/css; charset=utf-8"),
            details("/srv/www/style.css.gz", Status::Success, Some("gzip"), "text/css; charset=utf-8"),
            details("/srv/www/style.css", Status::Success, None, "text/css; charset=utf-8"),
            details("/srv/www/404.html.gz", Status::NotFound, Some("gzip"), "text/html; charset=utf-8"),
            details("/srv/www/404.html", Status::NotFound, None, "text/html; charset=utf-8"),
        ]
    );
}

#[test]
fn candidates_without_a_request_path_are_the_substitutes() {
    let av = AvailableEncodings { gzip: true, deflate: true, br: true, zstd: true };
    let fallbacks = vec![("/srv/www/404.html".to_string(), None)];
    let paths = get_filepaths_from_request("/srv/www", &av, &fallbacks, None, Some("gzip"));
    assert_eq!(
        paths,
        vec![details("/srv/www/404.html", Status::NotFound, None, "text/html; charset=utf-8")]
    );
}

#[test]
fn candidates_outside_the_directory_are_left_out() {
    let av = AvailableEncodings { gzip: true, deflate: false, br: false, zstd: false };
    let fallbacks = vec![
        ("/etc/passwd".to_string(), None),
        ("/srv/www/../secret/404.html".to_string(), None),
        ("errors/404.html".to_string(), None),
        ("/srv/www/errors/404.html".to_string(), None),
    ];
    let paths = get_filepaths_from_request("/srv/www", &av, &fallbacks, Some("/srv/www"), Some("gzip"));
    assert_eq!(
        paths,
        vec![
            details("/srv/www", Status::Success, None, "application/octet-stream"),
            details("/srv/www/errors/404.html", Status::NotFound, None, "text/html; charset=utf-8"),
        ]
    );
    let outside = get_filepaths_from_request("/srv/www", &av, &vec![], Some("/etc/passwd"), None);
    assert_eq!(outside, vec![]);
}

#[test]
fn candidates_without_accept_encoding() {
    let av = AvailableEncodings { gzip: true, deflate: false, br: false, zstd: false };
    let paths = get_filepaths_from_request("/srv/www", &av, &vec![], Some("/srv/www/a.txt"), None);
    assert_eq!(
        paths,
        vec![details("/srv/www/a.txt", Status::Success, None, "text/plain; charset=utf-8")]
    );
}

#[test]
fn status_codes_on_the_wire() {
    assert_eq!(Status::Success.code(), 200);
    assert_eq!(Status::PartialContent.code(), 206);
    assert_eq!(Status::NotFound.code(), 404);
    assert_eq!(Status::MethodNotAllowed.code(), 405);
    assert_eq!(Status::RangeNotSatisfiable.code(), 416);
}

#[test]
fn valid_path_agrees_with_components_of_plain_paths() {
    let paths = [
        "/", "/srv", "/srv/www", "/srv/www/a", "/srv/wwwx", "/srv/www/a/b.txt", "/srv/w", "/etc",
        "/srv/www.gz", "/srv/www/a.b/c", "/s",
    ];
    for base in paths.iter() {
        for path in paths.iter() {
            let expected = std::path::Path::new(path).starts_with(std::path::Path::new(base));
            assert_eq!(valid_path(base, path), expected, "{} in {}", path, base);
        }
    }
}

#[test]
fn resolved_path_agrees_with_join_of_plain_paths() {
    let names = ["a", "a/b", "a/b/c.txt", "index.html", "x.tar.gz", "a.b/c.d"];
    for name in names.iter() {
        let joined = std::path::Path::new("/srv/www").join(name);
        assert_eq!(resolved("/srv/www", &format!("/{}", name)), joined.to_str().map(|s| s.to_string()));
        assert_eq!(resolved("/srv/www", name), joined.to_str().map(|s| s.to_string()));
    }
}
