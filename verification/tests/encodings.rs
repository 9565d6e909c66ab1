use file_server::available_encodings::{get_encoded_ext, AvailableEncodings};
use file_server::config::{get_service_requirements, Config};
use file_server::response_paths::{add_extension, get_encodings};

fn names(list: &[&str]) -> Vec<String> {
    list.iter().map(|s| s.to_string()).collect()
}

#[test]
fn available_encodings_from_names() {
    let av = AvailableEncodings::new(&names(&["gzip", "br", "bogus"]));
    assert_eq!(av, AvailableEncodings { gzip: true, deflate: false, br: true, zstd: false });
    let none = AvailableEncodings::new(&names(&[]));
    assert_eq!(none, AvailableEncodings { gzip: false, deflate: false, br: false, zstd: false });
    let all = AvailableEncodings::new(&names(&["zstd", "deflate", "gzip", "br", "gzip"]));
    assert_eq!(all, AvailableEncodings { gzip: true, deflate: true, br: true, zstd: true });
}

#[test]
fn available_encodings_are_case_sensitive() {
    let av = AvailableEncodings::new(&names(&["GZIP", " gzip", "gzip ", "Br"]));
    assert_eq!(av, AvailableEncodings { gzip: false, deflate: false, br: false, zstd: false });
}

#[test]
fn available_encodings_update_adds() {
    let mut av = AvailableEncodings::new(&names(&["gzip"]));
    av.update(&names(&["zstd", "nothing"]));
    assert_eq!(av, AvailableEncodings { gzip: true, deflate: false, br: false, zstd: true });
    av.update(&names(&[]));
    assert_eq!(av, AvailableEncodings { gzip: true, deflate: false, br: false, zstd: true });
}

#[test]
fn encoding_is_available_by_exact_name() {
    let av = AvailableEncodings { gzip: true, deflate: false, br: true, zstd: false };
    assert!(av.encoding_is_available("gzip"));
    assert!(av.encoding_is_available("br"));
    assert!(!av.encoding_is_available("deflate"));
    assert!(!av.encoding_is_available("zstd"));
    assert!(!av.encoding_is_available("Gzip"));
    assert!(!av.encoding_is_available("identity"));
    assert!(!av.encoding_is_available(""));
}

#[test]
fn encoded_extension_of_each_encoding() {
    assert_eq!(get_encoded_ext("gzip"), Some(".gz"));
    assert_eq!(get_encoded_ext("deflate"), Some(".zz"));
    assert_eq!(get_encoded_ext("br"), Some(".br"));
    assert_eq!(get_encoded_ext("zstd"), Some(".zst"));
    assert_eq!(get_encoded_ext("identity"), None);
    assert_eq!(get_encoded_ext(""), None);
    assert_eq!(get_encoded_ext("GZIP"), None);
}

#[test]
fn negotiation_keeps_the_clients_order() {
    let av = AvailableEncodings { gzip: true, deflate: false, br: true, zstd: false };
    assert_eq!(get_encodings("br, gzip", &av), names(&["br", "gzip"]));
    assert_eq!(get_encodings("gzip, br", &av), names(&["gzip", "br"]));
    assert_eq!(get_encodings("gzip,deflate,br,zstd", &av), names(&["gzip", "br"]));
}

#[test]
fn negotiation_trims_and_matches_exactly() {
    let av = AvailableEncodings { gzip: true, deflate: false, br: true, zstd: false };
    assert_eq!(get_encodings("  br  ,\tgzip ", &av), names(&["br", "gzip"]));
    assert_eq!(get_encodings("gzip;q=0.5, deflate , br", &av), names(&["br"]));
    assert_eq!(get_encodings("GZIP, Br", &av), names(&[]));
    assert_eq!(get_encodings("", &av), names(&[]));
    assert_eq!(get_encodings(",,", &av), names(&[]));
    assert_eq!(get_encodings("*", &av), names(&[]));
    assert_eq!(get_encodings("gzip, gzip", &av), names(&["gzip", "gzip"]));
}

#[test]
fn negotiation_with_nothing_offered() {
    let av = AvailableEncodings { gzip: false, deflate: false, br: false, zstd: false };
    assert_eq!(get_encodings("br, gzip, zstd, deflate", &av), names(&[]));
}

#[test]
fn extension_is_appended_not_replaced() {
    assert_eq!(add_extension("style.css", "gzip"), Some("style.css.gz".to_string()));
    assert_eq!(add_extension("/srv/www/a.html", "br"), Some("/srv/www/a.html.br".to_string()));
    assert_eq!(add_extension("a", "zstd"), Some("a.zst".to_string()));
    assert_eq!(add_extension("a", "deflate"), Some("a.zz".to_string()));
    assert_eq!(add_extension("a", "identity"), None);
}

#[test]
fn service_requirements_follow_the_config() {
    let config = Config {
        host_and_port: "127.0.0.1:3000".to_string(),
        directory: "/srv/www".to_string(),
        content_encodings: names(&["gzip", "zstd", "lzma"]),
        filepath_404s: vec![
            ("/srv/www/404.html.gz".to_string(), Some("gzip".to_string())),
            ("/srv/www/404.html".to_string(), None),
        ],
    };
    let requirements = get_service_requirements(&config);
    assert_eq!(requirements.directory, "/srv/www");
    assert_eq!(
        requirements.encodings,
        AvailableEncodings { gzip: true, deflate: false, br: false, zstd: true }
    );
    assert_eq!(requirements.filepath_404s, config.filepath_404s);
}

#[test]
fn negotiation_trims_every_kind_of_white_space() {
    let av = AvailableEncodings { gzip: true, deflate: false, br: true, zstd: false };
    assert_eq!(get_encodings("\u{2003}br\u{a0},\u{85}gzip\u{3000}", &av), names(&["br", "gzip"]));
    for code in 0u32..=0x3100 {
        if let Some(c) = char::from_u32(code) {
            if c == ',' {
                continue;
            }
            let padded = format!("{}gzip{}", c, c);
            let kept = get_encodings(&padded, &av) == names(&["gzip"]);
            assert_eq!(kept, c.is_whitespace(), "U+{:04X}", code);
        }
    }
}
