use file_server::config::{get_path_relative_to_origin, get_paths, Config, ConfigError};
use file_server::path::{combine_pathbuff, parent_dir};

fn config(directory: &str, fallbacks: &[(&str, Option<&str>)]) -> Config {
    Config {
        host_and_port: "0.0.0.0:3000".to_string(),
        directory: directory.to_string(),
        content_encodings: vec!["gzip".to_string(), "br".to_string()],
        filepath_404s: fallbacks
            .iter()
            .map(|(p, e)| (p.to_string(), e.map(|e| e.to_string())))
            .collect(),
    }
}

#[test]
fn parent_of_a_path() {
    assert_eq!(parent_dir("/etc/server/config.json"), Some("/etc/server".to_string()));
    assert_eq!(parent_dir("/config.json"), Some("/".to_string()));
    assert_eq!(parent_dir("/etc/./server/../config.json"), Some("/etc".to_string()));
    assert_eq!(parent_dir("/etc/server/"), Some("/etc".to_string()));
    assert_eq!(parent_dir("/"), None);
    assert_eq!(parent_dir("/.."), None);
    assert_eq!(parent_dir("config.json"), None);
    assert_eq!(parent_dir(""), None);
}

#[test]
fn paths_are_combined_in_their_shortest_form() {
    assert_eq!(combine_pathbuff("/etc/server", "www"), Some("/etc/server/www".to_string()));
    assert_eq!(combine_pathbuff("/etc/server", "./www/"), Some("/etc/server/www".to_string()));
    assert_eq!(combine_pathbuff("/etc/server", "../www"), Some("/etc/www".to_string()));
    assert_eq!(combine_pathbuff("/etc/server", "../../../www"), Some("/www".to_string()));
    assert_eq!(combine_pathbuff("/etc/server", "/srv/www"), Some("/srv/www".to_string()));
    assert_eq!(combine_pathbuff("/etc/server", ""), Some("/etc/server".to_string()));
    assert_eq!(combine_pathbuff("/", ".."), Some("/".to_string()));
    assert_eq!(combine_pathbuff("etc", "/srv/www"), Some("/srv/www".to_string()));
    assert_eq!(combine_pathbuff("etc", "www"), None);
    assert_eq!(combine_pathbuff("", ""), None);
}

#[test]
fn config_paths_are_relative_to_the_config_file() {
    let loaded = Config::try_from(
        "/etc/server/config.json",
        config("www", &[("www/404.html.gz", Some("gzip")), ("./www/errors/../404.html", None)]),
    );
    assert_eq!(
        loaded,
        Ok(config(
            "/etc/server/www",
            &[("/etc/server/www/404.html.gz", Some("gzip")), ("/etc/server/www/404.html", None)]
        ))
    );
}

#[test]
fn config_with_absolute_paths() {
    let loaded = Config::try_from(
        "/etc/server/config.json",
        config("/srv/www", &[("/srv/www/404.html", None)]),
    );
    assert_eq!(loaded, Ok(config("/srv/www", &[("/srv/www/404.html", None)])));
    let above = Config::try_from("/etc/server/config.json", config("../../srv/www/", &[]));
    assert_eq!(above, Ok(config("/srv/www", &[])));
}

#[test]
fn config_without_a_parent_is_refused() {
    assert_eq!(Config::try_from("/", config("www", &[])), Err(ConfigError::ParentNotFound));
    assert_eq!(Config::try_from("config.json", config("www", &[])), Err(ConfigError::ParentNotFound));
    assert_eq!(Config::try_from("", config("/srv/www", &[])), Err(ConfigError::ParentNotFound));
}

#[test]
fn config_with_a_substitute_outside_the_directory_is_refused() {
    let outside = Config::try_from("/etc/server/config.json", config("www", &[("404.html", None)]));
    assert_eq!(outside, Err(ConfigError::OutsideDirectory));
    let escaping = Config::try_from(
        "/etc/server/config.json",
        config("www", &[("www/404.html", None), ("www/../../secret", None)]),
    );
    assert_eq!(escaping, Err(ConfigError::OutsideDirectory));
    let sibling = Config::try_from("/etc/server/config.json", config("www", &[("/etc/server/www2/404.html", None)]));
    assert_eq!(sibling, Err(ConfigError::OutsideDirectory));
}

#[test]
fn substitutes_are_combined_with_the_source_directory() {
    let list = vec![("a/404.html".to_string(), Some("br".to_string())), ("/b/404.html".to_string(), None)];
    assert_eq!(
        get_paths("/srv", &list),
        Ok(vec![("/srv/a/404.html".to_string(), Some("br".to_string())), ("/b/404.html".to_string(), None)])
    );
    assert_eq!(get_paths("/srv", &vec![]), Ok(vec![]));
    assert_eq!(get_paths("srv", &list), Err(ConfigError::NotAbsolute));
}

#[test]
fn path_relative_to_origin_must_reside_in_it() {
    assert_eq!(get_path_relative_to_origin("/srv/www", "404.html"), Ok("/srv/www/404.html".to_string()));
    assert_eq!(get_path_relative_to_origin("/srv/www", "/srv/www/a/b"), Ok("/srv/www/a/b".to_string()));
    assert_eq!(get_path_relative_to_origin("/srv/www", "../404.html"), Err(ConfigError::OutsideDirectory));
    assert_eq!(get_path_relative_to_origin("/srv/www", "/etc/passwd"), Err(ConfigError::OutsideDirectory));
    assert_eq!(get_path_relative_to_origin("srv/www", "404.html"), Err(ConfigError::NotAbsolute));
}

#[test]
fn config_errors_have_messages() {
    assert_eq!(ConfigError::ParentNotFound.message(), "parent directory of config not found");
    assert_eq!(ConfigError::NotAbsolute.message(), "path of config is not absolute");
    assert_eq!(ConfigError::OutsideDirectory.message(), "filepath_404 does not reside in directory");
}

#[test]
fn service_config_follows_the_config() {
    let service_config = file_server::config::ServiceConfig::from_config(&config(
        "/srv/www",
        &[("/srv/www/404.html", None)],
    ));
    assert_eq!(service_config.root_directory, "/srv/www");
    assert_eq!(
        service_config.available_encodings,
        file_server::available_encodings::AvailableEncodings {
            gzip: true,
            deflate: false,
            br: true,
            zstd: false
        }
    );
    assert_eq!(service_config.fallback_resources, vec![("/srv/www/404.html".to_string(), None)]);
}

#[test]
fn container_config_is_fixed() {
    let container = file_server::container::create_container_config();
    assert_eq!(
        container,
        Ok(Config {
            host_and_port: "0.0.0.0:3000".to_string(),
            directory: "/usr/share/www".to_string(),
            content_encodings: vec![],
            filepath_404s: vec![],
        })
    );
}

#[test]
fn container_error_keeps_its_message() {
    let error = file_server::container::ContainerError::new("failed to create config");
    assert_eq!(error.message(), "failed to create config");
    assert_eq!(file_server::container::ContainerError::new("").message(), "");
}
