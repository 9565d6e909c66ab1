//! The configuration of a deployment, and what the service keeps of it.
use vstd::prelude::*;
use crate::available_encodings::AvailableEncodings;
use crate::path::{
    combine_pathbuff, combined, confined, lemma_absolute_path_is_absolute, normal, parent_dir,
    parent_of, valid_path,
};
use crate::text::{clone_encoding, clone_string};

verus! {

/// The configuration of a deployment.
#[derive(Clone, Debug, PartialEq, Eq)]
pub struct Config {
    /// The address to listen on, as `host:port`.
    pub host_and_port: String,
    /// The root directory: nothing outside it is served.
    pub directory: String,
    /// The names of the content encodings that the deployment offers.
    pub content_encodings: Vec<String>,
    /// The files that stand in for a missing one, in the order in which
    /// they are tried, each with the encoding of its content if it has one.
    pub filepath_404s: Vec<(String, Option<String>)>,
}

/// What the service keeps of a configuration.
#[derive(Clone, Debug, PartialEq, Eq)]
pub struct ServiceRequirements {
    pub directory: String,
    pub encodings: AvailableEncodings,
    pub filepath_404s: Vec<(String, Option<String>)>,
}

/// The configuration of the service: what every request is answered from.
/// It is made once, when the server starts, and only read afterwards.
#[derive(Clone, Debug, PartialEq, Eq)]
pub struct ServiceConfig {
    /// The root directory: nothing outside it is served.
    pub root_directory: String,
    /// The encodings that the deployment offers.
    pub available_encodings: AvailableEncodings,
    /// The files that stand in for a missing one, in the order in which
    /// they are tried, each with the encoding of its content if it has one.
    pub fallback_resources: Vec<(String, Option<String>)>,
}

impl ServiceConfig {
    /// The configuration of the service that `config` describes: its root
    /// directory, the encodings that it names among the four known ones,
    /// and its substitutes for missing files.
    pub fn from_config(config: &Config) -> (service_config: ServiceConfig)
        ensures
            service_config.root_directory@ == config.directory@,
            service_config.available_encodings == AvailableEncodings::none().extended(
                config.content_encodings@,
            ),
            service_config.fallback_resources.deep_view() == config.filepath_404s.deep_view(),
    {
        ServiceConfig {
            root_directory: clone_string(&config.directory),
            available_encodings: AvailableEncodings::new(&config.content_encodings),
            fallback_resources: clone_filepaths(&config.filepath_404s),
        }
    }
}

/// A copy of the list of substitutes `filepaths`.
pub(crate) fn clone_filepaths(filepaths: &Vec<(String, Option<String>)>) -> (r: Vec<
    (String, Option<String>),
>)
    ensures
        r.deep_view() == filepaths.deep_view(),
{
    let mut r: Vec<(String, Option<String>)> = Vec::new();
    let mut i: usize = 0;
    while i < filepaths.len()
        invariant
            i <= filepaths.len(),
            r.deep_view() == filepaths.deep_view().take(i as int),
        decreases filepaths.len() - i,
    {
        let ghost before = r.deep_view();
        r.push((clone_string(&filepaths[i].0), clone_encoding(&filepaths[i].1)));
        assert(r.deep_view() =~= before.push(filepaths[i as int].deep_view()));
        i += 1;
        assert(r.deep_view() =~= filepaths.deep_view().take(i as int));
    }
    assert(filepaths.deep_view().take(i as int) =~= filepaths.deep_view());
    r
}

/// What the service keeps of `config`: the root directory, the encodings
/// that the configuration names among the four known ones, and the
/// substitutes for missing files.
pub fn get_service_requirements(config: &Config) -> (requirements: ServiceRequirements)
    ensures
        requirements.directory@ == config.directory@,
        requirements.encodings == AvailableEncodings::none().extended(config.content_encodings@),
        requirements.filepath_404s.deep_view() == config.filepath_404s.deep_view(),
{
    ServiceRequirements {
        directory: clone_string(&config.directory),
        encodings: AvailableEncodings::new(&config.content_encodings),
        filepath_404s: clone_filepaths(&config.filepath_404s),
    }
}

/// Why a configuration is refused.
#[derive(Clone, Copy, Debug, PartialEq, Eq, Structural)]
pub enum ConfigError {
    /// The configuration file has no directory above it to which its paths
    /// could be relative.
    ParentNotFound,
    /// A path of the configuration is relative to a directory that is not
    /// absolute.
    NotAbsolute,
    /// A substitute for missing files lies outside the directory that it
    /// was to lie in.
    OutsideDirectory,
}

impl ConfigError {
    /// The words that describe the error.
    pub open spec fn message_of(self) -> Seq<char> {
        match self {
            ConfigError::ParentNotFound => "parent directory of config not found"@,
            ConfigError::NotAbsolute => "path of config is not absolute"@,
            ConfigError::OutsideDirectory => "filepath_404 does not reside in directory"@,
        }
    }

    /// The words that describe the error.
    pub fn message(&self) -> (message: &'static str)
        ensures
            message@ == self.message_of(),
    {
        match self {
            ConfigError::ParentNotFound => "parent directory of config not found",
            ConfigError::NotAbsolute => "path of config is not absolute",
            ConfigError::OutsideDirectory => "filepath_404 does not reside in directory",
        }
    }
}

/// Whether each path of `filepaths` can be seen from `source_dir`.
pub open spec fn all_combine(source_dir: Seq<char>, filepaths: Seq<(Seq<char>, Option<Seq<char>>)>) -> bool {
    forall|i: int| 0 <= i < filepaths.len() ==> combined(source_dir, (#[trigger] filepaths[i]).0) is Some
}

/// The substitutes `filepaths`, each path as seen from `source_dir`.
pub open spec fn combined_paths(
    source_dir: Seq<char>,
    filepaths: Seq<(Seq<char>, Option<Seq<char>>)>,
) -> Seq<(Seq<char>, Option<Seq<char>>)> {
    Seq::new(
        filepaths.len(),
        |i: int| (combined(source_dir, filepaths[i].0).unwrap(), filepaths[i].1),
    )
}

/// Whether each path of `filepaths` lies in `directory`.
pub open spec fn all_reside(directory: Seq<char>, filepaths: Seq<(Seq<char>, Option<Seq<char>>)>) -> bool {
    forall|i: int| 0 <= i < filepaths.len() ==> confined(directory, (#[trigger] filepaths[i]).0)
}

/// What a configuration that was read from the file at `source_path`
/// becomes once its paths are resolved, or why it is refused.
///
/// The paths of a configuration are relative to the directory that holds
/// the configuration file. The root directory and the substitutes are
/// written in their shortest form, and every substitute must lie in the root
/// directory.
pub open spec fn loaded(
    source_path: Seq<char>,
    directory: Seq<char>,
    filepath_404s: Seq<(Seq<char>, Option<Seq<char>>)>,
) -> Result<(Seq<char>, Seq<(Seq<char>, Option<Seq<char>>)>), ConfigError> {
    match parent_of(source_path) {
        None => Err(ConfigError::ParentNotFound),
        Some(parent) => {
            let root = combined(parent, directory).unwrap();
            let substitutes = combined_paths(parent, filepath_404s);
            if all_reside(root, substitutes) {
                Ok((root, substitutes))
            } else {
                Err(ConfigError::OutsideDirectory)
            }
        },
    }
}

/// `filepath` as seen from `source_dir`, which it must lie in.
pub fn get_path_relative_to_origin(source_dir: &str, filepath: &str) -> (path: Result<
    String,
    ConfigError,
>)
    ensures
        match path {
            Ok(found) => combined(source_dir@, filepath@) == Some(found@) && confined(
                source_dir@,
                found@,
            ),
            Err(ConfigError::NotAbsolute) => combined(source_dir@, filepath@) is None,
            Err(ConfigError::OutsideDirectory) => combined(source_dir@, filepath@) is Some
                && !confined(source_dir@, combined(source_dir@, filepath@).unwrap()),
            Err(ConfigError::ParentNotFound) => false,
        },
{
    let target = match combine_pathbuff(source_dir, filepath) {
        Some(target) => target,
        None => return Err(ConfigError::NotAbsolute),
    };
    if valid_path(source_dir, target.as_str()) {
        Ok(target)
    } else {
        Err(ConfigError::OutsideDirectory)
    }
}

/// The substitutes `filepaths`, each path as seen from `source_dir` and in
/// its shortest form. Fails where a path cannot be seen from `source_dir`.
pub fn get_paths(source_dir: &str, filepaths: &Vec<(String, Option<String>)>) -> (paths: Result<
    Vec<(String, Option<String>)>,
    ConfigError,
>)
    ensures
        match paths {
            Ok(list) => all_combine(source_dir@, filepaths.deep_view()) && list.deep_view()
                == combined_paths(source_dir@, filepaths.deep_view()),
            Err(e) => !all_combine(source_dir@, filepaths.deep_view()) && e
                == ConfigError::NotAbsolute,
        },
{
    let ghost all = filepaths.deep_view();
    let mut updated: Vec<(String, Option<String>)> = Vec::new();
    let mut i: usize = 0;
    while i < filepaths.len()
        invariant
            i <= filepaths.len(),
            all == filepaths.deep_view(),
            updated.len() == i,
            forall|k: int| 0 <= k < i ==> combined(source_dir@, (#[trigger] all[k]).0) is Some,
            forall|k: int|
                0 <= k < i ==> (#[trigger] updated[k]).deep_view() == (
                    combined(source_dir@, all[k].0).unwrap(),
                    all[k].1,
                ),
        decreases filepaths.len() - i,
    {
        assert(all[i as int] == filepaths[i as int].deep_view());
        match combine_pathbuff(source_dir, filepaths[i].0.as_str()) {
            Some(path) => {
                updated.push((path, clone_encoding(&filepaths[i].1)));
            },
            None => {
                assert(combined(source_dir@, all[i as int].0) is None);
                return Err(ConfigError::NotAbsolute);
            },
        }
        i += 1;
    }
    assert(updated.deep_view() =~= combined_paths(source_dir@, all));
    Ok(updated)
}

fn all_valid(directory: &str, filepaths: &Vec<(String, Option<String>)>) -> (valid: bool)
    ensures
        valid == all_reside(directory@, filepaths.deep_view()),
{
    let ghost all = filepaths.deep_view();
    let mut i: usize = 0;
    while i < filepaths.len()
        invariant
            i <= filepaths.len(),
            all == filepaths.deep_view(),
            forall|k: int| 0 <= k < i ==> confined(directory@, (#[trigger] all[k]).0),
        decreases filepaths.len() - i,
    {
        assert(all[i as int] == filepaths[i as int].deep_view());
        if !valid_path(directory, filepaths[i].0.as_str()) {
            return false;
        }
        i += 1;
    }
    true
}

impl Config {
    /// Resolves the paths of `config`, a configuration that was read from
    /// the file at `source_path`. `source_path` is the absolute path of that
    /// file; the paths of the configuration are relative to the directory
    /// that holds it.
    ///
    /// Returns the configuration with its root directory and its substitutes
    /// in their shortest form, the address and the encodings as they were.
    /// Fails where the file has no directory above it, and where a
    /// substitute lies outside the root directory.
    pub fn try_from(source_path: &str, config: Config) -> (loaded_config: Result<Config, ConfigError>)
        ensures
            match loaded_config {
                Ok(c) => {
                    &&& loaded(source_path@, config.directory@, config.filepath_404s.deep_view())
                        == Ok::<
                        (Seq<char>, Seq<(Seq<char>, Option<Seq<char>>)>),
                        ConfigError,
                    >((c.directory@, c.filepath_404s.deep_view()))
                    &&& c.host_and_port@ == config.host_and_port@
                    &&& c.content_encodings.deep_view() == config.content_encodings.deep_view()
                },
                Err(e) => loaded(
                    source_path@,
                    config.directory@,
                    config.filepath_404s.deep_view(),
                ) == Err::<(Seq<char>, Seq<(Seq<char>, Option<Seq<char>>)>), ConfigError>(e),
            },
    {
        let parent = match parent_dir(source_path) {
            Some(parent) => parent,
            None => return Err(ConfigError::ParentNotFound),
        };
        proof {
            lemma_absolute_path_is_absolute(normal(source_path@).drop_last());
        }
        let directory = match combine_pathbuff(parent.as_str(), config.directory.as_str()) {
            Some(directory) => directory,
            None => return Err(ConfigError::NotAbsolute),
        };
        let filepath_404s = match get_paths(parent.as_str(), &config.filepath_404s) {
            Ok(paths) => paths,
            Err(e) => return Err(e),
        };
        if !all_valid(directory.as_str(), &filepath_404s) {
            return Err(ConfigError::OutsideDirectory);
        }
        Ok(
            Config {
                host_and_port: config.host_and_port,
                directory,
                content_encodings: config.content_encodings,
                filepath_404s,
            },
        )
    }
}

} // verus!
