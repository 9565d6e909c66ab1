//! The configuration that the server runs with inside a container image.
use vstd::prelude::*;
use crate::config::Config;

verus! {

/// The address that the server listens on inside a container.
pub const CONTAINER_HOST_AND_PORT: &'static str = "0.0.0.0:3000";

/// The directory that is served inside a container.
pub const CONTAINER_DIRECTORY: &'static str = "/usr/share/www";

/// Why a container could not be set up.
#[derive(Clone, Debug, PartialEq, Eq)]
pub struct ContainerError {
    message: String,
}

impl View for ContainerError {
    type V = Seq<char>;

    closed spec fn view(&self) -> Seq<char> {
        self.message@
    }
}

impl ContainerError {
    /// The error that `msg` describes.
    pub fn new(msg: &str) -> (error: ContainerError)
        ensures
            error@ == msg@,
    {
        ContainerError { message: msg.to_owned() }
    }

    /// The words that describe the error.
    pub fn message(&self) -> (message: &str)
        ensures
            message@ == self@,
    {
        self.message.as_str()
    }
}

/// The configuration of a server inside a container: it listens on every
/// address at port 3000, serves `/usr/share/www`, and offers neither
/// encodings nor substitutes for missing files.
pub fn create_container_config() -> (config: Result<Config, ContainerError>)
    ensures
        config matches Ok(c) && {
            &&& c.host_and_port@ == CONTAINER_HOST_AND_PORT@
            &&& c.directory@ == CONTAINER_DIRECTORY@
            &&& c.content_encodings@.len() == 0
            &&& c.filepath_404s@.len() == 0
        },
{
    Ok(
        Config {
            host_and_port: CONTAINER_HOST_AND_PORT.to_owned(),
            directory: CONTAINER_DIRECTORY.to_owned(),
            content_encodings: Vec::new(),
            filepath_404s: Vec::new(),
        },
    )
}

} // verus!
