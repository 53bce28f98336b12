//! The persisted configuration: which server to talk to, which
//! project/version/profile to pull, where to put the files, and the auth
//! token sent with every request.

use vstd::prelude::*;

verus! {

/// A pull configuration. All fields are free-form strings except the port;
/// `version` may be empty, which asks the server for the project's default
/// version.
pub struct Config {
    pub server: String,
    pub port: u32,
    pub version: String,
    pub dir: String,
    pub project: String,
    pub profile: String,
    pub auth: String,
}

/// The mathematical image of a `Config`: every string as its character
/// sequence.
pub struct ConfigView {
    pub server: Seq<char>,
    pub port: u32,
    pub version: Seq<char>,
    pub dir: Seq<char>,
    pub project: Seq<char>,
    pub profile: Seq<char>,
    pub auth: Seq<char>,
}

impl View for Config {
    type V = ConfigView;

    open spec fn view(&self) -> ConfigView {
        ConfigView {
            server: self.server@,
            port: self.port,
            version: self.version@,
            dir: self.dir@,
            project: self.project@,
            profile: self.profile@,
            auth: self.auth@,
        }
    }
}

/// The placeholder configuration written by the initializer: a loopback
/// server, an empty version (meaning "the project's default"), the current
/// directory as local root, and placeholder project/profile/auth values.
pub open spec fn default_config_view() -> ConfigView {
    ConfigView {
        server: "127.0.0.1"@,
        port: 11111,
        version: ""@,
        dir: "."@,
        project: "project_name"@,
        profile: "__default__"@,
        auth: "your_auth_code"@,
    }
}

/// Builds the placeholder configuration that the initializer persists.
pub fn default_config() -> (c: Config)
    ensures
        c@ == default_config_view(),
{
    Config {
        server: "127.0.0.1".to_owned(),
        port: 11111,
        version: "".to_owned(),
        dir: ".".to_owned(),
        project: "project_name".to_owned(),
        profile: "__default__".to_owned(),
        auth: "your_auth_code".to_owned(),
    }
}

} // verus!
