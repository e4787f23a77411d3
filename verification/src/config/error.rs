//! Errors raised while turning raw configuration into routing rules.

use vstd::prelude::*;
use vstd::string::StringExecFns;

verus! {

/// Why a piece of configuration was rejected. `path` names the file the
/// offending entry came from.
#[derive(Clone, Debug)]
pub enum ConfigError {
    /// A `location` entry that follows none of the accepted forms.
    LocationSyntax { path: String, location: String },
    /// A `rewrite` entry that follows none of the accepted forms.
    RewriteSyntax { path: String, rewrite: String },
    /// A regular expression that the regex engine refused; `detail` is the
    /// engine's own explanation.
    BadPattern { path: String, detail: String },
    /// A file named by an `import` that could not be read.
    CannotRead { path: String },
    /// A configuration file whose path has no directory against which the
    /// paths it names could be resolved.
    NoDirectory { path: String },
}

impl ConfigError {
    /// The text of the message that `message` builds.
    pub open spec fn message_text(&self) -> Seq<char> {
        match self {
            ConfigError::LocationSyntax { path, location } => path@
                + " Wrong syntax: location = "@ + location@,
            ConfigError::RewriteSyntax { path, rewrite } => path@ + " Wrong syntax: rewrite = "@
                + rewrite@,
            ConfigError::BadPattern { path, detail } => path@ + " "@ + detail@,
            ConfigError::CannotRead { path } => "Cannot read file "@ + path@,
            ConfigError::NoDirectory { path } => path@ + " has no directory"@,
        }
    }

    /// The file the rejected entry came from.
    pub open spec fn path_text(&self) -> Seq<char> {
        match self {
            ConfigError::LocationSyntax { path, .. } => path@,
            ConfigError::RewriteSyntax { path, .. } => path@,
            ConfigError::BadPattern { path, .. } => path@,
            ConfigError::CannotRead { path } => path@,
            ConfigError::NoDirectory { path } => path@,
        }
    }

    /// A one-line description for the operator: the file, then the fault.
    pub fn message(&self) -> (r: String)
        ensures
            r@ == self.message_text(),
    {
        match self {
            ConfigError::LocationSyntax { path, location } => {
                let r = path.clone();
                let r = r.concat(" Wrong syntax: location = ");
                r.concat(location.as_str())
            },
            ConfigError::RewriteSyntax { path, rewrite } => {
                let r = path.clone();
                let r = r.concat(" Wrong syntax: rewrite = ");
                r.concat(rewrite.as_str())
            },
            ConfigError::BadPattern { path, detail } => {
                let r = path.clone();
                let r = r.concat(" ");
                r.concat(detail.as_str())
            },
            ConfigError::CannotRead { path } => {
                String::from_str("Cannot read file ").concat(path.as_str())
            },
            ConfigError::NoDirectory { path } => {
                let r = path.clone();
                r.concat(" has no directory")
            },
        }
    }
}

} // verus!
