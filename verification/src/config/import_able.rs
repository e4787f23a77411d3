//! Values that a configuration file either holds or names another file for.

use vstd::prelude::*;

use crate::config::error::ConfigError;
use crate::util::path::{base_dir, resolved_in, try_resolve};

verus! {

/// A value given in place, or the path of the file that holds it.
#[derive(Clone)]
pub enum Importable<T> {
    Value(T),
    Import(String),
}

/// The form in which a configuration file names another file.
#[derive(Clone)]
pub struct Import {
    pub import: String,
}

/// A value together with the path of the file it was read from.
pub struct Imported<T> {
    pub value: T,
    pub path: String,
}

impl<T> Importable<T> {
    /// The path of the file that holds the value, as named in the file
    /// `base`; `None` for a value given in place and where `base` has no
    /// directory to resolve against.
    pub open spec fn target_path(&self, base: Seq<char>) -> Option<Seq<char>> {
        match self {
            Importable::Value(_) => None,
            Importable::Import(path) => match base_dir(base) {
                Some(dir) => Some(resolved_in(dir, path@)),
                None => None,
            },
        }
    }

    /// The path of the file to read for this value, if there is one.
    pub fn target(&self, base: &str) -> (r: Option<String>)
        ensures
            match self.target_path(base@) {
                Some(p) => r matches Some(s) && s@ == p,
                None => r is None,
            },
    {
        match self {
            Importable::Value(_) => None,
            Importable::Import(path) => try_resolve(base, path.as_str()),
        }
    }

    /// The value, with the path of the file it comes from: a value given
    /// in place comes from `base`; for one that names a file, `loaded` is
    /// what reading that file gave, and `None` there means that it could
    /// not be read.
    pub fn import(self, base: &str, loaded: Option<T>) -> (r: Result<Imported<T>, ConfigError>)
        ensures
            match self {
                Importable::Value(v) => r matches Ok(i) && i.value == v && i.path@ == base@,
                Importable::Import(path) => match (self.target_path(base@), loaded) {
                    (Some(p), Some(t)) => r matches Ok(i) && i.value == t && i.path@ == p,
                    (Some(p), None) => r matches Err(ConfigError::CannotRead { path: q }) && q@
                        == p,
                    (None, _) => r matches Err(ConfigError::NoDirectory { path: q }) && q@ == base@,
                },
            },
    {
        match self {
            Importable::Value(v) => Ok(Imported { value: v, path: base.to_owned() }),
            Importable::Import(path) => match try_resolve(base, path.as_str()) {
                None => Err(ConfigError::NoDirectory { path: base.to_owned() }),
                Some(file) => match loaded {
                    Some(t) => Ok(Imported { value: t, path: file }),
                    None => Err(ConfigError::CannotRead { path: file }),
                },
            },
        }
    }
}

} // verus!
