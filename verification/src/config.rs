//! The per-type configuration and its startup validation.
//!
//! Configuration names, for each logical type, the directory its containers
//! land in and the entry count at which a batch is flushed. Whether each
//! root actually exists as a directory is observed at the filesystem edge;
//! the decision over those observations is made here: validation walks the
//! types in order and rejects at the first root that is missing or not a
//! directory.

use vstd::prelude::*;

verus! {

/// The whole configuration: the server's listening port and one entry per
/// logical type.
pub struct Config {
    pub server: HttpConfig,
    pub types: Vec<TypeConfig>,
}

/// The ingress server's own settings.
#[derive(Clone)]
pub struct HttpConfig {
    pub port: u16,
}

/// One logical type: its identifier, the directory its containers are
/// written under, and the flush threshold in objects.
#[derive(Clone)]
pub struct TypeConfig {
    pub type_id: u32,
    pub root: String,
    pub objects_in_container: u32,
}

/// Command-line options: the path of the configuration file.
#[derive(Clone, Debug)]
pub struct Args {
    pub config: String,
}

/// What the filesystem edge observed about one configured root.
#[derive(Clone, Copy, Debug, PartialEq, Eq, Structural)]
pub struct PathProbe {
    pub exists: bool,
    pub is_dir: bool,
}

/// Why a configuration was rejected at startup.
#[derive(Clone, Copy, Debug, PartialEq, Eq, Structural)]
pub enum ConfigError {
    /// The root of the type at this position does not exist.
    RootNotFound { index: usize },
    /// The root of the type at this position exists but is not a directory.
    RootNotDirectory { index: usize },
}

/// A probe that lets its type start up: the root exists and is a directory.
pub open spec fn probe_ok(p: PathProbe) -> bool {
    p.exists && p.is_dir
}

impl Config {
    /// Accepts the configuration exactly when every type's root was
    /// observed to be an existing directory; otherwise rejects with the
    /// first offending position. `probes[i]` is the observation for
    /// `types[i]`.
    pub fn check_config(self, probes: &Vec<PathProbe>) -> (r: Result<Config, ConfigError>)
        requires
            probes@.len() == self.types@.len(),
        ensures
            match r {
                Ok(c) => {
                    &&& c == self
                    &&& forall|i: int| 0 <= i < probes@.len() ==> probe_ok(#[trigger] probes@[i])
                },
                Err(ConfigError::RootNotFound { index }) => {
                    &&& index < probes@.len()
                    &&& !probes@[index as int].exists
                    &&& forall|j: int| 0 <= j < index ==> probe_ok(#[trigger] probes@[j])
                },
                Err(ConfigError::RootNotDirectory { index }) => {
                    &&& index < probes@.len()
                    &&& probes@[index as int].exists
                    &&& !probes@[index as int].is_dir
                    &&& forall|j: int| 0 <= j < index ==> probe_ok(#[trigger] probes@[j])
                },
            },
    {
        let mut i: usize = 0;
        while i < probes.len()
            invariant
                i <= probes@.len(),
                forall|j: int| 0 <= j < i ==> probe_ok(#[trigger] probes@[j]),
            decreases probes@.len() - i,
        {
            if !probes[i].exists {
                return Err(ConfigError::RootNotFound { index: i });
            }
            if !probes[i].is_dir {
                return Err(ConfigError::RootNotDirectory { index: i });
            }
            i += 1;
        }
        Ok(self)
    }
}

} // verus!
