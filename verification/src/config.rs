use crate::backend::text_eq;
use crate::error::StorageError;
use vstd::prelude::*;

verus! {

/// The options with which a location is opened.
#[derive(Clone, Copy, Debug, PartialEq, Eq, Structural)]
pub struct OpenConfig {
    /// Create the location if it does not exist.
    pub create_if_missing: bool,
    /// Refuse every mutation through the handle.
    pub read_only: bool,
}

/// Whether `name` is an option that the interface recognises.
pub open spec fn recognised(name: Seq<char>) -> bool {
    name == "create_if_missing"@ || name == "read_only"@
}

/// The configuration after the first `n` option settings were applied in
/// order to the default, in which both options are off.
pub open spec fn applied(options: Seq<(&str, bool)>, n: int) -> OpenConfig
    decreases n,
{
    if n <= 0 {
        OpenConfig { create_if_missing: false, read_only: false }
    } else {
        let before = applied(options, n - 1);
        let (name, on) = options[n - 1];
        if name@ == "create_if_missing"@ {
            OpenConfig { create_if_missing: on, read_only: before.read_only }
        } else if name@ == "read_only"@ {
            OpenConfig { create_if_missing: before.create_if_missing, read_only: on }
        } else {
            before
        }
    }
}

impl OpenConfig {
    /// The configuration in which both options are off.
    pub fn new() -> (r: OpenConfig)
        ensures
            r == (OpenConfig { create_if_missing: false, read_only: false }),
    {
        OpenConfig { create_if_missing: false, read_only: false }
    }

    /// Reads a configuration from named settings. A later setting of an
    /// option replaces an earlier one. A name that is not recognised gives
    /// `InvalidConfig`.
    pub fn parse(options: &Vec<(&str, bool)>) -> (r: Result<OpenConfig, StorageError>)
        ensures
            match r {
                Ok(config) => {
                    &&& forall|i: int| 0 <= i < options@.len() ==> recognised(#[trigger] options@[i].0@)
                    &&& config == applied(options@, options@.len() as int)
                },
                Err(e) => {
                    &&& e == StorageError::InvalidConfig
                    &&& exists|i: int| 0 <= i < options@.len() && !recognised(#[trigger] options@[i].0@)
                },
            },
    {
        let mut config = OpenConfig { create_if_missing: false, read_only: false };
        let mut i: usize = 0;
        while i < options.len()
            invariant
                i <= options@.len(),
                forall|j: int| 0 <= j < i ==> recognised(#[trigger] options@[j].0@),
                config == applied(options@, i as int),
            decreases options@.len() - i,
        {
            let name: &str = options[i].0;
            let on: bool = options[i].1;
            if text_eq(name, "create_if_missing") {
                config.create_if_missing = on;
            } else if text_eq(name, "read_only") {
                config.read_only = on;
            } else {
                return Err(StorageError::InvalidConfig);
            }
            i += 1;
        }
        Ok(config)
    }
}

} // verus!
