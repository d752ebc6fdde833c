//! The tuning values of the engine.

use vstd::prelude::*;

verus! {

/// The values that a configuration may set; what it leaves out is `None`
/// and for the host to decide.
#[derive(Clone, Copy, Debug, PartialEq, Eq, Structural)]
pub struct Config {
    /// How many committed texts a session keeps.
    pub buffer_size: Option<usize>,
    /// How many candidates the host shows at once.
    pub page_size: Option<usize>,
    /// Whether the exact match is committed without asking.
    pub auto_commit: Option<bool>,
}

impl Config {
    /// The values of a configuration's core section, given as buffer size,
    /// page size and auto-commit; without the section none is set.
    pub fn new(core: Option<(Option<usize>, Option<usize>, Option<bool>)>) -> (config: Config)
        ensures
            config == match core {
                Some(values) => (Config {
                    buffer_size: values.0,
                    page_size: values.1,
                    auto_commit: values.2,
                }),
                None => (Config { buffer_size: None, page_size: None, auto_commit: None }),
            },
    {
        match core {
            Some((buffer_size, page_size, auto_commit)) => Config {
                buffer_size,
                page_size,
                auto_commit,
            },
            None => Config { buffer_size: None, page_size: None, auto_commit: None },
        }
    }
}

} // verus!
