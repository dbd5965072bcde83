//! The engine: a configuration and the base directory that relative
//! destinations are resolved under.

use crate::config::Config;
use vstd::prelude::*;
use vstd::string::*;

verus! {

pub struct Engine {
    pub config: Config,
    /// The directory being organized.
    pub base_dir: String,
    /// Whether an oracle endpoint is configured.
    pub oracle_enabled: bool,
}

impl Engine {
    /// An engine over `config`, organizing `base_dir`. The oracle is enabled
    /// exactly when the configuration names an endpoint.
    pub fn new(config: Config, base_dir: String) -> (r: Self)
        ensures
            r.config == config,
            r.base_dir == base_dir,
            r.oracle_enabled == (config.ai_api_base@.len() > 0),
    {
        let oracle_enabled = config.ai_api_base.as_str().unicode_len() != 0;
        Engine { config, base_dir, oracle_enabled }
    }
}

} // verus!
