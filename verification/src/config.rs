//! Runtime configuration handed to the backtesting driver.

use vstd::prelude::*;

verus! {

/// Paths and credentials used by the surrounding program; the simulation
/// core only carries them along.
#[derive(Clone, Debug)]
pub struct Config {
    pub db_path: String,
    pub portfolio_path: String,
    pub finmind_token: String,
}

impl core::default::Default for Config {
    fn default() -> (r: Config)
        ensures
            r.db_path@.len() == 0,
            r.portfolio_path@.len() == 0,
            r.finmind_token@.len() == 0,
    {
        Config { db_path: String::new(), portfolio_path: String::new(), finmind_token: String::new() }
    }
}

} // verus!
