//! Resolves the settings for fetching a configuration namespace and reports the
//! database address found in it: `.env` loading with precedence for values already
//! set, reading the required variables, and looking up the host and port keys.
use vstd::prelude::*;

pub mod dotenv;
pub mod env;
pub mod report;
pub mod settings;
pub mod text;

pub use dotenv::init_env_from_dotenv;
pub use env::{get_env_var, EnvVarError, EnvVars};
pub use report::{report, report_lookup, Report};
pub use settings::{load_settings, read_required_vars, RequiredVars, Settings, SettingsError};

verus! {

} // verus!
