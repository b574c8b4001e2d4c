//! The configuration that the host hands to the worker.

use vstd::prelude::*;
use crate::supervisor::{build_args, string_views, worker_args};

verus! {

/// Who the worker signs up as.
#[derive(Debug)]
pub struct Credentials {
    pub first_name: String,
    pub last_name: String,
    pub email: String,
    pub country_code: String,
    pub phone: String,
}

/// The keys of the services that the worker calls.
#[derive(Debug)]
pub struct APIKeys {
    pub openai: String,
    pub captcha: String,
}

/// How the worker goes about its work.
#[derive(Debug)]
pub struct Settings {
    pub data_source: String,
    pub csv_path: String,
    pub meta_keywords: String,
    pub ad_limit: i32,
    pub max_signups: i32,
    pub headless: bool,
    pub debug: bool,
    pub min_delay: i32,
    pub max_delay: i32,
    pub llm_model: String,
    pub batch_planning: bool,
}

/// The whole configuration of a run.
#[derive(Debug)]
pub struct BotConfig {
    pub credentials: Credentials,
    pub api_keys: APIKeys,
    pub settings: Settings,
}

/// The name of the file in which the worker finds its configuration.
pub const CONFIG_FILE: &'static str = "bot_config.json";

/// The name of the file in which the host keeps the configuration between
/// runs.
pub const SETTINGS_FILE: &'static str = "settings.json";

/// The name of the file whose presence asks the worker to stop.
pub const STOP_SIGNAL_FILE: &'static str = "stop_signal.txt";

/// What the host writes into the file that asks the worker to stop.
pub const STOP_SIGNAL_TEXT: &'static str = "stop";

/// The name of the file that holds the store.
pub const DATABASE_FILE: &'static str = "inboxhunter.db";

impl BotConfig {
    /// The arguments of a worker that runs with this configuration, which
    /// it finds in the file `config_path`: the file, then the flags that
    /// the settings ask for.
    pub fn launch_args(&self, config_path: &str) -> (args: Vec<String>)
        ensures
            string_views(args@) == worker_args(
                config_path@,
                self.settings.debug,
                self.settings.headless,
            ),
    {
        build_args(config_path, self.settings.debug, self.settings.headless)
    }
}

} // verus!
