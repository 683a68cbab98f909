//! What the gateway is configured with.

use vstd::prelude::*;

verus! {

/// The longest message accepted, in bytes, unless configured otherwise.
pub const DEFAULT_MAX_MESSAGE_LEN: usize = 4000;

/// The message that asks which model answers, unless configured otherwise.
pub const MODEL_INFO_COMMAND: &'static str = "!modelinfo";

/// The gateway's settings.
#[derive(Debug, PartialEq, Eq)]
pub struct AppConfig {
    /// The base address of the completion service.
    pub llm_base_url: String,
    /// The model that the service is asked to use.
    pub llm_model_name: String,
    /// The number of requests a client may make within one window.
    pub max_requests: usize,
    /// The length of the rate-limiting window, in the unit of the clock.
    pub window: u64,
    /// The number of answers the cache holds.
    pub cache_capacity: usize,
    /// The longest message accepted, in bytes.
    pub max_message_len: usize,
    /// The message that is answered with the model's name.
    pub model_info_command: String,
}

/// An [`AppConfig`], as the contracts see it.
pub struct ConfigView {
    pub llm_base_url: Seq<char>,
    pub llm_model_name: Seq<char>,
    pub max_requests: nat,
    pub window: u64,
    pub cache_capacity: nat,
    pub max_message_len: nat,
    pub model_info_command: Seq<char>,
}

impl View for AppConfig {
    type V = ConfigView;

    open spec fn view(&self) -> ConfigView {
        ConfigView {
            llm_base_url: self.llm_base_url@,
            llm_model_name: self.llm_model_name@,
            max_requests: self.max_requests as nat,
            window: self.window,
            cache_capacity: self.cache_capacity as nat,
            max_message_len: self.max_message_len as nat,
            model_info_command: self.model_info_command@,
        }
    }
}

impl AppConfig {
    /// Settings with the usual message limit and model-info command.
    pub fn new(
        llm_base_url: String,
        llm_model_name: String,
        max_requests: usize,
        window: u64,
        cache_capacity: usize,
    ) -> (config: Self)
        ensures
            config@ == (ConfigView {
                llm_base_url: llm_base_url@,
                llm_model_name: llm_model_name@,
                max_requests: max_requests as nat,
                window,
                cache_capacity: cache_capacity as nat,
                max_message_len: DEFAULT_MAX_MESSAGE_LEN as nat,
                model_info_command: MODEL_INFO_COMMAND@,
            }),
    {
        AppConfig {
            llm_base_url,
            llm_model_name,
            max_requests,
            window,
            cache_capacity,
            max_message_len: DEFAULT_MAX_MESSAGE_LEN,
            model_info_command: MODEL_INFO_COMMAND.to_owned(),
        }
    }
}

} // verus!
