//! Preflight settings: the API endpoint and timeout read from the
//! environment, and the run's size.

use vstd::prelude::*;
use crate::api::models::opt_str_view;
use crate::text::{parse_unsigned, spec_parse_unsigned};

verus! {

/// Per-request timeout in seconds when none, or no valid one, is set.
pub const DEFAULT_API_TIMEOUT_SECS: u64 = 600;

/// Where and how the chat-completions API is reached.
#[derive(Clone, Debug)]
pub struct ApiSettings {
    pub api_key: Option<String>,
    pub api_base: String,
    pub api_timeout_secs: u64,
}

/// Neither `OPENAI_API_BASE` nor `OPENAI_BASE_URL` is set.
#[derive(Clone, Copy, Debug, PartialEq, Eq, Structural)]
pub enum EnvError {
    MissingApiBase,
}

pub open spec fn spec_api_timeout(timeout_var: Option<Seq<char>>) -> u64 {
    match timeout_var {
        Some(v) => match spec_parse_unsigned(v, u64::MAX as nat) {
            Some(n) => n as u64,
            None => DEFAULT_API_TIMEOUT_SECS,
        },
        None => DEFAULT_API_TIMEOUT_SECS,
    }
}

/// Settings from the values of `OPENAI_API_KEY`, `OPENAI_API_TIMEOUT`,
/// `OPENAI_BASE_URL` and `OPENAI_API_BASE` (each `None` when unset): the key as
/// given, the timeout parsed as seconds (600 when unset or not a number), and
/// the base URL from `OPENAI_BASE_URL`, else `OPENAI_API_BASE`.
pub fn parse_environment_variables(
    api_key: Option<String>,
    api_timeout: Option<String>,
    base_url: Option<String>,
    api_base: Option<String>,
) -> (r: Result<ApiSettings, EnvError>)
    ensures
        base_url is None && api_base is None <==> r is Err,
        r matches Ok(s) ==> {
            &&& s.api_key == api_key
            &&& s.api_timeout_secs == spec_api_timeout(opt_str_view(api_timeout))
            &&& s.api_base@ == match base_url {
                Some(u) => u@,
                None => api_base.unwrap()@,
            }
        },
{
    let api_timeout_secs = match &api_timeout {
        Some(v) => match parse_unsigned(v.as_str(), u64::MAX) {
            Some(n) => n,
            None => DEFAULT_API_TIMEOUT_SECS,
        },
        None => DEFAULT_API_TIMEOUT_SECS,
    };
    let url = match base_url {
        Some(u) => u,
        None => match api_base {
            Some(u) => u,
            None => {
                return Err(EnvError::MissingApiBase);
            },
        },
    };
    Ok(ApiSettings { api_key, api_base: url, api_timeout_secs })
}

/// Steps of the progress bar: every turn of every session.
pub fn total_turns(max_num_completed_requests: u32, multi_turn: u32) -> (n: u32)
    requires
        max_num_completed_requests * multi_turn <= u32::MAX,
    ensures
        n == max_num_completed_requests * multi_turn,
{
    max_num_completed_requests * multi_turn
}

} // verus!
