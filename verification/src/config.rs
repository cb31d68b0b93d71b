//! The settings of the server.

use crate::text::{decimal, law_decimal_reads_back, opt_view, parse_unsigned, unsigned_value};
use vstd::prelude::*;

verus! {

/// The environment variables that the settings come from.
pub struct Environment {
    /// `VERTEX_ENDPOINT`
    pub endpoint: Option<String>,
    /// `VERTEX_REGION`
    pub region: Option<String>,
    /// `VERTEX_MODEL`
    pub model: Option<String>,
    /// `PORT`
    pub port: Option<String>,
    /// `VERTEX_MAX_OUTPUT_TOKENS`
    pub max_output_tokens: Option<String>,
}

/// The settings of the server.
pub struct Settings {
    pub endpoint: String,
    pub region: String,
    pub model: String,
    pub port: u16,
    pub max_output_tokens: u32,
}

/// The text, or else the default.
pub open spec fn text_or(text: Option<Seq<char>>, default: Seq<char>) -> Seq<char> {
    match text {
        Some(t) => t,
        None => default,
    }
}

/// The port that the variable gives; `None` where it is not a port number.
pub open spec fn port_of(variable: Option<Seq<char>>) -> Option<nat> {
    match variable {
        Some(text) => unsigned_value(text, 65535),
        None => Some(8082),
    }
}

/// The most output tokens that a request may ask for; what is not a number counts
/// as absent.
pub open spec fn output_limit(variable: Option<Seq<char>>) -> nat {
    match variable {
        Some(text) => match unsigned_value(text, 0xffff_ffff) {
            Some(n) => n,
            None => 16384,
        },
        None => 16384,
    }
}

fn copy_or(text: &Option<String>, default: &str) -> (value: String)
    ensures
        value@ == text_or(opt_view(*text), default@),
{
    match text {
        Some(t) => t.clone(),
        None => default.to_owned(),
    }
}

/// The port that the variable gives; `None` where it is not a port number.
pub fn parse_port(variable: &Option<String>) -> (port: Option<u16>)
    ensures
        match port {
            Some(n) => port_of(opt_view(*variable)) == Some(n as nat),
            None => port_of(opt_view(*variable)) is None,
        },
{
    match variable {
        Some(text) => match parse_unsigned(text.as_str(), 65535) {
            Some(n) => Some(n as u16),
            None => None,
        },
        None => Some(8082),
    }
}

fn parse_output_limit(variable: &Option<String>) -> (limit: u32)
    ensures
        limit == output_limit(opt_view(*variable)),
{
    match variable {
        Some(text) => match parse_unsigned(text.as_str(), 0xffff_ffff) {
            Some(n) => n as u32,
            None => 16384,
        },
        None => 16384,
    }
}

/// The settings that the environment gives; `None` where the port is not a number.
pub fn settings(env: &Environment) -> (settings: Option<Settings>)
    ensures
        match settings {
            Some(s) => {
                &&& port_of(opt_view(env.port)) == Some(s.port as nat)
                &&& s.endpoint@ == text_or(opt_view(env.endpoint), "aiplatform.googleapis.com"@)
                &&& s.region@ == text_or(opt_view(env.region), "global"@)
                &&& s.model@ == text_or(
                    opt_view(env.model),
                    "qwen/qwen3-235b-a22b-instruct-2507-maas"@,
                )
                &&& s.max_output_tokens == output_limit(opt_view(env.max_output_tokens))
            },
            None => port_of(opt_view(env.port)) is None,
        },
{
    let port = match parse_port(&env.port) {
        Some(n) => n,
        None => return None,
    };
    Some(
        Settings {
            endpoint: copy_or(&env.endpoint, "aiplatform.googleapis.com"),
            region: copy_or(&env.region, "global"),
            model: copy_or(&env.model, "qwen/qwen3-235b-a22b-instruct-2507-maas"),
            port,
            max_output_tokens: parse_output_limit(&env.max_output_tokens),
        },
    )
}

/// The project to use: the one from the environment, or else the one that the
/// credentials name, or else the one that is configured.
pub fn choose_project(
    env: Option<String>,
    quota: Option<String>,
    configured: Option<String>,
) -> (project: Option<String>)
    ensures
        project == match env {
            Some(p) => Some(p),
            None => match quota {
                Some(p) => Some(p),
                None => configured,
            },
        },
{
    match env {
        Some(project) => Some(project),
        None => match quota {
            Some(project) => Some(project),
            None => configured,
        },
    }
}

/// What the environment gives is used, and the default only where it gives nothing.
pub proof fn law_environment_comes_first(
    variable: Seq<char>,
    default: Seq<char>,
    n: nat,
)
    ensures
        text_or(Some(variable), default) == variable,
        text_or(None, default) == default,
        port_of(None) == Some(8082nat),
        n <= 65535 ==> port_of(Some(decimal(n))) == Some(n),
        port_of(Some(variable)) == unsigned_value(variable, 65535),
        output_limit(None) == 16384,
        n <= u32::MAX ==> output_limit(Some(decimal(n))) == n,
        unsigned_value(variable, u32::MAX as nat) is None ==> output_limit(Some(variable)) == 16384,
        unsigned_value(variable, u32::MAX as nat) matches Some(limit) ==> output_limit(
            Some(variable),
        ) == limit,
{
    if n <= u32::MAX {
        law_decimal_reads_back(n, u32::MAX as nat);
    }
    if n <= 65535 {
        law_decimal_reads_back(n, 65535);
    }
}

} // verus!
