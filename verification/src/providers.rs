//! Settings of the OpenAI-compatible model providers.
use vstd::prelude::*;

use crate::error::{llm_error, CoreError};
use crate::text::{copy_string, owned, str_chars, trim_chars, trim_spec};

verus! {

broadcast use vstd::string::group_string_axioms;

/// How an OpenAI-compatible endpoint is addressed.
pub struct CompatEndpoint {
    /// Provider id used in settings and model references.
    pub provider_id: &'static str,
    /// Name shown to the user.
    pub display_name: &'static str,
    /// Base URL of the API.
    pub base_url: &'static str,
    /// The usage report is requested with every streamed reply.
    pub include_usage: bool,
}

/// The cortecs.ai provider.
pub struct CortecsProvider {
    pub endpoint: CompatEndpoint,
}

impl CortecsProvider {
    /// The provider with its fixed endpoint.
    pub fn new() -> (p: CortecsProvider)
        ensures
            p.endpoint.provider_id@ == "cortecs"@,
            p.endpoint.display_name@ == "cortecs"@,
            p.endpoint.base_url@ == "https://api.cortecs.ai/v1"@,
            p.endpoint.include_usage,
    {
        CortecsProvider {
            endpoint: CompatEndpoint {
                provider_id: "cortecs",
                display_name: "cortecs",
                base_url: "https://api.cortecs.ai/v1",
                include_usage: true,
            },
        }
    }

    /// The provider id.
    pub fn id(&self) -> (s: &'static str)
        ensures
            s@ == "cortecs"@,
    {
        "cortecs"
    }

    /// The provider accepts tool definitions.
    pub fn supports_tools(&self) -> (b: bool)
        ensures
            b,
    {
        true
    }
}

/// The message when no endpoint is configured for the custom provider.
pub open spec fn no_endpoint_msg() -> Seq<char> {
    "Kein OpenAI-kompatibler Endpunkt konfiguriert. Bitte zuerst die Basis-URL im Einstellungen-Dialog eintragen."@
}

/// The base URL of the user's own OpenAI-compatible endpoint, as
/// configured; a missing or blank setting is refused.
pub fn custom_openai_base_url(configured: &Option<String>) -> (r: Result<String, CoreError>)
    ensures
        match configured {
            Some(u) => if trim_spec(u@).len() > 0 {
                r is Ok && r->Ok_0@ == u@
            } else {
                r is Err && llm_error(r->Err_0, no_endpoint_msg())
            },
            None => r is Err && llm_error(r->Err_0, no_endpoint_msg()),
        },
{
    match configured {
        Some(u) => {
            if trim_chars(&str_chars(u.as_str())).len() > 0 {
                return Ok(copy_string(u));
            }
        },
        None => {},
    }
    Err(
        CoreError::Llm(
            owned(
                "Kein OpenAI-kompatibler Endpunkt konfiguriert. Bitte zuerst die Basis-URL im Einstellungen-Dialog eintragen.",
            ),
        ),
    )
}

} // verus!
