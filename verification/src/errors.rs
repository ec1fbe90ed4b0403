//! The errors the assistant reports, and how a provider's failed response is
//! classified into one of them.
use vstd::prelude::*;

use crate::text::{concat2, concat3, contains, contains_str, lowercase, to_lowercase};
use vstd::string::StringExecFns;

verus! {

broadcast use vstd::string::group_string_axioms;

/// An error the assistant reports to the user.
#[derive(Debug)]
pub enum AicError {
    UnsupportedConfigKey(String),
    InvalidConfigValue { key: String, message: String },
    NoChanges,
    NotGitRepository,
    MissingApiKey(String),
    ModelNotFound { provider: String, model: String },
    Authentication(String),
    RateLimited(String),
    InsufficientCredits(String),
    ServiceUnavailable(String),
    EmptyMessage,
    TooManyTokens,
}

/// The mathematical value of an [`AicError`]: the same variants over
/// character sequences.
pub enum AicErrorModel {
    UnsupportedConfigKey(Seq<char>),
    InvalidConfigValue { key: Seq<char>, message: Seq<char> },
    NoChanges,
    NotGitRepository,
    MissingApiKey(Seq<char>),
    ModelNotFound { provider: Seq<char>, model: Seq<char> },
    Authentication(Seq<char>),
    RateLimited(Seq<char>),
    InsufficientCredits(Seq<char>),
    ServiceUnavailable(Seq<char>),
    EmptyMessage,
    TooManyTokens,
}

impl View for AicError {
    type V = AicErrorModel;

    open spec fn view(&self) -> AicErrorModel {
        match self {
            AicError::UnsupportedConfigKey(k) => AicErrorModel::UnsupportedConfigKey(k@),
            AicError::InvalidConfigValue { key, message } => AicErrorModel::InvalidConfigValue {
                key: key@,
                message: message@,
            },
            AicError::NoChanges => AicErrorModel::NoChanges,
            AicError::NotGitRepository => AicErrorModel::NotGitRepository,
            AicError::MissingApiKey(p) => AicErrorModel::MissingApiKey(p@),
            AicError::ModelNotFound { provider, model } => AicErrorModel::ModelNotFound {
                provider: provider@,
                model: model@,
            },
            AicError::Authentication(p) => AicErrorModel::Authentication(p@),
            AicError::RateLimited(p) => AicErrorModel::RateLimited(p@),
            AicError::InsufficientCredits(p) => AicErrorModel::InsufficientCredits(p@),
            AicError::ServiceUnavailable(p) => AicErrorModel::ServiceUnavailable(p@),
            AicError::EmptyMessage => AicErrorModel::EmptyMessage,
            AicError::TooManyTokens => AicErrorModel::TooManyTokens,
        }
    }
}

/// The text shown for an error.
pub open spec fn error_message(e: AicErrorModel) -> Seq<char> {
    match e {
        AicErrorModel::UnsupportedConfigKey(k) => "unsupported config key: "@ + k,
        AicErrorModel::InvalidConfigValue { key, message } => "invalid value for "@ + key + ": "@
            + message,
        AicErrorModel::NoChanges => "no changes detected"@,
        AicErrorModel::NotGitRepository => "not a git repository"@,
        AicErrorModel::MissingApiKey(p) => "API key is missing for provider '"@ + p + "'"@,
        AicErrorModel::ModelNotFound { provider, model } => "model '"@ + model
            + "' is not available for provider '"@ + provider + "'"@,
        AicErrorModel::Authentication(p) => "authentication failed for provider '"@ + p + "'"@,
        AicErrorModel::RateLimited(p) => "rate limit exceeded for provider '"@ + p + "'"@,
        AicErrorModel::InsufficientCredits(p) => "insufficient credits or quota for provider '"@
            + p + "'"@,
        AicErrorModel::ServiceUnavailable(p) => "service unavailable for provider '"@ + p + "'"@,
        AicErrorModel::EmptyMessage => "AI provider returned an empty response"@,
        AicErrorModel::TooManyTokens => "diff is too large for the configured token limits - raise AIC_TOKENS_MAX_INPUT or exclude bulky files via .aicommitignore"@,
    }
}

impl AicError {
    /// The text shown for this error.
    pub fn message(&self) -> (r: String)
        ensures
            r@ == error_message(self@),
    {
        match self {
            AicError::UnsupportedConfigKey(k) => concat2("unsupported config key: ", k.as_str()),
            AicError::InvalidConfigValue { key, message } => {
                let mut r = concat3("invalid value for ", key.as_str(), ": ");
                r.append(message.as_str());
                r
            },
            AicError::NoChanges => String::from_str("no changes detected"),
            AicError::NotGitRepository => String::from_str("not a git repository"),
            AicError::MissingApiKey(p) => concat3(
                "API key is missing for provider '",
                p.as_str(),
                "'",
            ),
            AicError::ModelNotFound { provider, model } => {
                let mut r = concat3(
                    "model '",
                    model.as_str(),
                    "' is not available for provider '",
                );
                r.append(provider.as_str());
                r.append("'");
                r
            },
            AicError::Authentication(p) => concat3(
                "authentication failed for provider '",
                p.as_str(),
                "'",
            ),
            AicError::RateLimited(p) => concat3(
                "rate limit exceeded for provider '",
                p.as_str(),
                "'",
            ),
            AicError::InsufficientCredits(p) => concat3(
                "insufficient credits or quota for provider '",
                p.as_str(),
                "'",
            ),
            AicError::ServiceUnavailable(p) => concat3(
                "service unavailable for provider '",
                p.as_str(),
                "'",
            ),
            AicError::EmptyMessage => String::from_str("AI provider returned an empty response"),
            AicError::TooManyTokens => String::from_str(
                "diff is too large for the configured token limits - raise AIC_TOKENS_MAX_INPUT or exclude bulky files via .aicommitignore",
            ),
        }
    }
}

/// A lower-cased response body says the prompt exceeded the context size.
pub open spec fn mentions_context_overflow(lower: Seq<char>) -> bool {
    ||| contains(lower, "prompt is too long"@)
    ||| contains(lower, "prompt too long"@)
    ||| contains(lower, "context length"@)
    ||| contains(lower, "context window"@)
    ||| contains(lower, "maximum context"@)
    ||| contains(lower, "too many tokens"@)
    ||| contains(lower, "request too large"@)
    ||| contains(lower, "input is too long"@)
}

/// A lower-cased response body says the model is missing or invalid (and is
/// not a context-size complaint that merely names the model).
pub open spec fn mentions_model_problem(lower: Seq<char>) -> bool {
    &&& !mentions_context_overflow(lower)
    &&& contains(lower, "model"@)
    &&& (contains(lower, "not found"@) || contains(lower, "does not exist"@) || contains(
        lower,
        "invalid"@,
    ) || contains(lower, "pull"@))
}

/// A lower-cased response body points at the API key.
pub open spec fn mentions_authentication(lower: Seq<char>) -> bool {
    contains(lower, "api key"@) || contains(lower, "apikey"@) || contains(lower, "authentication"@)
        || contains(lower, "unauthorized"@)
}

/// A lower-cased response body points at rate limiting.
pub open spec fn mentions_rate_limit(lower: Seq<char>) -> bool {
    contains(lower, "rate limit"@) || contains(lower, "too many requests"@)
}

/// A lower-cased response body points at billing.
pub open spec fn mentions_billing(lower: Seq<char>) -> bool {
    contains(lower, "credit"@) || contains(lower, "quota"@) || contains(lower, "billing"@)
        || contains(lower, "payment"@)
}

/// The error for a failed provider response, given its lower-cased body:
/// first by HTTP status, then by what the body mentions.
pub open spec fn provider_error(
    provider: Seq<char>,
    model: Seq<char>,
    status: Option<u16>,
    body: Seq<char>,
    lower: Seq<char>,
) -> AicErrorModel {
    if status == Some(401u16) {
        AicErrorModel::Authentication(provider)
    } else if status == Some(402u16) {
        AicErrorModel::InsufficientCredits(provider)
    } else if status == Some(404u16) && mentions_model_problem(lower) {
        AicErrorModel::ModelNotFound { provider, model }
    } else if status == Some(413u16) {
        AicErrorModel::TooManyTokens
    } else if status == Some(429u16) {
        AicErrorModel::RateLimited(provider)
    } else if status matches Some(code) && 500 <= code <= 599 {
        AicErrorModel::ServiceUnavailable(provider)
    } else if mentions_context_overflow(lower) {
        AicErrorModel::TooManyTokens
    } else if mentions_model_problem(lower) {
        AicErrorModel::ModelNotFound { provider, model }
    } else if mentions_authentication(lower) {
        AicErrorModel::Authentication(provider)
    } else if mentions_rate_limit(lower) {
        AicErrorModel::RateLimited(provider)
    } else if mentions_billing(lower) {
        AicErrorModel::InsufficientCredits(provider)
    } else {
        AicErrorModel::ServiceUnavailable(provider + ": "@ + body)
    }
}

/// Whether a lower-cased body says the prompt exceeded the context size.
pub fn mentions_context_overflow_in(lower: &str) -> (r: bool)
    ensures
        r == mentions_context_overflow(lower@),
{
    contains_str(lower, "prompt is too long") || contains_str(lower, "prompt too long")
        || contains_str(lower, "context length") || contains_str(lower, "context window")
        || contains_str(lower, "maximum context") || contains_str(lower, "too many tokens")
        || contains_str(lower, "request too large") || contains_str(lower, "input is too long")
}

/// Whether a lower-cased body says the model is missing or invalid.
pub fn mentions_model_problem_in(lower: &str) -> (r: bool)
    ensures
        r == mentions_model_problem(lower@),
{
    !mentions_context_overflow_in(lower) && contains_str(lower, "model") && (contains_str(
        lower,
        "not found",
    ) || contains_str(lower, "does not exist") || contains_str(lower, "invalid") || contains_str(
        lower,
        "pull",
    ))
}

/// Classifies a failed provider response whose body, lower-cased, is
/// `lower`.
pub fn classify_provider_error(
    provider: &str,
    model: &str,
    status: Option<u16>,
    body: &str,
    lower: &str,
) -> (r: AicError)
    ensures
        r@ == provider_error(provider@, model@, status, body@, lower@),
{
    match status {
        Some(401) => return AicError::Authentication(String::from_str(provider)),
        Some(402) => return AicError::InsufficientCredits(String::from_str(provider)),
        Some(404) => {
            if mentions_model_problem_in(lower) {
                return AicError::ModelNotFound {
                    provider: String::from_str(provider),
                    model: String::from_str(model),
                };
            }
        },
        Some(413) => return AicError::TooManyTokens,
        Some(429) => return AicError::RateLimited(String::from_str(provider)),
        Some(code) => {
            if 500 <= code && code <= 599 {
                return AicError::ServiceUnavailable(String::from_str(provider));
            }
        },
        None => {},
    }
    if mentions_context_overflow_in(lower) {
        AicError::TooManyTokens
    } else if mentions_model_problem_in(lower) {
        AicError::ModelNotFound {
            provider: String::from_str(provider),
            model: String::from_str(model),
        }
    } else if contains_str(lower, "api key") || contains_str(lower, "apikey") || contains_str(
        lower,
        "authentication",
    ) || contains_str(lower, "unauthorized") {
        AicError::Authentication(String::from_str(provider))
    } else if contains_str(lower, "rate limit") || contains_str(lower, "too many requests") {
        AicError::RateLimited(String::from_str(provider))
    } else if contains_str(lower, "credit") || contains_str(lower, "quota") || contains_str(
        lower,
        "billing",
    ) || contains_str(lower, "payment") {
        AicError::InsufficientCredits(String::from_str(provider))
    } else {
        AicError::ServiceUnavailable(concat3(provider, ": ", body))
    }
}

/// Maps a failed provider response (HTTP status, if any, and body) to the
/// error reported to the user; the body is matched case-insensitively.
pub fn normalize_provider_error(
    provider: &str,
    model: &str,
    status: Option<u16>,
    body: &str,
) -> (r: AicError)
    ensures
        r@ == provider_error(provider@, model@, status, body@, lowercase(body@)),
{
    let lower = to_lowercase(body);
    classify_provider_error(provider, model, status, body, lower.as_str())
}

/// A body that complains about the context size is never reported as a
/// missing model, whatever the status.
pub proof fn law_context_overflow_is_never_missing_model(
    provider: Seq<char>,
    model: Seq<char>,
    status: Option<u16>,
    body: Seq<char>,
    lower: Seq<char>,
)
    requires
        mentions_context_overflow(lower),
    ensures
        !(provider_error(provider, model, status, body, lower) is ModelNotFound),
{
}

/// A context-size complaint is reported as the diff being too large unless
/// the status already names authentication, billing, rate limiting or an
/// outage.
pub proof fn law_context_overflow_is_too_many_tokens(
    provider: Seq<char>,
    model: Seq<char>,
    status: Option<u16>,
    body: Seq<char>,
    lower: Seq<char>,
)
    requires
        mentions_context_overflow(lower),
        status != Some(401u16),
        status != Some(402u16),
        status != Some(429u16),
        !(status matches Some(code) && 500 <= code <= 599),
    ensures
        provider_error(provider, model, status, body, lower) == AicErrorModel::TooManyTokens,
{
}

/// HTTP 413 (payload too large) always means the diff is too large.
pub proof fn law_payload_too_large_is_too_many_tokens(
    provider: Seq<char>,
    model: Seq<char>,
    body: Seq<char>,
    lower: Seq<char>,
)
    ensures
        provider_error(provider, model, Some(413u16), body, lower) == AicErrorModel::TooManyTokens,
{
}

/// A status that does not decide the error on its own: not 401, 402, 413,
/// 429 or 5xx (a 404 decides only when the body names a model problem).
pub open spec fn undecided_status(status: Option<u16>) -> bool {
    &&& status != Some(401u16)
    &&& status != Some(402u16)
    &&& status != Some(413u16)
    &&& status != Some(429u16)
    &&& !(status matches Some(code) && 500 <= code <= 599)
}

/// The statuses that decide on their own: 401 is an authentication failure,
/// 402 and 429 are billing and rate limiting, and a 5xx is the service being
/// unavailable, whatever the body says.
pub proof fn law_deciding_statuses(
    provider: Seq<char>,
    model: Seq<char>,
    body: Seq<char>,
    lower: Seq<char>,
    code: u16,
)
    ensures
        provider_error(provider, model, Some(401u16), body, lower)
            == AicErrorModel::Authentication(provider),
        provider_error(provider, model, Some(402u16), body, lower)
            == AicErrorModel::InsufficientCredits(provider),
        provider_error(provider, model, Some(429u16), body, lower) == AicErrorModel::RateLimited(
            provider,
        ),
        500 <= code <= 599 ==> provider_error(provider, model, Some(code), body, lower)
            == AicErrorModel::ServiceUnavailable(provider),
{
}

/// A body that speaks of the API key or of authentication, and of no
/// context overflow or model problem, is an authentication failure when the
/// status does not decide.
pub proof fn law_authentication_body(
    provider: Seq<char>,
    model: Seq<char>,
    status: Option<u16>,
    body: Seq<char>,
    lower: Seq<char>,
)
    requires
        undecided_status(status),
        contains(lower, "api key"@) || contains(lower, "apikey"@) || contains(
            lower,
            "authentication"@,
        ) || contains(lower, "unauthorized"@),
        !mentions_context_overflow(lower),
        !mentions_model_problem(lower),
    ensures
        provider_error(provider, model, status, body, lower) == AicErrorModel::Authentication(
            provider,
        ),
{
}

/// A body that speaks of rate limits or too many requests, and of nothing
/// checked before (context overflow, a model problem, authentication), is
/// rate limiting when the status does not decide.
pub proof fn law_rate_limit_body(
    provider: Seq<char>,
    model: Seq<char>,
    status: Option<u16>,
    body: Seq<char>,
    lower: Seq<char>,
)
    requires
        undecided_status(status),
        contains(lower, "rate limit"@) || contains(lower, "too many requests"@),
        !mentions_context_overflow(lower),
        !mentions_model_problem(lower),
        !contains(lower, "api key"@),
        !contains(lower, "apikey"@),
        !contains(lower, "authentication"@),
        !contains(lower, "unauthorized"@),
    ensures
        provider_error(provider, model, status, body, lower) == AicErrorModel::RateLimited(
            provider,
        ),
{
}

/// A body that speaks of credit, quota, billing or payment, and of nothing
/// checked before (context overflow, a model problem, authentication, rate
/// limits), is reported as insufficient credits when the status does not
/// decide.
pub proof fn law_billing_body(
    provider: Seq<char>,
    model: Seq<char>,
    status: Option<u16>,
    body: Seq<char>,
    lower: Seq<char>,
)
    requires
        undecided_status(status),
        contains(lower, "credit"@) || contains(lower, "quota"@) || contains(lower, "billing"@)
            || contains(lower, "payment"@),
        !mentions_context_overflow(lower),
        !mentions_model_problem(lower),
        !contains(lower, "api key"@),
        !contains(lower, "apikey"@),
        !contains(lower, "authentication"@),
        !contains(lower, "unauthorized"@),
        !contains(lower, "rate limit"@),
        !contains(lower, "too many requests"@),
    ensures
        provider_error(provider, model, status, body, lower)
            == AicErrorModel::InsufficientCredits(provider),
{
}

/// A body that names none of the known problems, under a status that does
/// not decide, is reported as the service being unavailable, with the
/// provider and the body as they came.
pub proof fn law_unknown_body(
    provider: Seq<char>,
    model: Seq<char>,
    status: Option<u16>,
    body: Seq<char>,
    lower: Seq<char>,
)
    requires
        undecided_status(status),
        !mentions_context_overflow(lower),
        !mentions_model_problem(lower),
        !contains(lower, "api key"@),
        !contains(lower, "apikey"@),
        !contains(lower, "authentication"@),
        !contains(lower, "unauthorized"@),
        !contains(lower, "rate limit"@),
        !contains(lower, "too many requests"@),
        !contains(lower, "credit"@),
        !contains(lower, "quota"@),
        !contains(lower, "billing"@),
        !contains(lower, "payment"@),
    ensures
        provider_error(provider, model, status, body, lower)
            == AicErrorModel::ServiceUnavailable(provider + ": "@ + body),
{
}

} // verus!
