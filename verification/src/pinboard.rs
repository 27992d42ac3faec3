//! Remote-API error taxonomy and response classification.
//!
//! Every failed call is classified as retryable or terminal, with an
//! optional server-suggested retry delay; response bodies are inspected for
//! a result code, tolerating the non-JSON error text the API sometimes
//! returns.

use vstd::prelude::*;
use vstd::string::StrSliceExecFns;
use crate::bookmark::{BookmarkPayload, BookmarkPayloadView, SubmitIntent};
use crate::text::{
    ascii_lower_chars, ascii_lower_seq, chars_of, contains_seq, contains_str,
    eq_ignore_ascii_case_str, find_spec, find_str, join_spaces, join_spaces_spec,
    parse_positive_i64, parse_positive_i64_spec, string_from_chars, subvec, trim_chars, trim_spec,
};

verus! {

/// Default cooldown, in seconds, when the server rate-limits a call
/// without naming a usable delay.
pub const DEFAULT_RETRY_AFTER_SECS: i64 = 30;

/// Minimum spacing between any two outbound calls, in milliseconds: the
/// remote service must never observe requests closer than this, whoever
/// the logical caller is.
pub const MIN_CALL_INTERVAL_MILLIS: u64 = 3000;

/// The remainder of the minimum interval after `elapsed_millis` have
/// passed since the previous outbound call.
pub open spec fn rate_limit_wait_spec(elapsed_millis: u64) -> u64 {
    if elapsed_millis >= MIN_CALL_INTERVAL_MILLIS {
        0
    } else {
        (MIN_CALL_INTERVAL_MILLIS - elapsed_millis) as u64
    }
}

/// How long an outbound call must still sleep before it may proceed.
pub fn rate_limit_wait_millis(elapsed_millis: u64) -> (wait: u64)
    ensures
        wait == rate_limit_wait_spec(elapsed_millis),
        elapsed_millis + wait >= MIN_CALL_INTERVAL_MILLIS,
{
    if elapsed_millis >= MIN_CALL_INTERVAL_MILLIS {
        0
    } else {
        MIN_CALL_INTERVAL_MILLIS - elapsed_millis
    }
}

/// One classified failure of a remote call.
#[derive(Clone, Debug, PartialEq)]
pub enum PinboardError {
    /// Transport-level failure: connect, timeout, DNS.
    Network { message: String },
    /// The response body could not be understood.
    InvalidResponse { message: String },
    /// The server asked for a cooldown, explicitly or by status 429.
    RateLimited { retry_after_secs: i64, message: String },
    /// Any other non-2xx status.
    Http { status: u16, message: String },
    /// An application-level rejection code in a 2xx response.
    Api { code: String, retryable: bool },
}

/// Mathematical image of a [`PinboardError`].
#[verifier::ext_equal]
pub enum PinboardErrorView {
    Network { message: Seq<char> },
    InvalidResponse { message: Seq<char> },
    RateLimited { retry_after_secs: i64, message: Seq<char> },
    Http { status: u16, message: Seq<char> },
    Api { code: Seq<char>, retryable: bool },
}

impl View for PinboardError {
    type V = PinboardErrorView;

    open spec fn view(&self) -> PinboardErrorView {
        match self {
            PinboardError::Network { message } => PinboardErrorView::Network { message: message@ },
            PinboardError::InvalidResponse { message } => PinboardErrorView::InvalidResponse {
                message: message@,
            },
            PinboardError::RateLimited { retry_after_secs, message } =>
                PinboardErrorView::RateLimited {
                retry_after_secs: *retry_after_secs,
                message: message@,
            },
            PinboardError::Http { status, message } => PinboardErrorView::Http {
                status: *status,
                message: message@,
            },
            PinboardError::Api { code, retryable } => PinboardErrorView::Api {
                code: code@,
                retryable: *retryable,
            },
        }
    }
}

/// Which classifications may be retried: network, unparseable-response and
/// rate-limit failures always; other HTTP failures only for 408, 425, 429
/// or a 5xx status; application codes as classified.
pub open spec fn is_retryable_spec(e: PinboardErrorView) -> bool {
    match e {
        PinboardErrorView::Network { .. } => true,
        PinboardErrorView::InvalidResponse { .. } => true,
        PinboardErrorView::RateLimited { .. } => true,
        PinboardErrorView::Http { status, .. } => status == 408 || status == 425 || status == 429
            || status >= 500,
        PinboardErrorView::Api { retryable, .. } => retryable,
    }
}

/// The server-suggested cooldown carried by a classification, if any.
pub open spec fn retry_after_secs_spec(e: PinboardErrorView) -> Option<i64> {
    match e {
        PinboardErrorView::RateLimited { retry_after_secs, .. } => Some(retry_after_secs),
        PinboardErrorView::Http { status, .. } => if status == 429 {
            Some(DEFAULT_RETRY_AFTER_SECS)
        } else {
            None
        },
        _ => None,
    }
}

/// The human-readable text carried by a classification.
pub open spec fn message_for_user_spec(e: PinboardErrorView) -> Seq<char> {
    match e {
        PinboardErrorView::Network { message } => message,
        PinboardErrorView::InvalidResponse { message } => message,
        PinboardErrorView::RateLimited { message, .. } => message,
        PinboardErrorView::Http { message, .. } => message,
        PinboardErrorView::Api { code, .. } => code,
    }
}

impl PinboardError {
    pub fn is_retryable(&self) -> (r: bool)
        ensures
            r == is_retryable_spec(self@),
    {
        match self {
            PinboardError::Network { .. } => true,
            PinboardError::InvalidResponse { .. } => true,
            PinboardError::RateLimited { .. } => true,
            PinboardError::Http { status, .. } => *status == 408 || *status == 425 || *status
                == 429 || *status >= 500,
            PinboardError::Api { retryable, .. } => *retryable,
        }
    }

    pub fn retry_after_secs(&self) -> (r: Option<i64>)
        ensures
            r == retry_after_secs_spec(self@),
    {
        match self {
            PinboardError::RateLimited { retry_after_secs, .. } => Some(*retry_after_secs),
            PinboardError::Http { status, .. } => if *status == 429 {
                Some(DEFAULT_RETRY_AFTER_SECS)
            } else {
                None
            },
            _ => None,
        }
    }

    pub fn message_for_user(&self) -> (r: String)
        ensures
            r@ == message_for_user_spec(self@),
    {
        match self {
            PinboardError::Network { message } => message.clone(),
            PinboardError::InvalidResponse { message } => message.clone(),
            PinboardError::RateLimited { message, .. } => message.clone(),
            PinboardError::Http { message, .. } => message.clone(),
            PinboardError::Api { code, .. } => code.clone(),
        }
    }
}

/// The bare `code="..."` marker the API sometimes embeds in non-JSON error
/// text: the characters between the first such marker and the next quote.
pub open spec fn extract_code_from_text_spec(s: Seq<char>) -> Option<Seq<char>> {
    match find_spec(s, "code=\""@) {
        None => None,
        Some(i) => {
            let rest = s.skip(i + "code=\""@.len());
            match find_spec(rest, "\""@) {
                None => None,
                Some(e) => Some(rest.take(e)),
            }
        },
    }
}

fn extract_code_chars(v: &Vec<char>) -> (r: Option<Vec<char>>)
    ensures
        match r {
            Some(c) => extract_code_from_text_spec(v@) == Some(c@),
            None => extract_code_from_text_spec(v@) is None,
        },
{
    let marker = "code=\"";
    let m = marker.unicode_len();
    match find_str(v, marker) {
        None => None,
        Some(i) => {
            let vl = v.len();
            assert(i + m <= vl);
            let rest = subvec(v, i + m, vl);
            proof {
                assert(rest@ =~= v@.skip(i + m));
            }
            match find_str(&rest, "\"") {
                None => None,
                Some(e) => {
                    proof {
                        reveal_strlit("\"");
                        assert(e + 1 <= rest@.len());
                        assert(rest@.subrange(0, e as int) =~= rest@.take(e as int));
                    }
                    Some(subvec(&rest, 0, e))
                },
            }
        },
    }
}

/// Pulls a bare `code="..."` marker out of non-structured response text.
pub fn extract_result_code_from_text(text: &str) -> (r: Option<String>)
    ensures
        r.deep_view() == extract_code_from_text_spec(text@),
{
    let chars = chars_of(text);
    match extract_code_chars(&chars) {
        Some(c) => Some(string_from_chars(&c)),
        None => None,
    }
}

/// Rate-limit codes: the code mentions rating or too many requests.
pub open spec fn code_is_rate_limit(lower: Seq<char>) -> bool {
    contains_seq(lower, "rate"@) || contains_seq(lower, "too many requests"@)
}

/// Markers of a permanent rejection.
pub open spec fn code_has_non_retryable_marker(lower: Seq<char>) -> bool {
    contains_seq(lower, "item already exists"@) || contains_seq(lower, "invalid"@) || contains_seq(
        lower,
        "missing"@,
    ) || contains_seq(lower, "not found"@) || contains_seq(lower, "forbidden"@) || contains_seq(
        lower,
        "unauthorized"@,
    ) || contains_seq(lower, "auth"@)
}

/// Markers of a transient server fault, which override a permanent-looking
/// code back to retryable.
pub open spec fn code_has_transient_marker(lower: Seq<char>) -> bool {
    contains_seq(lower, "something went wrong"@) || contains_seq(lower, "temporar"@)
        || contains_seq(lower, "timeout"@) || contains_seq(lower, "unavailable"@)
}

/// Classification of an application-level rejection code, compared in
/// ASCII lower case: rate-limit codes become [`PinboardErrorView::RateLimited`]
/// with the default cooldown; a code is non-retryable only when it carries a
/// permanent-rejection marker and no transient-fault marker.
pub open spec fn classify_api_code_spec(code: Seq<char>) -> PinboardErrorView {
    let lower = ascii_lower_seq(code);
    if code_is_rate_limit(lower) {
        PinboardErrorView::RateLimited {
            retry_after_secs: DEFAULT_RETRY_AFTER_SECS,
            message: code,
        }
    } else {
        PinboardErrorView::Api {
            code,
            retryable: !code_has_non_retryable_marker(lower) || code_has_transient_marker(lower),
        }
    }
}

/// Classifies an application-level rejection code.
pub fn classify_api_code(code: &str) -> (e: PinboardError)
    ensures
        e@ == classify_api_code_spec(code@),
{
    let chars = chars_of(code);
    let lower = ascii_lower_chars(&chars);
    if contains_str(&lower, "rate") || contains_str(&lower, "too many requests") {
        return PinboardError::RateLimited {
            retry_after_secs: DEFAULT_RETRY_AFTER_SECS,
            message: code.to_owned(),
        };
    }
    let non_retryable = contains_str(&lower, "item already exists") || contains_str(
        &lower,
        "invalid",
    ) || contains_str(&lower, "missing") || contains_str(&lower, "not found") || contains_str(
        &lower,
        "forbidden",
    ) || contains_str(&lower, "unauthorized") || contains_str(&lower, "auth");
    let retryable = !non_retryable || contains_str(&lower, "something went wrong") || contains_str(
        &lower,
        "temporar",
    ) || contains_str(&lower, "timeout") || contains_str(&lower, "unavailable");
    PinboardError::Api { code: code.to_owned(), retryable }
}

/// Newlines and carriage returns collapsed to spaces.
pub open spec fn collapse_newlines(s: Seq<char>) -> Seq<char> {
    s.map_values(
        |c: char|
            if c == '\n' || c == '\r' {
                ' '
            } else {
                c
            },
    )
}

/// Bounded error text: newlines collapsed, and anything longer than 220
/// characters cut there with a trailing ellipsis.
pub open spec fn truncate_for_error_spec(s: Seq<char>) -> Seq<char> {
    let clean = collapse_newlines(s);
    if clean.len() <= 220 {
        clean
    } else {
        clean.take(220) + "..."@
    }
}

fn truncate_chars(v: &Vec<char>) -> (r: Vec<char>)
    ensures
        r@ == truncate_for_error_spec(v@),
{
    let mut clean: Vec<char> = Vec::new();
    let mut i: usize = 0;
    while i < v.len()
        invariant
            i <= v@.len(),
            clean@ == collapse_newlines(v@.take(i as int)),
        decreases v@.len() - i,
    {
        let c = v[i];
        if c == '\n' || c == '\r' {
            clean.push(' ');
        } else {
            clean.push(c);
        }
        proof {
            assert(collapse_newlines(v@.take(i + 1 as int)) =~= collapse_newlines(
                v@.take(i as int),
            ).push(
                if v@[i as int] == '\n' || v@[i as int] == '\r' {
                    ' '
                } else {
                    v@[i as int]
                },
            ));
        }
        i += 1;
    }
    proof {
        assert(v@.take(v@.len() as int) =~= v@);
    }
    if clean.len() <= 220 {
        clean
    } else {
        let mut t = subvec(&clean, 0, 220);
        t.push('.');
        t.push('.');
        t.push('.');
        proof {
            reveal_strlit("...");
            assert(clean@.subrange(0, 220) =~= collapse_newlines(v@).take(220));
            assert(t@ =~= collapse_newlines(v@).take(220) + "..."@);
        }
        t
    }
}

/// Bounds a raw body for display or persistence.
pub fn truncate_for_error(text: &str) -> (r: String)
    ensures
        r@ == truncate_for_error_spec(text@),
{
    let chars = chars_of(text);
    let t = truncate_chars(&chars);
    string_from_chars(&t)
}

/// What reading a body as JSON yields: nothing when the body is not valid
/// JSON; otherwise the result-code field (`result_code`, `code` or
/// `result`, first present, when it is a string) and the error field
/// (`error` or `message`, when it is a string). A function of the body
/// text alone.
pub uninterp spec fn json_fields_of(s: Seq<char>) -> Option<(Option<Seq<char>>, Option<Seq<char>>)>;

/// Relies on serde_json::from_str and serde_json::Value's `get` and
/// `as_str`: the parse outcome and the fields read depend on the body text
/// alone.
#[verifier::external_body]
fn json_fields(body: &str) -> (r: Option<(Option<String>, Option<String>)>)
    ensures
        r.deep_view() == json_fields_of(body@),
{
    let value: serde_json::Value = match serde_json::from_str(body) {
        Ok(v) => v,
        Err(_) => return None,
    };
    let code = value.get("result_code").or_else(|| value.get("code")).or_else(
        || value.get("result"),
    ).and_then(serde_json::Value::as_str).map(str::to_string);
    let error = value.get("error").or_else(|| value.get("message")).and_then(
        serde_json::Value::as_str,
    ).map(str::to_string);
    Some((code, error))
}

/// Last resort for an error message: a bare code marker in the text, else
/// the bounded raw text.
pub open spec fn fallback_message_spec(t: Seq<char>) -> Seq<char> {
    match extract_code_from_text_spec(t) {
        Some(c) => c,
        None => truncate_for_error_spec(t),
    }
}

fn fallback_message(t: &Vec<char>) -> (r: String)
    ensures
        r@ == fallback_message_spec(t@),
{
    match extract_code_chars(t) {
        Some(c) => string_from_chars(&c),
        None => {
            let tr = truncate_chars(t);
            string_from_chars(&tr)
        },
    }
}

/// The human-readable message drawn from a failed response body: the
/// trimmed body's result code or error field when it is JSON, else a bare
/// code marker, else the bounded raw text; an empty body is named as such.
pub open spec fn extract_error_message_spec(body: Seq<char>) -> Seq<char> {
    let t = trim_spec(body);
    if t.len() == 0 {
        "empty response body"@
    } else {
        match json_fields_of(t) {
            Some(fields) => match fields.0 {
                Some(code) => code,
                None => match fields.1 {
                    Some(error) => error,
                    None => fallback_message_spec(t),
                },
            },
            None => fallback_message_spec(t),
        }
    }
}

/// Draws a displayable message out of a failed response body.
pub fn extract_error_message(body: &str) -> (r: String)
    ensures
        r@ == extract_error_message_spec(body@),
{
    let chars = chars_of(body);
    let t = trim_chars(&chars);
    if t.len() == 0 {
        return "empty response body".to_owned();
    }
    let t_str = string_from_chars(&t);
    match json_fields(t_str.as_str()) {
        Some(fields) => match fields {
            (Some(code), _) => code,
            (None, Some(error)) => error,
            (None, None) => fallback_message(&t),
        },
        None => fallback_message(&t),
    }
}

/// The cooldown drawn from a `Retry-After` header value: its positive
/// integer reading, else the default.
pub open spec fn effective_retry_after_spec(header: Option<Seq<char>>) -> i64 {
    match header {
        Some(s) => match parse_positive_i64_spec(s) {
            Some(v) => v,
            None => DEFAULT_RETRY_AFTER_SECS,
        },
        None => DEFAULT_RETRY_AFTER_SECS,
    }
}

/// A 2xx status.
pub open spec fn is_success_status(status: u16) -> bool {
    200 <= status < 300
}

/// Classification of one response, in order: status 429 is a rate limit
/// with the header-derived cooldown; any other non-2xx status is an HTTP
/// failure; a 2xx JSON body yields its result-code field; a 2xx non-JSON
/// body yields a bare code marker when one is present (success when it
/// reads `done`, else the code's classification), and is otherwise an
/// invalid response with the bounded body as message.
pub open spec fn evaluate_response_spec(
    status: u16,
    retry_after_header: Option<Seq<char>>,
    body: Seq<char>,
) -> Result<Option<Seq<char>>, PinboardErrorView> {
    if status == 429 {
        Err(
            PinboardErrorView::RateLimited {
                retry_after_secs: effective_retry_after_spec(retry_after_header),
                message: extract_error_message_spec(body),
            },
        )
    } else if !is_success_status(status) {
        Err(PinboardErrorView::Http { status, message: extract_error_message_spec(body) })
    } else {
        match json_fields_of(body) {
            Some(fields) => Ok(fields.0),
            None => match extract_code_from_text_spec(body) {
                Some(code) => if ascii_lower_seq(code) == ascii_lower_seq("done"@) {
                    Ok(Some(code))
                } else {
                    Err(classify_api_code_spec(code))
                },
                None => Err(
                    PinboardErrorView::InvalidResponse {
                        message: truncate_for_error_spec(body),
                    },
                ),
            },
        }
    }
}

/// View of a classification outcome that carries a result code on success.
pub open spec fn code_result_view(r: Result<Option<String>, PinboardError>) -> Result<
    Option<Seq<char>>,
    PinboardErrorView,
> {
    match r {
        Ok(c) => Ok(c.deep_view()),
        Err(e) => Err(e@),
    }
}

/// Classifies one HTTP response from the remote API, handing back the
/// body's result code on success.
pub fn evaluate_response(status: u16, retry_after_header: Option<&str>, body: &str) -> (r: Result<
    Option<String>,
    PinboardError,
>)
    ensures
        code_result_view(r) == evaluate_response_spec(
            status,
            retry_after_header.deep_view(),
            body@,
        ),
{
    if status == 429 {
        let secs = match retry_after_header {
            Some(value) => match parse_positive_i64(value) {
                Some(v) => v,
                None => DEFAULT_RETRY_AFTER_SECS,
            },
            None => DEFAULT_RETRY_AFTER_SECS,
        };
        return Err(
            PinboardError::RateLimited {
                retry_after_secs: secs,
                message: extract_error_message(body),
            },
        );
    }
    if status < 200 || status >= 300 {
        return Err(PinboardError::Http { status, message: extract_error_message(body) });
    }
    match json_fields(body) {
        Some(fields) => Ok(fields.0),
        None => {
            let chars = chars_of(body);
            match extract_code_chars(&chars) {
                Some(code_chars) => {
                    if eq_ignore_ascii_case_str(&code_chars, "done") {
                        Ok(Some(string_from_chars(&code_chars)))
                    } else {
                        let code = string_from_chars(&code_chars);
                        Err(classify_api_code(code.as_str()))
                    }
                },
                None => Err(PinboardError::InvalidResponse { message: truncate_for_error(body) }),
            }
        },
    }
}

/// View of a unit-valued API outcome.
pub open spec fn unit_result_view(r: Result<(), PinboardError>) -> Result<(), PinboardErrorView> {
    match r {
        Ok(u) => Ok(u),
        Err(e) => Err(e@),
    }
}

/// What a save call makes of a classified response: a missing result code
/// is an invalid response; the code `done`, in any ASCII case, is success;
/// any other code is classified.
pub open spec fn add_outcome_spec(r: Result<Option<Seq<char>>, PinboardErrorView>) -> Result<
    (),
    PinboardErrorView,
> {
    match r {
        Err(e) => Err(e),
        Ok(None) => Err(
            PinboardErrorView::InvalidResponse {
                message: "missing result code from posts/add"@,
            },
        ),
        Ok(Some(code)) => if ascii_lower_seq(code) == ascii_lower_seq("done"@) {
            Ok(())
        } else {
            Err(classify_api_code_spec(code))
        },
    }
}

/// Classifies the response to a save call all the way to success or a
/// classified failure.
pub fn evaluate_add_response(status: u16, retry_after_header: Option<&str>, body: &str) -> (r:
    Result<(), PinboardError>)
    ensures
        unit_result_view(r) == add_outcome_spec(
            evaluate_response_spec(status, retry_after_header.deep_view(), body@),
        ),
{
    match evaluate_response(status, retry_after_header, body) {
        Err(e) => Err(e),
        Ok(None) => Err(
            PinboardError::InvalidResponse {
                message: "missing result code from posts/add".to_owned(),
            },
        ),
        Ok(Some(code)) => {
            let code_chars = chars_of(code.as_str());
            if eq_ignore_ascii_case_str(&code_chars, "done") {
                Ok(())
            } else {
                Err(classify_api_code(code.as_str()))
            }
        },
    }
}

/// The query parameters of a save call: credential, the payload's fields,
/// tags joined with spaces, and the three flags written as the wire
/// expects them — `replace` only for an update intent, `shared` the
/// negation of the privacy flag, `toread` the read-later flag.
pub open spec fn add_params_spec(token: Seq<char>, p: BookmarkPayloadView) -> Seq<
    (Seq<char>, Seq<char>),
> {
    seq![
        ("auth_token"@, token),
        ("url"@, p.url),
        ("description"@, p.title),
        ("extended"@, p.notes),
        ("tags"@, join_spaces_spec(p.tags)),
        ("replace"@, if p.intent is Update { "yes"@ } else { "no"@ }),
        ("shared"@, if p.private { "no"@ } else { "yes"@ }),
        ("toread"@, if p.read_later { "yes"@ } else { "no"@ }),
    ]
}

/// Builds the query parameters of a save call.
pub fn add_bookmark_params(token: &str, payload: &BookmarkPayload) -> (params: Vec<
    (String, String),
>)
    ensures
        params.deep_view() == add_params_spec(token@, payload@),
{
    let replace = match payload.intent {
        SubmitIntent::Create => "no",
        SubmitIntent::Update => "yes",
    };
    let shared = if payload.private {
        "no"
    } else {
        "yes"
    };
    let toread = if payload.read_later {
        "yes"
    } else {
        "no"
    };
    let tags = join_spaces(&payload.tags);
    let mut params: Vec<(String, String)> = Vec::new();
    params.push(("auth_token".to_owned(), token.to_owned()));
    params.push(("url".to_owned(), payload.url.clone()));
    params.push(("description".to_owned(), payload.title.clone()));
    params.push(("extended".to_owned(), payload.notes.clone()));
    params.push(("tags".to_owned(), tags));
    params.push(("replace".to_owned(), replace.to_owned()));
    params.push(("shared".to_owned(), shared.to_owned()));
    params.push(("toread".to_owned(), toread.to_owned()));
    proof {
        assert(params.deep_view() =~~= add_params_spec(token@, payload@));
    }
    params
}

} // verus!
