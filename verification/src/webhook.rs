//! The webhook protocol layer.
//!
//! A pure request builder turns (configuration, client headers) into the
//! outbound request shape, under the v1 fixed-filter policy or the v3
//! configurable policy; a pure response interpreter turns (status,
//! parsed body) into an [`Identity`] or an error, failing closed on any
//! ambiguity.  Performing the HTTP call itself, and parsing response
//! bytes into JSON values, belong to the caller.

use vstd::prelude::*;
use crate::config::{
    string_pairs_view, AllOrList, AuthHookConfigV3, AuthHookConfigV3Headers, AuthHookMethod,
};
use crate::headers::{
    filtered_entries, ignore_header, is_ignored_header, lemma_filtered_entries_semantics,
    string_list_contains, HeaderMap,
};
use crate::json::{append_json_quoted, json_quoted, JsonValue};
use crate::session::{
    session_variable_role, session_variable_role_name, Identity, Role, RoleAuthorization,
    SessionVariableList, SessionVariableName, SessionVariables, SessionVariableValue,
};
use crate::table::{entries_contain, spec_insert};

verus! {

/// How an error is shown in traces.
#[derive(Debug, Clone, Copy, PartialEq, Eq, Structural)]
pub enum ErrorVisibility {
    User,
    Internal,
}

/// An internal fault of the webhook exchange: misconfiguration or a
/// network failure, never a routine denial.
#[derive(Debug, PartialEq)]
pub enum InternalError {
    /// Transport failure while making the HTTP request to the webhook;
    /// carries the rendered cause.
    ErrorWhileMakingHTTPRequestToTheAuthHook(String),
    /// The hook answered with a status other than 200 and 401.
    AuthHookUnexpectedStatus(u16),
    /// A failure inside the HTTP client; carries the rendered cause.
    ReqwestError(String),
    /// The reserved role variable was missing from a 200 response.
    RoleSessionVariableNotFound,
    /// The reserved role variable was present but not a string.
    RoleSessionVariableMustBeString,
    /// The configured webhook URL does not parse.
    InvalidUrl(String),
}

impl InternalError {
    /// For the purpose of traces, all webhook errors are developer facing.
    pub fn visibility(&self) -> (r: ErrorVisibility)
        ensures
            r == ErrorVisibility::User,
    {
        ErrorVisibility::User
    }
}

/// The outcome of a failed authentication attempt: either the hook
/// denied the request (a routine business outcome) or something went
/// wrong (an internal fault).
#[derive(Debug, PartialEq)]
pub enum Error {
    /// A client header value could not be read as a string; carries the
    /// header name and the rendered cause.
    ErrorInConvertingHeaderValueToString { header_name: String, error: String },
    /// The authentication hook has denied to execute the request.
    AuthenticationFailed,
    /// An internal fault; see [`InternalError`].
    Internal(InternalError),
}

impl From<InternalError> for Error {
    fn from(e: InternalError) -> (r: Error) {
        Error::Internal(e)
    }
}

impl vstd::std_specs::convert::FromSpecImpl<InternalError> for Error {
    open spec fn obeys_from_spec() -> bool {
        true
    }

    open spec fn from_spec(e: InternalError) -> Error {
        Error::Internal(e)
    }
}

impl Error {
    /// For the purpose of traces, all webhook errors are developer facing.
    pub fn visibility(&self) -> (r: ErrorVisibility)
        ensures
            r == ErrorVisibility::User,
    {
        ErrorVisibility::User
    }

    /// The HTTP status the engine answers the client with.
    pub fn to_status_code(&self) -> (r: u16)
        ensures
            *self matches Error::ErrorInConvertingHeaderValueToString { .. } ==> r == 400,
            *self matches Error::AuthenticationFailed ==> r == 403,
            *self matches Error::Internal(_) ==> r == 500,
    {
        match self {
            Error::ErrorInConvertingHeaderValueToString { .. } => 400,
            Error::AuthenticationFailed => 403,
            Error::Internal(_) => 500,
        }
    }

    /// Whether the error is reported to the client as an internal fault.
    pub fn is_internal(&self) -> (r: bool)
        ensures
            r == (*self matches Error::Internal(_)),
    {
        match self {
            Error::Internal(_) => true,
            _ => false,
        }
    }
}

/// The decimal digit for `n` (meaningful for 0 to 9).
pub open spec fn decimal_digit(n: int) -> char {
    ((48 + n) as char)
}

/// The decimal text of a number.
pub open spec fn decimal_digits(n: nat) -> Seq<char>
    decreases n,
{
    if n < 10 {
        seq![decimal_digit(n as int)]
    } else {
        decimal_digits(n / 10) + seq![decimal_digit((n % 10) as int)]
    }
}

/// The decimal text of a status code, as ASCII bytes.
fn u16_decimal_bytes(n: u16) -> (r: Vec<u8>)
    ensures
        r@.map_values(|b: u8| b as char) == decimal_digits(n as nat),
        forall|i: int| 0 <= i < r@.len() ==> r@[i] < 128,
    decreases n,
{
    if n < 10 {
        let mut v: Vec<u8> = Vec::new();
        v.push(48 + (n as u8));
        proof {
            assert(v@.map_values(|b: u8| b as char) =~= decimal_digits(n as nat));
        }
        v
    } else {
        let mut v = u16_decimal_bytes(n / 10);
        let ghost prefix = v@;
        v.push(48 + ((n % 10) as u8));
        proof {
            assert(v@.map_values(|b: u8| b as char) =~= prefix.map_values(|b: u8| b as char)
                + seq![decimal_digit((n % 10) as int)]);
        }
        v
    }
}

impl InternalError {
    /// The rendered fault, as the engine logs and traces it.
    pub open spec fn spec_message(&self) -> Seq<char> {
        match *self {
            InternalError::ErrorWhileMakingHTTPRequestToTheAuthHook(ref s) =>
                "Error while making the authentication HTTP request to the webhook - "@ + s@,
            InternalError::AuthHookUnexpectedStatus(code) =>
                "The authentication hook has returned the status "@ + decimal_digits(code as nat)
                + ". Only 200 and 401 response status are recognized."@,
            InternalError::ReqwestError(ref s) => "Reqwest error: "@ + s@,
            InternalError::RoleSessionVariableNotFound =>
                "'x-hasura-role' session variable not found in the webhook response."@,
            InternalError::RoleSessionVariableMustBeString =>
                "'x-hasura-role' session variable in the webhook response was not a string."@,
            InternalError::InvalidUrl(ref s) => "Invalid URL: "@ + s@,
        }
    }

    pub fn message(&self) -> (r: String)
        ensures
            r@ == self.spec_message(),
    {
        let mut out = String::new();
        match self {
            InternalError::ErrorWhileMakingHTTPRequestToTheAuthHook(s) => {
                out.append("Error while making the authentication HTTP request to the webhook - ");
                out.append(s.as_str());
            },
            InternalError::AuthHookUnexpectedStatus(code) => {
                out.append("The authentication hook has returned the status ");
                out.append(crate::names::ascii_bytes_to_string(u16_decimal_bytes(*code)).as_str());
                out.append(". Only 200 and 401 response status are recognized.");
            },
            InternalError::ReqwestError(s) => {
                out.append("Reqwest error: ");
                out.append(s.as_str());
            },
            InternalError::RoleSessionVariableNotFound => {
                out.append("'x-hasura-role' session variable not found in the webhook response.");
            },
            InternalError::RoleSessionVariableMustBeString => {
                out.append(
                    "'x-hasura-role' session variable in the webhook response was not a string.",
                );
            },
            InternalError::InvalidUrl(s) => {
                out.append("Invalid URL: ");
                out.append(s.as_str());
            },
        }
        proof {
            assert(out@ =~= self.spec_message());
        }
        out
    }
}

impl Error {
    /// The rendered outcome, as the engine logs and traces it.
    pub open spec fn spec_message(&self) -> Seq<char> {
        match *self {
            Error::ErrorInConvertingHeaderValueToString { ref header_name, ref error } =>
                "Error in converting the header value corresponding to the "@ + header_name@
                + " to a String - "@ + error@,
            Error::AuthenticationFailed =>
                "The Authentication hook has denied to execute the request."@,
            Error::Internal(ref e) => "Internal Error - "@ + e.spec_message(),
        }
    }

    pub fn message(&self) -> (r: String)
        ensures
            r@ == self.spec_message(),
    {
        let mut out = String::new();
        match self {
            Error::ErrorInConvertingHeaderValueToString { header_name, error } => {
                out.append("Error in converting the header value corresponding to the ");
                out.append(header_name.as_str());
                out.append(" to a String - ");
                out.append(error.as_str());
            },
            Error::AuthenticationFailed => {
                out.append("The Authentication hook has denied to execute the request.");
            },
            Error::Internal(e) => {
                out.append("Internal Error - ");
                out.append(e.message().as_str());
            },
        }
        proof {
            assert(out@ =~= self.spec_message());
        }
        out
    }
}

/// Whether `reqwest::Url::parse` accepts a string as an absolute URL;
/// the parse is a function of its input alone.
pub uninterp spec fn parses_as_url(s: Seq<char>) -> bool;

/// Relies on `reqwest::Url::parse` (`url::Url::parse`): parses an
/// absolute URL from a string, returning `Err` when the string is not
/// one.
#[verifier::external_body]
fn parse_url(s: &str) -> (r: Option<reqwest::Url>)
    ensures
        r is Some <==> parses_as_url(s@),
{
    match reqwest::Url::parse(s) {
        Ok(u) => Some(u),
        Err(_) => None,
    }
}

/// The URL a v3 configuration points the webhook call at, parsed.
///
/// The configured string is validated when the configuration is loaded,
/// so a failure here is an internal fault, not a client error.
pub fn auth_hook_url_v2(config: &AuthHookConfigV3) -> (r: Result<reqwest::Url, Error>)
    ensures
        r is Ok <==> parses_as_url(config.spec_get_url()),
        r matches Err(e) ==> (e matches Error::Internal(InternalError::InvalidUrl(s)) && s@
            == config.spec_get_url()),
{
    let url_str = config.get_url();
    match parse_url(url_str) {
        Some(u) => Ok(u),
        None => Err(Error::Internal(InternalError::InvalidUrl(url_str.to_owned()))),
    }
}

/// The text of a body object entry: `"name":"value"`.
pub open spec fn body_pair_text(k: Seq<char>, v: Seq<char>) -> Seq<char> {
    json_quoted(k) + seq![':'] + json_quoted(v)
}

/// The comma-separated entries of the body's header object, in order.
pub open spec fn body_items_text(entries: Seq<(Seq<char>, Seq<char>)>) -> Seq<char>
    decreases entries.len(),
{
    if entries.len() == 0 {
        Seq::empty()
    } else if entries.len() == 1 {
        body_pair_text(entries[0].0, entries[0].1)
    } else {
        body_items_text(entries.drop_last()) + seq![','] + body_pair_text(
            entries.last().0,
            entries.last().1,
        )
    }
}

/// The JSON text of the POST request body: `{"headers":{...}}`.
pub open spec fn post_body_text(entries: Seq<(Seq<char>, Seq<char>)>) -> Seq<char> {
    "{\"headers\":{"@ + body_items_text(entries) + "}}"@
}

/// The body of the POST request to be made to the auth hook: the
/// selected client headers, embedded as a JSON object under `headers`.
#[derive(Debug, PartialEq)]
pub struct AuthHookPostRequestBody {
    headers: HeaderMap,
}

impl View for AuthHookPostRequestBody {
    type V = Seq<(Seq<char>, Seq<char>)>;

    closed spec fn view(&self) -> Seq<(Seq<char>, Seq<char>)> {
        self.headers@
    }
}

impl AuthHookPostRequestBody {
    pub closed spec fn wf(&self) -> bool {
        self.headers.wf()
    }

    /// The empty body: `{"headers":{}}` on the wire.
    pub fn new() -> (r: AuthHookPostRequestBody)
        ensures
            r@ =~= Seq::<(Seq<char>, Seq<char>)>::empty(),
            r.wf(),
    {
        AuthHookPostRequestBody { headers: HeaderMap::new() }
    }

    /// A body embedding the given headers.
    pub fn from_headers(headers: HeaderMap) -> (r: AuthHookPostRequestBody)
        ensures
            r@ == headers@,
            headers.wf() ==> r.wf(),
    {
        AuthHookPostRequestBody { headers }
    }

    /// The headers embedded in this body.
    pub fn headers(&self) -> (r: &HeaderMap)
        ensures
            r@ == self@,
            r.wf() == self.wf(),
    {
        &self.headers
    }

    /// Writes the body as JSON text.
    #[verifier::loop_isolation(false)]
    pub fn to_json_text(&self) -> (r: String)
        ensures
            r@ == post_body_text(self@),
    {
        let mut out = String::new();
        proof {
            reveal_strlit(":");
            reveal_strlit(",");
            reveal_strlit("}}");
        }
        out.append("{\"headers\":{");
        let n = self.headers.len();
        let mut i: usize = 0;
        while i < n
            invariant
                0 <= i <= n,
                n == self@.len(),
                out@ == "{\"headers\":{"@ + body_items_text(self@.subrange(0, i as int)),
            decreases n - i,
        {
            if i > 0 {
                out.append(",");
            }
            let entry = self.headers.entry(i);
            append_json_quoted(&mut out, entry.0.as_str());
            out.append(":");
            append_json_quoted(&mut out, entry.1.as_str());
            proof {
                let prefix = self@.subrange(0, i as int);
                let next = self@.subrange(0, i as int + 1);
                assert(next.drop_last() =~= prefix);
                assert(next.last() == self@[i as int]);
                if i == 0 {
                    assert(body_items_text(next) == body_pair_text(self@[0].0, self@[0].1));
                } else {
                    assert(body_items_text(next) == body_items_text(prefix) + seq![',']
                        + body_pair_text(self@[i as int].0, self@[i as int].1));
                }
                assert(out@ =~= "{\"headers\":{"@ + body_items_text(next));
            }
            i += 1;
        }
        proof {
            assert(self@.subrange(0, n as int) =~= self@);
        }
        out.append("}}");
        proof {
            assert(out@ =~= post_body_text(self@));
        }
        out
    }
}

/// The outbound request shape: what the builder decides and the HTTP
/// client performs.
#[derive(Debug, PartialEq)]
pub enum AuthHookRequest {
    Get { headers: HeaderMap },
    Post { headers: HeaderMap, body: AuthHookPostRequestBody },
}

/// What the v1 GET policy forwards: every client header whose name is
/// not in the fixed exclusion set.
pub open spec fn v1_get_headers(client: Seq<(Seq<char>, Seq<char>)>) -> Seq<(Seq<char>, Seq<
    char,
>)> {
    filtered_entries(client, |name: Seq<char>| !is_ignored_header(name))
}

/// The v1 GET builder forwards a header exactly when its (lower-cased)
/// name is outside the fixed exclusion set, and forwards it unchanged.
pub proof fn lemma_v1_get_forwards_iff(client: Seq<(Seq<char>, Seq<char>)>)
    ensures
        forall|k: Seq<char>|
            entries_contain(v1_get_headers(client), k) <==> entries_contain(client, k)
                && !is_ignored_header(k),
        forall|i: int|
            0 <= i < v1_get_headers(client).len() ==> exists|j: int|
                0 <= j < client.len() && client[j] == #[trigger] v1_get_headers(client)[i],
{
    let pred = |name: Seq<char>| !is_ignored_header(name);
    lemma_filtered_entries_semantics(client, pred);
    assert(v1_get_headers(client) == filtered_entries(client, pred));
    assert forall|k: Seq<char>|
        entries_contain(v1_get_headers(client), k) <==> entries_contain(client, k)
            && !is_ignored_header(k) by {
        assert(entries_contain(filtered_entries(client, pred), k) <==> entries_contain(client, k)
            && pred(k));
    }
    assert forall|i: int|
        0 <= i < v1_get_headers(client).len() implies exists|j: int|
        0 <= j < client.len() && client[j] == #[trigger] v1_get_headers(client)[i] by {
        assert(exists|j: int|
            0 <= j < client.len() && client[j] == filtered_entries(client, pred)[i]);
    }
}

/// Builds the outbound request under the legacy (v1) policy.
///
/// For GET, every client header outside the fixed exclusion set is
/// forwarded on the wire.  For POST, no header is forwarded on the wire
/// and every client header is embedded in the request body.
#[verifier::loop_isolation(false)]
pub fn get_auth_hook_request_v1(
    auth_hook_method: &AuthHookMethod,
    client_headers: &HeaderMap,
) -> (r: AuthHookRequest)
    requires
        client_headers.wf(),
    ensures
        *auth_hook_method matches AuthHookMethod::Get ==> (r matches AuthHookRequest::Get {
            headers,
        } && headers.wf() && headers@ == v1_get_headers(client_headers@)),
        *auth_hook_method matches AuthHookMethod::Post ==> (r matches AuthHookRequest::Post {
            headers,
            body,
        } && headers.wf() && headers@.len() == 0 && body.wf() && body@ == client_headers@),
{
    match auth_hook_method {
        AuthHookMethod::Get => {
            let ghost pred = |name: Seq<char>| !is_ignored_header(name);
            let mut auth_hook_headers = HeaderMap::new();
            let n = client_headers.len();
            let mut i: usize = 0;
            while i < n
                invariant
                    0 <= i <= n,
                    auth_hook_headers.wf(),
                    auth_hook_headers@ == filtered_entries(
                        client_headers@.subrange(0, i as int),
                        pred,
                    ),
                decreases n - i,
            {
                let ghost prefix = client_headers@.subrange(0, i as int);
                let ghost next = client_headers@.subrange(0, i as int + 1);
                proof {
                    assert(next.drop_last() =~= prefix);
                    assert(next.last() == client_headers@[i as int]);
                    lemma_filtered_entries_semantics(prefix, pred);
                }
                let entry = client_headers.entry(i);
                if !ignore_header(entry.0.as_str()) {
                    proof {
                        if entries_contain(prefix, client_headers@[i as int].0) {
                            let j = choose|j: int|
                                0 <= j < prefix.len() && (#[trigger] prefix[j]).0
                                    == client_headers@[i as int].0;
                            assert((client_headers@[j]).0 == (client_headers@[i as int]).0);
                            assert(false);
                        }
                    }
                    auth_hook_headers.insert(entry.0.clone(), entry.1.clone());
                }
                proof {
                    assert(auth_hook_headers@ =~= filtered_entries(next, pred));
                }
                i += 1;
            }
            proof {
                assert(client_headers@.subrange(0, n as int) =~= client_headers@);
            }
            AuthHookRequest::Get { headers: auth_hook_headers }
        },
        AuthHookMethod::Post => {
            let request_body_headers = client_headers.duplicate();
            AuthHookRequest::Post {
                headers: HeaderMap::new(),
                body: AuthHookPostRequestBody::from_headers(request_body_headers),
            }
        },
    }
}

/// Whether a forwarding policy selects a header name for the wire.
pub open spec fn forward_selects(
    forward: AllOrList<String>,
    name: Seq<char>,
    ignore_common: bool,
) -> bool {
    match forward {
        AllOrList::All(_) => !(ignore_common && is_ignored_header(name)),
        AllOrList::List(l) => exists|i: int| 0 <= i < l@.len() && (#[trigger] l@[i])@ == name,
    }
}

/// The headers one v3 policy block selects from the client request.
pub open spec fn spec_selected_headers(
    cfg: AuthHookConfigV3Headers,
    client: Seq<(Seq<char>, Seq<char>)>,
    ignore_common: bool,
) -> Seq<(Seq<char>, Seq<char>)> {
    filtered_entries(client, |name: Seq<char>| forward_selects(cfg.forward, name, ignore_common))
}

/// Folding the additional static headers over a base set, in order: a
/// later entry overrides both forwarded headers and earlier additional
/// entries of the same name.
pub open spec fn add_additional(
    base: Seq<(Seq<char>, Seq<char>)>,
    add: Seq<(Seq<char>, Seq<char>)>,
) -> Seq<(Seq<char>, Seq<char>)>
    decreases add.len(),
{
    if add.len() == 0 {
        base
    } else {
        spec_insert(add_additional(base, add.drop_last()), add.last().0, add.last().1)
    }
}

/// Everything one v3 policy block puts on the wire: the selected client
/// headers, with the additional static headers folded in (ties going to
/// the additional ones).
pub open spec fn spec_filtered_headers(
    cfg: AuthHookConfigV3Headers,
    client: Seq<(Seq<char>, Seq<char>)>,
    ignore_common: bool,
) -> Seq<(Seq<char>, Seq<char>)> {
    add_additional(
        spec_selected_headers(cfg, client, ignore_common),
        string_pairs_view(cfg.additional@),
    )
}

/// Applies one v3 header policy: forwards the selected client headers
/// and adds the additional static headers, which win ties.
///
/// `ignore_common_headers` applies the fixed exclusion set to a wildcard
/// policy; body-embedded forwarding passes `false`, since the caller
/// opted in explicitly.
#[verifier::loop_isolation(false)]
pub fn get_filtered_headers(
    auth_hook_headers_config: &AuthHookConfigV3Headers,
    client_headers: &HeaderMap,
    ignore_common_headers: bool,
) -> (r: HeaderMap)
    requires
        client_headers.wf(),
        auth_hook_headers_config.wf(),
    ensures
        r.wf(),
        r@ == spec_filtered_headers(
            *auth_hook_headers_config,
            client_headers@,
            ignore_common_headers,
        ),
{
    let ghost pred = |name: Seq<char>|
        forward_selects(auth_hook_headers_config.forward, name, ignore_common_headers);
    let mut auth_hook_headers = HeaderMap::new();
    let n = client_headers.len();
    let mut i: usize = 0;
    while i < n
        invariant
            0 <= i <= n,
            auth_hook_headers.wf(),
            auth_hook_headers@ == filtered_entries(client_headers@.subrange(0, i as int), pred),
        decreases n - i,
    {
        let ghost prefix = client_headers@.subrange(0, i as int);
        let ghost next = client_headers@.subrange(0, i as int + 1);
        proof {
            assert(next.drop_last() =~= prefix);
            assert(next.last() == client_headers@[i as int]);
            lemma_filtered_entries_semantics(prefix, pred);
        }
        let entry = client_headers.entry(i);
        let selected = match &auth_hook_headers_config.forward {
            AllOrList::All(_) => !(ignore_common_headers && ignore_header(entry.0.as_str())),
            AllOrList::List(list) => string_list_contains(list, entry.0.as_str()),
        };
        proof {
            assert(selected == pred(client_headers@[i as int].0));
        }
        if selected {
            proof {
                if entries_contain(prefix, client_headers@[i as int].0) {
                    let j = choose|j: int|
                        0 <= j < prefix.len() && (#[trigger] prefix[j]).0 == client_headers@[i
                            as int].0;
                    assert((client_headers@[j]).0 == (client_headers@[i as int]).0);
                    assert(false);
                }
            }
            auth_hook_headers.insert(entry.0.clone(), entry.1.clone());
        }
        proof {
            assert(auth_hook_headers@ =~= filtered_entries(next, pred));
        }
        i += 1;
    }
    proof {
        assert(client_headers@.subrange(0, n as int) =~= client_headers@);
    }
    let ghost wire = auth_hook_headers@;
    let m = auth_hook_headers_config.additional.len();
    let mut j: usize = 0;
    while j < m
        invariant
            0 <= j <= m,
            auth_hook_headers.wf(),
            auth_hook_headers@ == add_additional(
                wire,
                string_pairs_view(auth_hook_headers_config.additional@.subrange(0, j as int)),
            ),
        decreases m - j,
    {
        let ghost prefix = string_pairs_view(
            auth_hook_headers_config.additional@.subrange(0, j as int),
        );
        let ghost next = string_pairs_view(
            auth_hook_headers_config.additional@.subrange(0, j as int + 1),
        );
        proof {
            assert(next.drop_last() =~= prefix);
            assert(next.last() == (
                auth_hook_headers_config.additional@[j as int].0@,
                auth_hook_headers_config.additional@[j as int].1@,
            ));
        }
        let pair = &auth_hook_headers_config.additional[j];
        auth_hook_headers.insert(pair.0.clone(), pair.1.clone());
        proof {
            assert(auth_hook_headers@ =~= add_additional(wire, next));
        }
        j += 1;
    }
    proof {
        assert(auth_hook_headers_config.additional@.subrange(0, m as int)
            =~= auth_hook_headers_config.additional@);
        assert(auth_hook_headers@ =~= spec_filtered_headers(
            *auth_hook_headers_config,
            client_headers@,
            ignore_common_headers,
        ));
    }
    auth_hook_headers
}

/// Builds the outbound request under the current (v3) policy.
///
/// Each method variant applies its configured header policy; a POST
/// additionally builds the body from its own, independent policy, which
/// never applies the common exclusion set.  A variant whose
/// `custom_headers_config` is omitted falls back to the v1 policy for
/// that method.
pub fn get_auth_hook_request_v2(
    auth_hook_config: &AuthHookConfigV3,
    client_headers: &HeaderMap,
) -> (r: AuthHookRequest)
    requires
        client_headers.wf(),
        auth_hook_config.wf(),
    ensures
        auth_hook_config matches AuthHookConfigV3::GET(c) ==> (r matches AuthHookRequest::Get {
            headers,
        } && headers.wf() && headers@ == (match c.custom_headers_config {
            Some(hc) => match hc.headers {
                Some(h) => spec_filtered_headers(h, client_headers@, true),
                None => Seq::<(Seq<char>, Seq<char>)>::empty(),
            },
            None => v1_get_headers(client_headers@),
        })),
        auth_hook_config matches AuthHookConfigV3::POST(c) ==> (r matches AuthHookRequest::Post {
            headers,
            body,
        } && headers.wf() && body.wf() && headers@ == (match c.custom_headers_config {
            Some(hc) => match hc.headers {
                Some(h) => spec_filtered_headers(h, client_headers@, true),
                None => Seq::<(Seq<char>, Seq<char>)>::empty(),
            },
            None => Seq::<(Seq<char>, Seq<char>)>::empty(),
        }) && body@ == (match c.custom_headers_config {
            Some(hc) => match hc.body {
                Some(b) => match b.headers {
                    Some(h) => spec_filtered_headers(h, client_headers@, false),
                    None => Seq::<(Seq<char>, Seq<char>)>::empty(),
                },
                None => Seq::<(Seq<char>, Seq<char>)>::empty(),
            },
            None => client_headers@,
        })),
{
    match auth_hook_config {
        AuthHookConfigV3::GET(config) => {
            match &config.custom_headers_config {
                Some(hc) => {
                    let headers = match &hc.headers {
                        Some(h) => get_filtered_headers(h, client_headers, true),
                        // Without a headers policy, no header is forwarded.
                        None => HeaderMap::new(),
                    };
                    AuthHookRequest::Get { headers }
                },
                // Without a custom headers config, fall back to the v1 policy.
                None => get_auth_hook_request_v1(&AuthHookMethod::Get, client_headers),
            }
        },
        AuthHookConfigV3::POST(config) => {
            match &config.custom_headers_config {
                Some(hc) => {
                    let headers = match &hc.headers {
                        Some(h) => get_filtered_headers(h, client_headers, true),
                        // Without a headers policy, no header is forwarded.
                        None => HeaderMap::new(),
                    };
                    let body_headers = match &hc.body {
                        Some(b) => match &b.headers {
                            // Body-embedded forwarding never applies the
                            // common exclusion set.
                            Some(h) => get_filtered_headers(h, client_headers, false),
                            None => HeaderMap::new(),
                        },
                        // Without a body policy, the body object is empty.
                        None => HeaderMap::new(),
                    };
                    AuthHookRequest::Post {
                        headers,
                        body: AuthHookPostRequestBody::from_headers(body_headers),
                    }
                },
                // Without a custom headers config, fall back to the v1 policy.
                None => get_auth_hook_request_v1(&AuthHookMethod::Post, client_headers),
            }
        },
    }
}

/// The session variables a 200 response body yields: every key that
/// parses as a session-variable name is bound (normalized) to its value,
/// a later binding replacing an earlier one; unparseable keys are
/// silently dropped.
pub open spec fn hook_session_variables(body: Seq<(String, JsonValue)>) -> Seq<(Seq<char>,
    SessionVariableValue,
)>
    decreases body.len(),
{
    if body.len() == 0 {
        Seq::empty()
    } else {
        let rest = hook_session_variables(body.drop_last());
        if crate::names::is_name_input(body.last().0@) {
            spec_insert(
                rest,
                crate::names::normalized_of(body.last().0@),
                SessionVariableValue::Parsed(body.last().1),
            )
        } else {
            rest
        }
    }
}

/// Whether the response bound the reserved role variable.
pub open spec fn hook_has_role(body: Seq<(String, JsonValue)>) -> bool {
    entries_contain(hook_session_variables(body), session_variable_role_name())
}

/// The value bound to the reserved role variable.
pub open spec fn hook_role_value(body: Seq<(String, JsonValue)>) -> SessionVariableValue {
    crate::table::entries_map(hook_session_variables(body))[session_variable_role_name()]
}

/// Whether the role variable holds a string.
pub open spec fn hook_role_is_string(body: Seq<(String, JsonValue)>) -> bool {
    hook_role_value(body) matches SessionVariableValue::Parsed(JsonValue::Str(_))
}

/// The role the response names.
pub open spec fn hook_role_string(body: Seq<(String, JsonValue)>) -> Seq<char> {
    hook_role_value(body)->Parsed_0->Str_0@
}

/// The specific identity built for a role: the role is its own default,
/// its authorization carries exactly the response's session variables,
/// and the caller may assert no session variables of its own.
pub open spec fn is_specific_identity_for(
    r: Identity,
    role_seq: Seq<char>,
    vars: Seq<(Seq<char>, SessionVariableValue)>,
) -> bool {
    &&& r matches Identity::Specific { default_role, allowed_roles } && default_role@ == role_seq
        && allowed_roles@.len() == 1 && (allowed_roles@[0].0)@ == role_seq
        && allowed_roles@[0].1.role@ == role_seq && allowed_roles@[0].1.session_variables@ == vars
        && (allowed_roles@[0].1.allowed_session_variables_from_request matches
    SessionVariableList::List(l) && l@.len() == 0)
}

/// Turns the webhook's answer into an identity.
///
/// A 401 is the hook's explicit denial, independent of the body; a
/// status other than 200 and 401 is an internal fault naming that
/// status.  On a 200 the body entries (the response object, in order)
/// become session variables; the reserved role variable must be present
/// and hold a string, each failure a distinct internal fault.  The
/// result is a role-emulation grant exactly when the caller supplied an
/// emulation role equal to the returned one, and otherwise a specific
/// identity for the returned role.
#[verifier::loop_isolation(false)]
pub fn identity_from_hook_response(
    status: u16,
    body: Vec<(String, JsonValue)>,
    allow_role_emulation_for: Option<&Role>,
) -> (r: Result<Identity, Error>)
    ensures
        status == 401 ==> r == Err::<Identity, Error>(Error::AuthenticationFailed),
        status != 401 && status != 200 ==> r == Err::<Identity, Error>(
            Error::Internal(InternalError::AuthHookUnexpectedStatus(status)),
        ),
        status == 200 && !hook_has_role(body@) ==> r == Err::<Identity, Error>(
            Error::Internal(InternalError::RoleSessionVariableNotFound),
        ),
        status == 200 && hook_has_role(body@) && !hook_role_is_string(body@) ==> r == Err::<
            Identity,
            Error,
        >(Error::Internal(InternalError::RoleSessionVariableMustBeString)),
        status == 200 && hook_has_role(body@) && hook_role_is_string(body@) ==> r is Ok,
        status == 200 && hook_has_role(body@) && hook_role_is_string(body@) && (
        allow_role_emulation_for matches Some(em) && em@ == hook_role_string(body@)) ==> (r matches
            Ok(id) && id matches Identity::RoleEmulationEnabled(role) && role@ == hook_role_string(
            body@,
        )),
        status == 200 && hook_has_role(body@) && hook_role_is_string(body@) && !(
        allow_role_emulation_for matches Some(em) && em@ == hook_role_string(body@)) ==> (r matches
            Ok(id) && is_specific_identity_for(id, hook_role_string(body@), hook_session_variables(
            body@,
        ))),
        r matches Ok(id) ==> id.wf(),
{
    if status == 401 {
        return Err(Error::AuthenticationFailed);
    }
    if status != 200 {
        return Err(Error::Internal(InternalError::AuthHookUnexpectedStatus(status)));
    }
    let ghost original = body@;
    let mut remaining = body;
    let ghost mut i: int = 0;
    let mut session_variables = SessionVariables::new();
    while remaining.len() > 0
        invariant
            0 <= i <= original.len(),
            remaining@ == original.subrange(i, original.len() as int),
            session_variables.wf(),
            session_variables@ == hook_session_variables(original.subrange(0, i)),
        decreases remaining@.len(),
    {
        let ghost prefix = original.subrange(0, i);
        let ghost next = original.subrange(0, i + 1);
        proof {
            assert(next.drop_last() =~= prefix);
            assert(next.last() == original[i]);
            assert(remaining@[0] == original[i]);
        }
        let (k, v) = remaining.remove(0);
        match SessionVariableName::parse(k.as_str()) {
            Some(session_variable) => {
                session_variables.insert(session_variable, SessionVariableValue::Parsed(v));
            },
            None => {},
        }
        proof {
            assert(session_variables@ =~= hook_session_variables(next));
            i = i + 1;
            assert(remaining@ =~= original.subrange(i, original.len() as int));
        }
    }
    proof {
        assert(original.subrange(0, original.len() as int) =~= original);
        assert(session_variables@ == hook_session_variables(original));
    }
    let role_name = match session_variables.get(session_variable_role()) {
        Some(value) => {
            match value.as_str() {
                Some(s) => Role::new(s.as_str()),
                None => {
                    return Err(Error::Internal(InternalError::RoleSessionVariableMustBeString));
                },
            }
        },
        None => {
            return Err(Error::Internal(InternalError::RoleSessionVariableNotFound));
        },
    };
    proof {
        assert(hook_has_role(original) && hook_role_is_string(original));
        assert(role_name@ == hook_role_string(original));
    }
    let emulation_matches = match allow_role_emulation_for {
        Some(emulation_role) => crate::headers::str_eq(
            role_name.as_str(),
            emulation_role.as_str(),
        ),
        None => false,
    };
    if emulation_matches {
        Ok(Identity::RoleEmulationEnabled(role_name))
    } else {
        let role_authorization = RoleAuthorization {
            role: role_name.clone(),
            session_variables,
            allowed_session_variables_from_request: SessionVariableList::List(Vec::new()),
        };
        let mut allowed_roles: Vec<(Role, RoleAuthorization)> = Vec::new();
        allowed_roles.push((role_name.clone(), role_authorization));
        let id = Identity::Specific { default_role: role_name, allowed_roles };
        proof {
            assert(is_specific_identity_for(id, hook_role_string(original), hook_session_variables(
                original,
            )));
            assert(id.wf());
        }
        Ok(id)
    }
}

} // verus!
