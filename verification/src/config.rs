//! Webhook configuration: two wire-compatible generations.
//!
//! The legacy generation ([`AuthHookConfig`]) is a URL and a method.  The
//! current generation ([`AuthHookConfigV3`]) is tagged by method, each
//! variant carrying a URL and an optional header-forwarding policy built
//! from [`AllOrList`]: either the wildcard `*` (forward everything) or an
//! explicit list of header names.
//!
//! The JSON text and value forms of [`AllOrList`] are defined and proved
//! here; parsing whole configuration documents is serde's job and stays
//! outside this crate.

use vstd::prelude::*;
use crate::headers::str_eq;
use crate::json::{append_json_quoted, json_quoted, JsonValue};
use crate::names::is_lower_name;
use crate::table::distinct_keys;

verus! {

/// The HTTP method of the legacy webhook configuration.
#[derive(Debug, Clone, PartialEq, Eq, Structural)]
pub enum AuthHookMethod {
    Get,
    Post,
}

/// Wildcard: match all items.
#[derive(Debug, Clone, Copy, PartialEq, Eq)]
pub struct All(pub ());

/// A list of items or a wildcard.
#[derive(Debug, Clone, PartialEq)]
pub enum AllOrList<T> {
    All(All),
    List(Vec<T>),
}

impl<T> Default for AllOrList<T> {
    /// When a forwarding policy is omitted, everything is forwarded.
    fn default() -> (r: Self)
        ensures
            r matches AllOrList::All(_),
    {
        AllOrList::All(All(()))
    }
}

#[verifier::external_type_specification]
#[verifier::external_body]
pub struct ExUrl(reqwest::Url);

/// The configuration of the authentication webhook (legacy generation):
/// a validated URL and the HTTP method to call it with.
#[derive(Debug, PartialEq)]
pub struct AuthHookConfig {
    /// The URL of the authentication webhook.
    pub url: reqwest::Url,
    /// The HTTP method to be used to make the request to the auth hook.
    pub method: AuthHookMethod,
}

/// A URL or an indirection to one, as configuration documents carry it.
#[derive(Debug, Clone, PartialEq)]
pub struct EnvironmentValue {
    pub value: String,
}

/// The configuration of the authentication webhook (current generation),
/// tagged by HTTP method.
#[derive(Debug, Clone, PartialEq)]
pub enum AuthHookConfigV3 {
    /// The configuration of the GET authentication webhook.
    GET(AuthHookConfigV3GET),
    /// The configuration of the POST authentication webhook.
    POST(AuthHookConfigV3POST),
}

/// The configuration of the GET authentication webhook.
#[derive(Debug, Clone, PartialEq)]
pub struct AuthHookConfigV3GET {
    /// The URL of the GET authentication webhook.
    pub url: EnvironmentValue,
    /// The configuration for the headers to be sent to the GET auth hook.
    pub custom_headers_config: Option<AuthHookConfigV3GETHeaders>,
}

/// The configuration for the headers to be sent to the GET auth hook.
#[derive(Debug, Clone, PartialEq)]
pub struct AuthHookConfigV3GETHeaders {
    pub headers: Option<AuthHookConfigV3Headers>,
}

/// The configuration of the POST authentication webhook.
#[derive(Debug, Clone, PartialEq)]
pub struct AuthHookConfigV3POST {
    /// The URL of the POST authentication webhook.
    pub url: EnvironmentValue,
    /// The configuration for the headers and body to be sent to the POST
    /// auth hook.
    pub custom_headers_config: Option<AuthHookConfigV3POSTHeaders>,
}

/// The configuration for the headers and body to be sent to the POST auth
/// hook.
#[derive(Debug, Clone, PartialEq)]
pub struct AuthHookConfigV3POSTHeaders {
    /// The policy for the headers sent on the wire.
    pub headers: Option<AuthHookConfigV3Headers>,
    /// The policy for the headers embedded in the request body.
    pub body: Option<AuthHookConfigV3Body>,
}

/// The configuration for the headers to be sent as part of the body to
/// the POST auth hook.
#[derive(Debug, Clone, PartialEq)]
pub struct AuthHookConfigV3Body {
    pub headers: Option<AuthHookConfigV3Headers>,
}

/// One header-forwarding policy: which client headers to forward, and a
/// map of additional static headers that override forwarded ones.
#[derive(Debug, Clone, PartialEq)]
pub struct AuthHookConfigV3Headers {
    /// The headers to be forwarded from the client request.
    pub forward: AllOrList<String>,
    /// The additional headers to be sent to the auth hook.
    pub additional: Vec<(String, String)>,
}

/// The additional-header entries, viewed as character sequences.
pub open spec fn string_pairs_view(s: Seq<(String, String)>) -> Seq<(Seq<char>, Seq<char>)> {
    s.map_values(|p: (String, String)| (p.0@, p.1@))
}

impl AuthHookConfigV3Headers {
    /// Well-formed: additional header names normalized and distinct.
    pub open spec fn wf(&self) -> bool {
        &&& distinct_keys(string_pairs_view(self.additional@))
        &&& forall|i: int|
            0 <= i < self.additional@.len() ==> is_lower_name((#[trigger] self.additional@[i]).0@)
    }
}

impl AuthHookConfigV3 {
    /// The URL this configuration points the webhook call at.
    pub open spec fn spec_get_url(&self) -> Seq<char> {
        match *self {
            AuthHookConfigV3::GET(ref config) => config.url.value@,
            AuthHookConfigV3::POST(ref config) => config.url.value@,
        }
    }

    pub fn get_url(&self) -> (r: &str)
        ensures
            r@ == self.spec_get_url(),
    {
        match self {
            AuthHookConfigV3::GET(config) => config.url.value.as_str(),
            AuthHookConfigV3::POST(config) => config.url.value.as_str(),
        }
    }

    /// Well-formed: every header policy it holds is well-formed.
    pub open spec fn wf(&self) -> bool {
        match *self {
            AuthHookConfigV3::GET(ref config) => match config.custom_headers_config {
                Some(ref hc) => match hc.headers {
                    Some(ref h) => h.wf(),
                    None => true,
                },
                None => true,
            },
            AuthHookConfigV3::POST(ref config) => match config.custom_headers_config {
                Some(ref hc) => {
                    &&& match hc.headers {
                        Some(ref h) => h.wf(),
                        None => true,
                    }
                    &&& match hc.body {
                        Some(ref b) => match b.headers {
                            Some(ref h) => h.wf(),
                            None => true,
                        },
                        None => true,
                    }
                },
                None => true,
            },
        }
    }
}

/// The JSON value that stands for a policy: `All` is the string `*`, a
/// list is an array of its items in order.
pub open spec fn represents_policy(v: JsonValue, x: AllOrList<String>) -> bool {
    match x {
        AllOrList::All(_) => v matches JsonValue::Str(s) && s@ == "*"@,
        AllOrList::List(l) => v matches JsonValue::Array(items) && items@.len() == l@.len()
            && (forall|i: int|
            0 <= i < l@.len() ==> ((#[trigger] items@[i]) matches JsonValue::Str(s) && s@
                == l@[i]@)),
    }
}

/// A JSON value of a shape some policy can take: the wildcard string, or
/// an array of strings.
pub open spec fn policy_shape_ok(v: JsonValue) -> bool {
    match v {
        JsonValue::Str(s) => s@ == "*"@,
        JsonValue::Array(items) => forall|i: int|
            0 <= i < items@.len() ==> (#[trigger] items@[i]) is Str,
        _ => false,
    }
}

/// Two policies standing for the same JSON value are the same policy, up
/// to the character content of their items: the value form of a policy is
/// unambiguous, so serialization round-trips.
pub proof fn lemma_policy_value_unambiguous(v: JsonValue, x: AllOrList<String>, y: AllOrList<
    String,
>)
    requires
        represents_policy(v, x),
        represents_policy(v, y),
    ensures
        x matches AllOrList::All(_) <==> y matches AllOrList::All(_),
        x matches AllOrList::List(l) ==> (y matches AllOrList::List(m) && l@.len() == m@.len()
            && (forall|i: int| 0 <= i < l@.len() ==> (#[trigger] l@[i])@ == m@[i]@)),
{
    match x {
        AllOrList::All(_) => {
        },
        AllOrList::List(l) => {
            match y {
                AllOrList::All(_) => {
                    assert(false);
                },
                AllOrList::List(m) => {
                    let items = v->Array_0;
                    assert forall|i: int| 0 <= i < l@.len() implies (#[trigger] l@[i])@
                        == m@[i]@ by {
                        assert(items@[i] matches JsonValue::Str(s) && s@ == l@[i]@);
                        assert(items@[i] matches JsonValue::Str(s) && s@ == m@[i]@);
                    }
                },
            }
        },
    }
}

/// The JSON text of a policy's item list, comma separated.
pub open spec fn list_items_text(items: Seq<String>) -> Seq<char>
    decreases items.len(),
{
    if items.len() == 0 {
        Seq::empty()
    } else if items.len() == 1 {
        json_quoted(items[0]@)
    } else {
        list_items_text(items.drop_last()) + seq![','] + json_quoted(items.last()@)
    }
}

/// The JSON text of a policy: exactly `"*"` for the wildcard, a JSON
/// array of the items in order for a list.
pub open spec fn all_or_list_text(x: AllOrList<String>) -> Seq<char> {
    match x {
        AllOrList::All(_) => seq!['"', '*', '"'],
        AllOrList::List(l) => seq!['['] + list_items_text(l@) + seq![']'],
    }
}

/// Serializes a policy to JSON text.
///
/// The wildcard yields exactly `"*"`; a list yields a JSON array of its
/// items in order.
#[verifier::loop_isolation(false)]
pub fn serialize_all_or_list(x: &AllOrList<String>) -> (r: String)
    ensures
        r@ == all_or_list_text(*x),
{
    match x {
        AllOrList::All(_) => {
            proof {
                reveal_strlit("\"*\"");
                assert("\"*\""@ =~= seq!['"', '*', '"']);
            }
            "\"*\"".to_owned()
        },
        AllOrList::List(items) => {
            let mut out = String::new();
            proof {
                reveal_strlit("[");
                reveal_strlit("]");
                reveal_strlit(",");
            }
            out.append("[");
            let n = items.len();
            let mut i: usize = 0;
            while i < n
                invariant
                    0 <= i <= n,
                    n == items@.len(),
                    out@ == seq!['['] + list_items_text(items@.subrange(0, i as int)),
                decreases n - i,
            {
                if i > 0 {
                    out.append(",");
                }
                append_json_quoted(&mut out, items[i].as_str());
                proof {
                    let prefix = items@.subrange(0, i as int);
                    let next = items@.subrange(0, i as int + 1);
                    assert(next.drop_last() =~= prefix);
                    assert(next.last() == items@[i as int]);
                    if i == 0 {
                        assert(list_items_text(next) == json_quoted(items@[0].view()));
                        assert(out@ =~= seq!['['] + list_items_text(next));
                    } else {
                        assert(list_items_text(next) == list_items_text(prefix) + seq![',']
                            + json_quoted(items@[i as int].view()));
                        assert(out@ =~= seq!['['] + list_items_text(next));
                    }
                }
                i += 1;
            }
            proof {
                assert(items@.subrange(0, n as int) =~= items@);
            }
            out.append("]");
            proof {
                assert(out@ =~= all_or_list_text(*x));
            }
            out
        },
    }
}

/// The JSON value that stands for a policy.
#[verifier::loop_isolation(false)]
pub fn all_or_list_to_json(x: &AllOrList<String>) -> (r: JsonValue)
    ensures
        represents_policy(r, *x),
{
    match x {
        AllOrList::All(_) => JsonValue::Str("*".to_owned()),
        AllOrList::List(items) => {
            let n = items.len();
            let mut out: Vec<JsonValue> = Vec::new();
            let mut i: usize = 0;
            while i < n
                invariant
                    0 <= i <= n,
                    n == items@.len(),
                    out@.len() == i,
                    forall|j: int|
                        0 <= j < i ==> ((#[trigger] out@[j]) matches JsonValue::Str(s) && s@
                            == items@[j]@),
                decreases n - i,
            {
                out.push(JsonValue::Str(items[i].clone()));
                i += 1;
            }
            JsonValue::Array(out)
        },
    }
}

/// The value form of a policy has a shape every reader accepts: with
/// [`lemma_policy_value_unambiguous`], writing a policy as a JSON value
/// and reading it back always succeeds and always yields the policy that
/// was written, character for character.
pub proof fn lemma_represented_policy_shape_ok(v: JsonValue, x: AllOrList<String>)
    requires
        represents_policy(v, x),
    ensures
        policy_shape_ok(v),
{
}

/// A JSON value that no forwarding policy can take.
#[derive(Debug, PartialEq, Eq, Structural)]
pub struct PolicyFromJsonError;

/// Reads a policy from a JSON value.
///
/// Exactly the string `*` gives the wildcard; any other string fails; an
/// array gives a list when every element is a string; every other shape
/// fails.
#[verifier::loop_isolation(false)]
pub fn deserialize_all_or_list(v: &JsonValue) -> (r: Result<AllOrList<String>, PolicyFromJsonError>)
    ensures
        r is Ok <==> policy_shape_ok(*v),
        r matches Ok(x) ==> represents_policy(*v, x),
{
    match v {
        JsonValue::Str(s) => {
            if str_eq(s.as_str(), "*") {
                Ok(AllOrList::All(All(())))
            } else {
                Err(PolicyFromJsonError)
            }
        },
        JsonValue::Array(items) => {
            let n = items.len();
            let mut out: Vec<String> = Vec::new();
            let mut i: usize = 0;
            while i < n
                invariant
                    0 <= i <= n,
                    n == items@.len(),
                    out@.len() == i,
                    forall|j: int|
                        0 <= j < i ==> (#[trigger] items@[j]) is Str && out@[j]@
                            == items@[j]->Str_0@,
                decreases n - i,
            {
                match &items[i] {
                    JsonValue::Str(s) => {
                        out.push(s.clone());
                    },
                    _ => {
                        return Err(PolicyFromJsonError);
                    },
                }
                i += 1;
            }
            Ok(AllOrList::List(out))
        },
        _ => Err(PolicyFromJsonError),
    }
}

} // verus!
