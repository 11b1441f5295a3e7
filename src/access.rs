//! Who may call what: token claims, endpoint groups, and the requests that
//! manage endpoints and users.

use crate::endpoint::EndpointInfoCreateRequest;
use crate::text::{push_text, str_eq, text_of, texts};
use crate::text_map::TextMap;
use vstd::prelude::*;

verus! {

/// The claims of a login token.
#[derive(Debug, PartialEq, Eq)]
pub struct Claims {
    username: String,
    user_group: String,
    exp: usize,
}

/// The HTTP status of a refused request.
pub const UNAUTHORIZED: u16 = 401;

impl Claims {
    pub fn new(username: String, user_group: String, exp: usize) -> (r: Claims)
        ensures
            r.spec_username() == username,
            r.spec_user_group() == user_group,
            r.spec_exp() == exp,
    {
        Claims { username, user_group, exp }
    }

    pub closed spec fn spec_username(&self) -> String {
        self.username
    }

    pub closed spec fn spec_user_group(&self) -> String {
        self.user_group
    }

    pub closed spec fn spec_exp(&self) -> usize {
        self.exp
    }

    pub fn username(&self) -> (r: &String)
        ensures
            *r == self.spec_username(),
    {
        &self.username
    }

    pub fn user_group(&self) -> (r: &String)
        ensures
            *r == self.spec_user_group(),
    {
        &self.user_group
    }

    pub fn exp(&self) -> (r: usize)
        ensures
            r == self.spec_exp(),
    {
        self.exp
    }

    /// Succeeds for the `ADMIN` group; otherwise fails with status 401.
    pub fn must_be_admin(&self) -> (r: Result<(), (u16, String)>)
        ensures
            r is Ok <==> self.spec_user_group()@ == "ADMIN"@,
            r matches Err(e) ==> e.0 == UNAUTHORIZED && e.1@ == "User must be an admin"@,
    {
        if str_eq(self.user_group.as_str(), "ADMIN") {
            Ok(())
        } else {
            Err((UNAUTHORIZED, text_of("User must be an admin")))
        }
    }
}

/// `text` is one of `list`.
pub open spec fn listed(list: Seq<Seq<char>>, text: Seq<char>) -> bool {
    exists|i: int| 0 <= i < list.len() && #[trigger] list[i] == text
}

/// A caller may call an endpoint that is `PUBLIC`; otherwise a signed-in
/// caller of the `ADMIN` group, or of one of the allowed groups.
pub open spec fn may_call(claims: Option<Claims>, allowed_groups: Seq<Seq<char>>) -> bool {
    listed(allowed_groups, "PUBLIC"@) || match claims {
        None => false,
        Some(c) => c.spec_user_group()@ == "ADMIN"@ || listed(allowed_groups, c.spec_user_group()@),
    }
}

fn is_listed(list: &Vec<String>, text: &str) -> (r: bool)
    ensures
        r == listed(texts(list@), text@),
{
    let n = list.len();
    let mut i: usize = 0;
    while i < n
        invariant
            n == list@.len(),
            i <= n,
            forall|j: int| 0 <= j < i ==> (#[trigger] texts(list@)[j]) != text@,
        decreases n - i,
    {
        if str_eq(list[i].as_str(), text) {
            assert(texts(list@)[i as int] == text@);
            return true;
        }
        i += 1;
    }
    false
}

/// Whether the caller with `claims_opt` may call an endpoint open to
/// `allowed_groups`.
pub fn can_call_endpoint(claims_opt: Option<&Claims>, allowed_groups: Vec<String>) -> (r: bool)
    ensures
        r == may_call(
            match claims_opt {
                Some(c) => Some(*c),
                None => None,
            },
            texts(allowed_groups@),
        ),
{
    if is_listed(&allowed_groups, "PUBLIC") {
        return true;
    }
    match claims_opt {
        None => false,
        Some(claims) => {
            let current_group = claims.user_group();
            if str_eq(current_group.as_str(), "ADMIN") {
                return true;
            }
            is_listed(&allowed_groups, current_group.as_str())
        },
    }
}

#[verifier::external_type_specification]
#[verifier::external_body]
pub struct ExJsonError(serde_json::Error);

/// The strings of the JSON array `s`, or `None` when `s` is not a JSON
/// array of strings.
pub uninterp spec fn json_string_list(s: Seq<char>) -> Option<Seq<Seq<char>>>;

/// Relies on `serde_json::from_str::<Vec<String>>`: it parses a JSON array of
/// strings, and what it returns depends on the text alone.
#[verifier::external_body]
fn parse_string_list(json: &str) -> (r: Result<Vec<String>, serde_json::Error>)
    ensures
        match r {
            Ok(v) => json_string_list(json@) == Some(texts(v@)),
            Err(_) => json_string_list(json@) is None,
        },
{
    serde_json::from_str::<Vec<String>>(json)
}

/// Relies on the `Display` of `serde_json::Error`: the message of a parse error.
#[verifier::external_body]
fn json_error_message(e: &serde_json::Error) -> String {
    e.to_string()
}

/// Whether the caller with `claims_opt` may call an endpoint whose allowed
/// groups are stored as the JSON array `allowed_groups_json`; stored text
/// that is not such an array is an error.
pub fn authorize_endpoint(claims_opt: Option<&Claims>, allowed_groups_json: &str) -> (r: Result<
    bool,
    String,
>)
    ensures
        match json_string_list(allowed_groups_json@) {
            None => r is Err,
            Some(groups) => r == Ok::<bool, String>(
                may_call(
                    match claims_opt {
                        Some(c) => Some(*c),
                        None => None,
                    },
                    groups,
                ),
            ),
        },
{
    match parse_string_list(allowed_groups_json) {
        Ok(groups) => Ok(can_call_endpoint(claims_opt, groups)),
        Err(e) => Err(json_error_message(&e)),
    }
}

/// The HTTP method an endpoint answers.
#[derive(Debug, PartialEq, Eq, Clone, Copy)]
pub enum CreateEndpointMethod {
    GET,
    POST,
    ANY,
}

pub open spec fn method_name(m: CreateEndpointMethod) -> Seq<char> {
    match m {
        CreateEndpointMethod::GET => "GET"@,
        CreateEndpointMethod::POST => "POST"@,
        CreateEndpointMethod::ANY => "ANY"@,
    }
}

impl CreateEndpointMethod {
    pub fn to_string(&self) -> (r: &'static str)
        ensures
            r@ == method_name(*self),
    {
        match self {
            CreateEndpointMethod::GET => "GET",
            CreateEndpointMethod::POST => "POST",
            CreateEndpointMethod::ANY => "ANY",
        }
    }

    /// The method named `s`; any other text is an error.
    pub fn from_str(s: &str) -> (r: Result<Self, String>)
        ensures
            match r {
                Ok(m) => method_name(m) == s@,
                Err(e) => s@ != "GET"@ && s@ != "POST"@ && s@ != "ANY"@ && e@ == s@
                    + " is not a method"@,
            },
    {
        if str_eq(s, "GET") {
            Ok(CreateEndpointMethod::GET)
        } else if str_eq(s, "POST") {
            Ok(CreateEndpointMethod::POST)
        } else if str_eq(s, "ANY") {
            Ok(CreateEndpointMethod::ANY)
        } else {
            let mut e = text_of(s);
            push_text(&mut e, " is not a method");
            Err(e)
        }
    }
}

/// A new endpoint: its path, method, definitions and allowed groups.
#[derive(Debug, PartialEq, Eq)]
pub struct CreateEndpointRequest {
    pub path: String,
    pub method: CreateEndpointMethod,
    pub endpoints_info: Vec<EndpointInfoCreateRequest>,
    pub allowed_groups: Vec<String>,
}

/// A stored endpoint.
#[derive(Debug, PartialEq, Eq)]
pub struct GetEndpointInfo {
    pub id: i32,
    pub path: String,
    pub method: CreateEndpointMethod,
    pub endpoints_info: Vec<EndpointInfoCreateRequest>,
    pub allowed_groups: Vec<String>,
}

/// New contents for the stored endpoint `id`.
#[derive(Debug, PartialEq, Eq)]
pub struct UpdateEndpointRequest {
    pub id: i32,
    pub path: String,
    pub method: CreateEndpointMethod,
    pub endpoints_info: Vec<EndpointInfoCreateRequest>,
    pub allowed_groups: Vec<String>,
}

impl UpdateEndpointRequest {
    /// The new contents, and the endpoint they are for.
    pub fn to_create_and_id(self) -> (r: (CreateEndpointRequest, i32))
        ensures
            r.0.path == self.path,
            r.0.method == self.method,
            r.0.endpoints_info == self.endpoints_info,
            r.0.allowed_groups == self.allowed_groups,
            r.1 == self.id,
    {
        (
            CreateEndpointRequest {
                path: self.path,
                method: self.method,
                endpoints_info: self.endpoints_info,
                allowed_groups: self.allowed_groups,
            },
            self.id,
        )
    }
}

/// The stored endpoint to delete.
#[derive(Debug, PartialEq, Eq)]
pub struct DeleteEndpointRequest {
    pub id: i32,
}

/// A dry run of endpoint definitions with the given request variables.
#[derive(Debug, PartialEq, Eq)]
pub struct EndpointTestRequest {
    pub create_req: CreateEndpointRequest,
    pub req_variables: TextMap,
}

/// How a dry run went: the results, or the error.
#[derive(Debug, PartialEq, Eq)]
pub struct EndpointTestResult {
    pub ok: bool,
    pub msg: String,
}

/// What is stored for an endpoint and read back to execute it.
#[derive(Debug, PartialEq, Eq)]
pub struct EndpointExecutionInfo {
    pub req_method: String,
    pub handler_info: String,
    pub allowed_groups: String,
}

} // verus!
