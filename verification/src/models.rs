//! The records the server keeps: ports, mocks, request and system logs.
use vstd::prelude::*;

use crate::json::Json;
use crate::text::{
    all_ascii, ascii_upper, chars_of, eq_str, push_str_chars, string_of, to_upper, upper_text,
};

verus! {

/// HTTP methods a mock can answer; `ANY` matches every method.
#[derive(Clone, Copy, Debug, PartialEq, Eq, Structural)]
#[allow(non_camel_case_types)]
pub enum HttpMethod {
    GET,
    POST,
    PUT,
    PATCH,
    DELETE,
    HEAD,
    OPTIONS,
    ANY,
}

/// The upper-case name of a method.
pub open spec fn method_name(m: HttpMethod) -> Seq<char> {
    match m {
        HttpMethod::GET => "GET"@,
        HttpMethod::POST => "POST"@,
        HttpMethod::PUT => "PUT"@,
        HttpMethod::PATCH => "PATCH"@,
        HttpMethod::DELETE => "DELETE"@,
        HttpMethod::HEAD => "HEAD"@,
        HttpMethod::OPTIONS => "OPTIONS"@,
        HttpMethod::ANY => "ANY"@,
    }
}

/// The method named by upper-case text, if any.
pub open spec fn method_of_name(u: Seq<char>) -> Option<HttpMethod> {
    if u == "GET"@ {
        Some(HttpMethod::GET)
    } else if u == "POST"@ {
        Some(HttpMethod::POST)
    } else if u == "PUT"@ {
        Some(HttpMethod::PUT)
    } else if u == "PATCH"@ {
        Some(HttpMethod::PATCH)
    } else if u == "DELETE"@ {
        Some(HttpMethod::DELETE)
    } else if u == "HEAD"@ {
        Some(HttpMethod::HEAD)
    } else if u == "OPTIONS"@ {
        Some(HttpMethod::OPTIONS)
    } else if u == "ANY"@ {
        Some(HttpMethod::ANY)
    } else {
        None
    }
}

/// What parsing a method name gives: the method whose name is the text's
/// upper-case form, or the error `unknown method: <upper-case text>`.
pub open spec fn parse_method_spec(s: Seq<char>) -> Result<HttpMethod, Seq<char>> {
    match method_of_name(upper_text(s)) {
        Some(m) => Ok(m),
        None => Err("unknown method: "@ + upper_text(s)),
    }
}

/// A method's name is upper-case ASCII and names the method.
proof fn lemma_name_is_upper_ascii(m: HttpMethod)
    ensures
        all_ascii(method_name(m)),
        method_name(m).map_values(|c: char| ascii_upper(c)) == method_name(m),
        method_of_name(method_name(m)) == Some(m),
{
    reveal_strlit("GET");
    reveal_strlit("POST");
    reveal_strlit("PUT");
    reveal_strlit("PATCH");
    reveal_strlit("DELETE");
    reveal_strlit("HEAD");
    reveal_strlit("OPTIONS");
    reveal_strlit("ANY");
    let n = method_name(m);
    assert(n.map_values(|c: char| ascii_upper(c)) =~= n);
    let names = seq!["GET"@, "POST"@, "PUT"@, "PATCH"@, "DELETE"@, "HEAD"@, "OPTIONS"@, "ANY"@];
    assert forall|i: int, j: int| 0 <= i < j < 8 implies names[i] != names[j] by {
        if names[i].len() == names[j].len() {
            if names[i][0] == names[j][0] {
                assert(names[i][1] != names[j][1]);
            } else {
                assert(names[i][0] != names[j][0]);
            }
        }
    }
    assert(names[0] == "GET"@ && names[1] == "POST"@ && names[2] == "PUT"@ && names[3] == "PATCH"@);
    assert(names[4] == "DELETE"@ && names[5] == "HEAD"@ && names[6] == "OPTIONS"@ && names[7] == "ANY"@);
}

impl HttpMethod {
    /// The method's name, as it is displayed.
    pub fn name(&self) -> (r: &'static str)
        ensures
            r@ == method_name(*self),
    {
        match self {
            HttpMethod::GET => "GET",
            HttpMethod::POST => "POST",
            HttpMethod::PUT => "PUT",
            HttpMethod::PATCH => "PATCH",
            HttpMethod::DELETE => "DELETE",
            HttpMethod::HEAD => "HEAD",
            HttpMethod::OPTIONS => "OPTIONS",
            HttpMethod::ANY => "ANY",
        }
    }

    /// The method's name as an owned string.
    pub fn to_text(&self) -> (r: String)
        ensures
            r@ == method_name(*self),
    {
        let v = chars_of(self.name());
        string_of(v.as_slice())
    }

    /// Parses a method name, ignoring case. A method's own name parses
    /// back to the method.
    pub fn parse(s: &str) -> (r: Result<HttpMethod, String>)
        ensures
            match (r, parse_method_spec(s@)) {
                (Ok(a), Ok(b)) => a == b,
                (Err(e), Err(f)) => e@ == f,
                _ => false,
            },
            forall|m: HttpMethod| s@ == method_name(m) ==> r == Ok::<HttpMethod, String>(m),
    {
        let up = to_upper(s);
        proof {
            assert forall|m: HttpMethod| s@ == method_name(m) implies parse_method_spec(s@) == Ok::<
                HttpMethod,
                Seq<char>,
            >(m) by {
                lemma_name_is_upper_ascii(m);
                assert(up@ =~= s@);
            }
        }
        let u = chars_of(up.as_str());
        if eq_str(&u, "GET") {
            Ok(HttpMethod::GET)
        } else if eq_str(&u, "POST") {
            Ok(HttpMethod::POST)
        } else if eq_str(&u, "PUT") {
            Ok(HttpMethod::PUT)
        } else if eq_str(&u, "PATCH") {
            Ok(HttpMethod::PATCH)
        } else if eq_str(&u, "DELETE") {
            Ok(HttpMethod::DELETE)
        } else if eq_str(&u, "HEAD") {
            Ok(HttpMethod::HEAD)
        } else if eq_str(&u, "OPTIONS") {
            Ok(HttpMethod::OPTIONS)
        } else if eq_str(&u, "ANY") {
            Ok(HttpMethod::ANY)
        } else {
            let mut msg = chars_of("unknown method: ");
            push_str_chars(&mut msg, up.as_str());
            Err(string_of(msg.as_slice()))
        }
    }
}

impl std::str::FromStr for HttpMethod {
    type Err = String;

    fn from_str(s: &str) -> (r: Result<HttpMethod, String>)
        ensures
            match (r, parse_method_spec(s@)) {
                (Ok(a), Ok(b)) => a == b,
                (Err(e), Err(f)) => e@ == f,
                _ => false,
            },
            forall|m: HttpMethod| s@ == method_name(m) ==> r == Ok::<HttpMethod, String>(m),
    {
        HttpMethod::parse(s)
    }
}

/// A port the server can listen on.
#[derive(Clone, Debug)]
pub struct PortConfig {
    pub id: i64,
    pub port: u16,
    pub label: String,
    pub enabled: bool,
    /// RFC 3339 creation time.
    pub created_at: String,
    /// Whether a server is listening on the port.
    pub running: bool,
    /// The process that owns the running server.
    pub owner_pid: Option<u32>,
}

/// A canned response and the requests it answers.
#[derive(Clone, Debug)]
pub struct MockApi {
    pub id: i64,
    pub port_id: i64,
    pub name: String,
    pub description: String,
    pub method: HttpMethod,
    pub path: String,
    pub request_schema: Option<Json>,
    pub response_status: u16,
    pub response_headers: Vec<(String, String)>,
    pub response_body: String,
    pub response_delay_ms: u64,
    pub enabled: bool,
    pub pagination_enabled: bool,
    pub pagination_page_size: u32,
    /// Parameters (by key) that filter a JSON response.
    pub request_params: Vec<(String, String)>,
    pub pagination_page_param: String,
    pub pagination_size_param: String,
    pub pagination_data_field: String,
    pub pagination_total_field: String,
    pub created_at: String,
    pub updated_at: String,
}

/// One request the server answered.
#[derive(Clone, Debug)]
pub struct RequestLog {
    pub id: i64,
    pub mock_api_id: Option<i64>,
    pub port: u16,
    pub method: String,
    pub path: String,
    pub query_string: Option<String>,
    pub request_headers: Vec<(String, String)>,
    pub request_body: Option<String>,
    pub response_status: u16,
    pub response_headers: Vec<(String, String)>,
    pub response_body: Option<String>,
    pub duration_ms: u64,
    pub client_ip: Option<String>,
    pub created_at: String,
}

/// One diagnostic event of the server itself.
#[derive(Clone, Debug)]
pub struct SystemLog {
    pub id: i64,
    pub level: String,
    pub target: String,
    pub message: String,
    pub fields: Option<Json>,
    pub created_at: String,
}

/// Which set of records changed.
#[derive(Clone, Copy, Debug, PartialEq, Eq, Structural)]
pub enum StateResource {
    Ports,
    Mocks,
}

/// An event broadcast to the user interfaces.
#[derive(Clone, Debug)]
pub enum LogEvent {
    Request(RequestLog),
    System(SystemLog),
    StateChanged { resource: StateResource },
}

} // verus!
