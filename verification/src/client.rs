//! The request paths and bodies that the command-line client sends to the
//! server's API.

use vstd::prelude::*;

use crate::http::{decimal_text, push_decimal};

verus! {

broadcast use vstd::string::group_string_axioms;

/// The query string of a record filter: `name=<name>` and `type=<type>`
/// for those given, joined by `&`, after a `?`; empty when neither is given.
pub open spec fn filter_query(name: Option<Seq<char>>, rtype: Option<Seq<char>>) -> Seq<char> {
    match (name, rtype) {
        (None, None) => Seq::empty(),
        (Some(n), None) => "?name="@ + n,
        (None, Some(t)) => "?type="@ + t,
        (Some(n), Some(t)) => "?name="@ + n + "&type="@ + t,
    }
}

/// The view of an optional text.
pub open spec fn opt_view(o: Option<&str>) -> Option<Seq<char>> {
    match o {
        Some(s) => Some(s@),
        None => None,
    }
}

/// The path that lists or deletes records, with an optional filter.
pub fn records_path(name: Option<&str>, rtype: Option<&str>) -> (p: String)
    ensures
        p@ == "/api/v1/records"@ + filter_query(opt_view(name), opt_view(rtype)),
{
    let p = String::from_str("/api/v1/records");
    let p = match name {
        Some(n) => p.concat("?name=").concat(n),
        None => p,
    };
    let p = match (name, rtype) {
        (Some(_), Some(t)) => p.concat("&type=").concat(t),
        (None, Some(t)) => p.concat("?type=").concat(t),
        _ => p,
    };
    assert(p@ =~= "/api/v1/records"@ + filter_query(opt_view(name), opt_view(rtype)));
    p
}

/// The path of one record.
pub fn record_path(id: &str) -> (p: String)
    ensures
        p@ == "/api/v1/records/"@ + id@,
{
    String::from_str("/api/v1/records/").concat(id)
}

/// The path that flushes the cache, for one name or for all.
pub fn cache_path(name: Option<&str>) -> (p: String)
    ensures
        p@ == match name {
            Some(n) => "/api/v1/cache?name="@ + n@,
            None => "/api/v1/cache"@,
        },
{
    match name {
        Some(n) => String::from_str("/api/v1/cache?name=").concat(n),
        None => String::from_str("/api/v1/cache"),
    }
}

/// The JSON body that adds a record; the texts are put in as they are.
pub open spec fn add_body(name: Seq<char>, rtype: Seq<char>, ttl: u32, data: Seq<char>) -> Seq<char> {
    "{\"name\":\""@ + name + "\",\"type\":\""@ + rtype + "\",\"ttl\":"@ + decimal_text(ttl as nat)
        + ",\"data\":\""@ + data + "\"}"@
}

/// The JSON body that adds a record; see `add_body`.
pub fn add_record_body(name: &str, rtype: &str, ttl: u32, data: &str) -> (b: String)
    ensures
        b@ == add_body(name@, rtype@, ttl, data@),
{
    let mut b = String::from_str("{\"name\":\"").concat(name).concat("\",\"type\":\"").concat(rtype).concat(
        "\",\"ttl\":",
    );
    push_decimal(&mut b, ttl as u64);
    let b = b.concat(",\"data\":\"").concat(data).concat("\"}");
    assert(b@ =~= add_body(name@, rtype@, ttl, data@));
    b
}


/// The command line: one command.
pub struct Cli {
    pub command: Command,
}

/// What the command-line client can be asked to do.
#[allow(inconsistent_fields)]
pub enum Command {
    /// Add a record (`rtype` as given, `ttl` in seconds).
    Add { name: String, rtype: String, data: String, ttl: u32 },
    /// List the records, optionally filtered by name and type.
    List { name: Option<String>, rtype: Option<String> },
    /// Delete the record of an id, or else the records that pass a filter.
    Delete { id: Option<String>, name: Option<String>, rtype: Option<String> },
    /// Ask whether the server is up.
    Health,
    /// Flush the fallback cache, for one name or for all.
    Flush { name: Option<String> },
}

/// The HTTP request that carries out a command, and the status code that
/// reports its success.
pub struct ApiRequest {
    pub method: &'static str,
    pub path: String,
    pub body: Option<String>,
    pub success: u16,
}

/// The view of an optional owned text.
pub open spec fn opt_string_view(o: Option<String>) -> Option<Seq<char>> {
    match o {
        Some(s) => Some(s@),
        None => None,
    }
}

/// The request of a command: its method, path, body and success status.
pub open spec fn request_of(cmd: Command) -> (Seq<char>, Seq<char>, Option<Seq<char>>, u16) {
    match cmd {
        Command::Add { name, rtype, data, ttl } => (
            "POST"@,
            "/api/v1/records"@,
            Some(add_body(name@, rtype@, ttl, data@)),
            201,
        ),
        Command::List { name, rtype } => (
            "GET"@,
            "/api/v1/records"@ + filter_query(opt_string_view(name), opt_string_view(rtype)),
            None,
            200,
        ),
        Command::Delete { id, name, rtype } => match id {
            Some(i) => ("DELETE"@, "/api/v1/records/"@ + i@, None, 204),
            None => (
                "DELETE"@,
                "/api/v1/records"@ + filter_query(opt_string_view(name), opt_string_view(rtype)),
                None,
                204,
            ),
        },
        Command::Health => ("GET"@, "/health"@, None, 200),
        Command::Flush { name } => (
            "DELETE"@,
            match name {
                Some(n) => "/api/v1/cache?name="@ + n@,
                None => "/api/v1/cache"@,
            },
            None,
            200,
        ),
    }
}

/// The request that carries out `cmd`; see `request_of`.
pub fn api_request(cmd: &Command) -> (r: ApiRequest)
    ensures
        (r.method@, r.path@, opt_string_view(r.body), r.success) == request_of(*cmd),
{
    match cmd {
        Command::Add { name, rtype, data, ttl } => ApiRequest {
            method: "POST",
            path: records_path(None, None),
            body: Some(add_record_body(name.as_str(), rtype.as_str(), *ttl, data.as_str())),
            success: 201,
        },
        Command::List { name, rtype } => ApiRequest {
            method: "GET",
            path: records_path(opt_str(name), opt_str(rtype)),
            body: None,
            success: 200,
        },
        Command::Delete { id, name, rtype } => match id {
            Some(i) => ApiRequest { method: "DELETE", path: record_path(i.as_str()), body: None, success: 204 },
            None => ApiRequest {
                method: "DELETE",
                path: records_path(opt_str(name), opt_str(rtype)),
                body: None,
                success: 204,
            },
        },
        Command::Health => ApiRequest { method: "GET", path: String::from_str("/health"), body: None, success: 200 },
        Command::Flush { name } => ApiRequest {
            method: "DELETE",
            path: cache_path(opt_str(name)),
            body: None,
            success: 200,
        },
    }
}

/// An optional owned text, borrowed.
fn opt_str(o: &Option<String>) -> (r: Option<&str>)
    ensures
        opt_view(r) == opt_string_view(*o),
{
    match o {
        Some(s) => Some(s.as_str()),
        None => None,
    }
}

/// The status code that reports a command's success.
pub open spec fn success_status(cmd: Command) -> u16 {
    match cmd {
        Command::Add { .. } => 201,
        Command::List { .. } => 200,
        Command::Delete { .. } => 204,
        Command::Health => 200,
        Command::Flush { .. } => 200,
    }
}

/// How the client reports a response to a command.
#[derive(Clone, Copy, Debug, PartialEq, Eq, Structural)]
pub enum Outcome {
    /// The command succeeded: its result is printed.
    Succeeded,
    /// The record to delete by id does not exist.
    NotFound,
    /// The server answered with another status: an error is reported.
    Failed,
}

/// The outcome of a response with status `status` to `cmd`.
pub open spec fn outcome_of(cmd: Command, status: u16) -> Outcome {
    if status == success_status(cmd) {
        Outcome::Succeeded
    } else if status == 404 && (cmd matches Command::Delete { id: Some(_), .. }) {
        Outcome::NotFound
    } else {
        Outcome::Failed
    }
}

/// The outcome of a response with status `status` to `cmd`; see `outcome_of`.
pub fn response_outcome(cmd: &Command, status: u16) -> (o: Outcome)
    ensures
        o == outcome_of(*cmd, status),
{
    let success: u16 = match cmd {
        Command::Add { .. } => 201,
        Command::List { .. } => 200,
        Command::Delete { .. } => 204,
        Command::Health => 200,
        Command::Flush { .. } => 200,
    };
    if status == success {
        Outcome::Succeeded
    } else if status == 404 && (match cmd {
        Command::Delete { id: Some(_), .. } => true,
        _ => false,
    }) {
        Outcome::NotFound
    } else {
        Outcome::Failed
    }
}

} // verus!
