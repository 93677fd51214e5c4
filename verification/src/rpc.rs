//! Testing the node's JSON-RPC endpoints with an access token: where the
//! request goes, and how the reply is judged.

use vstd::prelude::*;
use crate::text::{chars_of, opt_view, push_chars, push_str, string_of, trim_end_matches,
    trim_end_matches_exec};

verus! {

/// The outcome of one `eth_blockNumber` call.
#[derive(Debug)]
pub struct RpcTestResult {
    pub success: bool,
    /// The block number the endpoint reported, as it wrote it.
    pub block_number: Option<String>,
    pub response_time_ms: u128,
    pub error: Option<String>,
}

/// What came back from a request, as the HTTP client and the JSON decoder
/// saw it.
#[derive(Debug)]
pub enum RpcReply {
    /// The request could not be sent or answered; the client's message.
    RequestFailed(String),
    /// The status was not a success; the status as the client writes it.
    HttpStatus(String),
    /// The body was not JSON; the decoder's message.
    InvalidJson(String),
    /// The body had an `error` member; that member as JSON text.
    RpcError(String),
    /// The body had no `error` member; its `result` member where that is
    /// a string.
    Answer(Option<String>),
}

/// The URL a token is tested at: the endpoint without trailing slashes,
/// a slash and the token.
pub open spec fn endpoint_url_of(url: Seq<char>, token: Option<Seq<char>>) -> Seq<char> {
    match token {
        Some(t) => trim_end_matches(url, "/"@) + "/"@ + t,
        None => url,
    }
}

/// Where a token is tested.
pub fn endpoint_url(url: &str, token: Option<&str>) -> (r: String)
    ensures
        r@ == endpoint_url_of(url@, match token {
            Some(t) => Some(t@),
            None => None,
        }),
{
    match token {
        Some(t) => {
            let base = trim_end_matches_exec(&chars_of(url), &chars_of("/"));
            let mut out: Vec<char> = Vec::new();
            push_chars(&mut out, &base);
            push_str(&mut out, "/");
            push_str(&mut out, t);
            string_of(&out)
        },
        None => crate::text::owned(url),
    }
}

/// The plain and the TLS endpoint of a domain, both on port 8545.
pub open spec fn endpoint_pair_of(domain: Seq<char>) -> (Seq<char>, Seq<char>) {
    ("http://"@ + domain + ":8545"@, "https://"@ + domain + ":8545"@)
}

/// The two endpoints that are tested for a domain.
pub fn endpoint_urls(domain: &str) -> (r: (String, String))
    ensures
        (r.0@, r.1@) == endpoint_pair_of(domain@),
{
    (crate::text::concat3("http://", domain, ":8545"), crate::text::concat3("https://", domain, ":8545"))
}

/// The result a reply gives, after `elapsed_ms` milliseconds.
pub open spec fn result_of(reply: RpcReply, elapsed_ms: u128) -> (bool, Option<Seq<char>>, u128, Option<Seq<char>>) {
    match reply {
        RpcReply::RequestFailed(m) => (false, None, elapsed_ms, Some("Request failed: "@ + m@)),
        RpcReply::HttpStatus(s) => (false, None, elapsed_ms, Some("HTTP "@ + s@)),
        RpcReply::InvalidJson(m) => (false, None, elapsed_ms, Some("Invalid JSON response: "@ + m@)),
        RpcReply::RpcError(e) => (false, None, elapsed_ms, Some("RPC error: "@ + e@)),
        RpcReply::Answer(b) => (true, opt_view(b), elapsed_ms, None),
    }
}

impl RpcTestResult {
    /// The fields as text.
    pub open spec fn fields(&self) -> (bool, Option<Seq<char>>, u128, Option<Seq<char>>) {
        (self.success, opt_view(self.block_number), self.response_time_ms, opt_view(self.error))
    }

    /// Judges a reply: only an answer without an `error` member succeeds.
    pub fn from_reply(reply: RpcReply, elapsed_ms: u128) -> (r: RpcTestResult)
        ensures
            r.fields() == result_of(reply, elapsed_ms),
    {
        match reply {
            RpcReply::RequestFailed(m) => RpcTestResult {
                success: false,
                block_number: None,
                response_time_ms: elapsed_ms,
                error: Some(crate::text::concat2("Request failed: ", m.as_str())),
            },
            RpcReply::HttpStatus(s) => RpcTestResult {
                success: false,
                block_number: None,
                response_time_ms: elapsed_ms,
                error: Some(crate::text::concat2("HTTP ", s.as_str())),
            },
            RpcReply::InvalidJson(m) => RpcTestResult {
                success: false,
                block_number: None,
                response_time_ms: elapsed_ms,
                error: Some(crate::text::concat2("Invalid JSON response: ", m.as_str())),
            },
            RpcReply::RpcError(e) => RpcTestResult {
                success: false,
                block_number: None,
                response_time_ms: elapsed_ms,
                error: Some(crate::text::concat2("RPC error: ", e.as_str())),
            },
            RpcReply::Answer(b) => RpcTestResult {
                success: true,
                block_number: b,
                response_time_ms: elapsed_ms,
                error: None,
            },
        }
    }
}

} // verus!
