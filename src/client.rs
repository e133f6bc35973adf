//! An HTTP client description built from connection data: it forms the
//! requests a handler sends and reads the responses it gets back. Sending
//! is left to the host's transport.
use vstd::prelude::*;
use crate::dispatch::{compact_json, compact_text, json_valid, parse_json, parsed_value};
use crate::embed::{decimal, decimal_string};
use crate::error::{app_error, AppError, ErrorCode};

verus! {

#[derive(Debug, Clone, Copy, PartialEq, Eq, Structural)]
pub enum HttpMethod {
    Get,
    Post,
    Patch,
    Put,
    Delete,
}

/// A request ready for the transport.
#[derive(Debug)]
pub struct HttpRequest {
    pub method: HttpMethod,
    pub url: String,
    pub headers: Vec<(String, String)>,
    pub body: Option<String>,
}

/// The base URL and headers that every request of a connection carries.
#[derive(Debug)]
pub struct ApiClient {
    base_url: String,
    headers: Vec<(String, String)>,
}

pub open spec fn header_views(v: Seq<(String, String)>) -> Seq<(Seq<char>, Seq<char>)> {
    v.map_values(|p: (String, String)| (p.0@, p.1@))
}

pub open spec fn raw_header_views(v: Seq<(String, Option<String>)>) -> Seq<(Seq<char>, Option<Seq<char>>)> {
    v.map_values(
        |p: (String, Option<String>)|
            (
                p.0@,
                match p.1 {
                    Some(s) => Some(s@),
                    None => None,
                },
            ),
    )
}

/// The headers whose value is text, in order.
pub open spec fn text_headers(s: Seq<(Seq<char>, Option<Seq<char>>)>) -> Seq<(Seq<char>, Seq<char>)>
    decreases s.len(),
{
    if s.len() == 0 {
        Seq::empty()
    } else {
        let rest = text_headers(s.drop_last());
        match s.last().1 {
            Some(v) => rest.push((s.last().0, v)),
            None => rest,
        }
    }
}

/// The status codes a method accepts: exactly 200 for `GET`, any 2xx
/// otherwise.
pub open spec fn status_accepted(method: HttpMethod, status: u16) -> bool {
    match method {
        HttpMethod::Get => status == 200,
        _ => 200 <= status < 300,
    }
}

/// The message of a rejected status.
pub open spec fn status_message(status: u16, url: Seq<char>, body: Seq<char>) -> Seq<char> {
    "API request failed with status: "@ + decimal(status as nat) + " - URL: "@ + url + " - Response: "@
        + body
}

impl ApiClient {
    pub closed spec fn base_url_view(&self) -> Seq<char> {
        self.base_url@
    }

    pub closed spec fn headers_view(&self) -> Seq<(Seq<char>, Seq<char>)> {
        header_views(self.headers@)
    }

    /// A client from connection data: its `base_url` and `headers` members,
    /// the latter with each value that is text, or `None` for a member that
    /// is not. Either member missing is a `Misconfigured` error.
    pub fn new(base_url: Option<String>, headers: Option<Vec<(String, Option<String>)>>) -> (r: Result<
        ApiClient,
        AppError,
    >)
        ensures
            r is Ok <==> base_url is Some && headers is Some,
            r matches Err(e) ==> e.code == ErrorCode::Misconfigured,
            base_url is None ==> (r matches Err(e) && e.message@ == "base_url not found in connection data"@),
            base_url is Some && headers is None ==> (r matches Err(e) && e.message@
                == "Headers not found in connection data"@),
            r matches Ok(c) ==> c.base_url_view() == base_url->Some_0@ && c.headers_view()
                == text_headers(raw_header_views(headers->Some_0@)),
    {
        let base_url = match base_url {
            Some(b) => b,
            None => {
                return Err(app_error(ErrorCode::Misconfigured, "base_url not found in connection data"));
            },
        };
        let raw = match headers {
            Some(h) => h,
            None => {
                return Err(app_error(ErrorCode::Misconfigured, "Headers not found in connection data"));
            },
        };
        let mut kept: Vec<(String, String)> = Vec::new();
        let mut i: usize = 0;
        while i < raw.len()
            invariant
                i <= raw@.len(),
                header_views(kept@) == text_headers(raw_header_views(raw@).subrange(0, i as int)),
            decreases raw@.len() - i,
        {
            let ghost rv = raw_header_views(raw@);
            assert(rv.subrange(0, i as int + 1).drop_last() =~= rv.subrange(0, i as int));
            let (key, value) = &raw[i];
            if let Some(v) = value {
                kept.push((key.clone(), v.clone()));
                assert(header_views(kept@) =~= text_headers(rv.subrange(0, i as int + 1)));
            }
            i = i + 1;
        }
        assert(raw_header_views(raw@).subrange(0, i as int) =~= raw_header_views(raw@));
        Ok(ApiClient { base_url, headers: kept })
    }

    /// The base URL.
    pub fn base_url(&self) -> (r: &String)
        ensures
            r@ == self.base_url_view(),
    {
        &self.base_url
    }

    fn request(&self, method: HttpMethod, endpoint: &str, body: Option<String>) -> (r: HttpRequest)
        ensures
            r.method == method,
            r.url@ == self.base_url_view() + endpoint@,
            header_views(r.headers@) == self.headers_view(),
            r.body == body,
    {
        let url = self.base_url.clone().concat(endpoint);
        let mut headers: Vec<(String, String)> = Vec::new();
        let mut i: usize = 0;
        while i < self.headers.len()
            invariant
                i <= self.headers@.len(),
                headers@.len() == i,
                header_views(headers@) == header_views(self.headers@).subrange(0, i as int),
            decreases self.headers@.len() - i,
        {
            let (k, v) = &self.headers[i];
            headers.push((k.clone(), v.clone()));
            assert(header_views(headers@) =~= header_views(self.headers@).subrange(0, i as int + 1));
            i = i + 1;
        }
        assert(header_views(self.headers@).subrange(0, i as int) =~= header_views(self.headers@));
        HttpRequest { method, url, headers, body }
    }

    fn request_with_body(&self, method: HttpMethod, endpoint: &str, body: &serde_json::Value) -> (r: Result<
        HttpRequest,
        AppError,
    >)
        ensures
            r matches Ok(q) ==> q.method == method && q.url@ == self.base_url_view() + endpoint@
                && header_views(q.headers@) == self.headers_view() && (q.body matches Some(b) && b@
                == compact_text(*body)),
            r is Ok,
    {
        match compact_json(body) {
            Ok(text) => Ok(self.request(method, endpoint, Some(text))),
            Err(_) => Err(app_error(ErrorCode::Other, "Failed to serialize JSON body")),
        }
    }

    /// A `GET` of `endpoint`, relative to the base URL.
    pub fn get(&self, endpoint: &str) -> (r: HttpRequest)
        ensures
            r.method == HttpMethod::Get,
            r.url@ == self.base_url_view() + endpoint@,
            header_views(r.headers@) == self.headers_view(),
            r.body is None,
    {
        self.request(HttpMethod::Get, endpoint, None)
    }

    /// A `DELETE` of `endpoint`, relative to the base URL.
    pub fn delete(&self, endpoint: &str) -> (r: HttpRequest)
        ensures
            r.method == HttpMethod::Delete,
            r.url@ == self.base_url_view() + endpoint@,
            header_views(r.headers@) == self.headers_view(),
            r.body is None,
    {
        self.request(HttpMethod::Delete, endpoint, None)
    }

    /// A `POST` of `body`, serialized as JSON, to `endpoint`.
    pub fn post(&self, endpoint: &str, body: &serde_json::Value) -> (r: Result<HttpRequest, AppError>)
        ensures
            r matches Ok(q) ==> q.method == HttpMethod::Post && q.url@ == self.base_url_view()
                + endpoint@ && header_views(q.headers@) == self.headers_view() && (q.body matches Some(
                b) && b@ == compact_text(*body)),
            r is Ok,
    {
        self.request_with_body(HttpMethod::Post, endpoint, body)
    }

    /// A `PATCH` of `body`, serialized as JSON, to `endpoint`.
    pub fn patch(&self, endpoint: &str, body: &serde_json::Value) -> (r: Result<HttpRequest, AppError>)
        ensures
            r matches Ok(q) ==> q.method == HttpMethod::Patch && q.url@ == self.base_url_view()
                + endpoint@ && header_views(q.headers@) == self.headers_view() && (q.body matches Some(
                b) && b@ == compact_text(*body)),
            r is Ok,
    {
        self.request_with_body(HttpMethod::Patch, endpoint, body)
    }

    /// A `PUT` of `body`, serialized as JSON, to `endpoint`.
    pub fn put(&self, endpoint: &str, body: &serde_json::Value) -> (r: Result<HttpRequest, AppError>)
        ensures
            r matches Ok(q) ==> q.method == HttpMethod::Put && q.url@ == self.base_url_view()
                + endpoint@ && header_views(q.headers@) == self.headers_view() && (q.body matches Some(
                b) && b@ == compact_text(*body)),
            r is Ok,
    {
        self.request_with_body(HttpMethod::Put, endpoint, body)
    }
}

/// Reads the transport's answer to a request: `None` when sending failed,
/// else the status and body. A failed send is an `Other` error; a status
/// the method does not accept is an `Other` error naming the status, URL
/// and body; a body that is not well-formed JSON is `MalformedResponse`;
/// otherwise the parsed body.
pub fn read_response(method: HttpMethod, url: &str, answer: Option<(u16, String)>) -> (r: Result<
    serde_json::Value,
    AppError,
>)
    ensures
        answer is None ==> (r matches Err(e) && e.code == ErrorCode::Other && e.message@
            == "Request failed"@),
        answer is Some ==> ({
            let (status, body) = answer->Some_0;
            &&& !status_accepted(method, status) ==> (r matches Err(e) && e.code == ErrorCode::Other
                && e.message@ == status_message(status, url@, body@))
            &&& status_accepted(method, status) ==> (r is Ok <==> json_valid(body@))
            &&& status_accepted(method, status) && !json_valid(body@) ==> (r matches Err(e) && e.code
                == ErrorCode::MalformedResponse && e.message@ == "Invalid API response format"@)
            &&& r matches Ok(v) ==> v == parsed_value(body@)
        }),
{
    let (status, body) = match answer {
        None => {
            return Err(app_error(ErrorCode::Other, "Request failed"));
        },
        Some(a) => a,
    };
    let accepted = match method {
        HttpMethod::Get => status == 200,
        _ => 200 <= status && status < 300,
    };
    if !accepted {
        let mut message = String::from_str("API request failed with status: ");
        let code = decimal_string(status as u64);
        message.append(code.as_str());
        message.append(" - URL: ");
        message.append(url);
        message.append(" - Response: ");
        message.append(body.as_str());
        return Err(AppError { code: ErrorCode::Other, message });
    }
    match parse_json(body.as_str()) {
        Ok(v) => Ok(v),
        Err(_) => Err(app_error(ErrorCode::MalformedResponse, "Invalid API response format")),
    }
}

} // verus!
