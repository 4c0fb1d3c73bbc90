//! The text of the request that the HTTP client sends.

use vstd::prelude::*;

verus! {

/// The request for `path` on `host`: the request line, the `Host`, `Accept`
/// and `Connection` headers, and the empty line that ends them.
pub open spec fn request_text(host: Seq<char>, path: Seq<char>) -> Seq<char> {
    "GET /"@ + path + " HTTP/1.1\n"@ + "Host: "@ + host + "\n"@ + "Accept: test/html\n"@
        + "Connection: close\n"@ + "\n"@
}

/// A client that sends one `GET` per connection.
#[derive(Debug, Clone, Copy, PartialEq, Eq)]
pub struct HttpClient {}

impl HttpClient {
    pub fn new() -> (r: Self)
        ensures
            r == (HttpClient {  }),
    {
        Self {  }
    }

    /// The text to send for `path` on `host`.
    pub fn request(&self, host: &str, path: &str) -> (r: String)
        ensures
            r@ == request_text(host@, path@),
    {
        let mut request = "GET /".to_owned();
        request.append(path);
        request.append(" HTTP/1.1\n");
        request.append("Host: ");
        request.append(host);
        request.append("\n");
        request.append("Accept: test/html\n");
        request.append("Connection: close\n");
        request.append("\n");
        request
    }
}

} // verus!
