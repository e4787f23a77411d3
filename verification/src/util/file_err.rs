//! The pages and responses that the gateway produces by itself.

use vstd::prelude::*;
use vstd::slice::slice_to_vec;
use vstd::string::{StringExecFns, StringSliceAdditionalSpecFns};

use crate::util::mime::{get_mime_type, mime_of};

verus! {

/// The page sent when a static source has neither the file asked for nor a
/// `404.html` of its own.
pub const PAGE404: &'static str = r#"<!DOCTYPE html>
<html>
  <head>
    <title>404</title>
    <style>
      html {
        color-scheme: light dark;
      }
      body {
        width: 35em;
        margin: 0 auto;
        font-family: Tahoma, Verdana, Arial, sans-serif;
      }
    </style>
  </head>
  <body>
    <h1>404 Not Found</h1>
    <p>
      The page you visited does not exist.
    </p>
    <p><em>Powered by <a href="https://pingpong.bluemangoo.net/">Pingpong</a>.</em></p>
  </body>
</html>
"#;

/// The page sent when a request cannot be routed or proxied.
pub const PAGE50X: &'static str = r#"<!DOCTYPE html>
<html>
  <head>
    <title>An error occurred.</title>
    <style>
      html {
        color-scheme: light dark;
      }
      body {
        width: 35em;
        margin: 0 auto;
        font-family: Tahoma, Verdana, Arial, sans-serif;
      }
    </style>
  </head>
  <body>
    <h1>An error occurred.</h1>
    <p>
      Sorry, the page you are looking for is currently unavailable.<br/>
      Please try again later.
    </p>
    <p><em>Powered by <a href="https://pingpong.bluemangoo.net/">Pingpong</a>.</em></p>
  </body>
</html>
"#;

/// The value of the `Server` header of every response.
pub const SERVER_NAME: &'static str = "Pingpong";

/// A response that the gateway writes without contacting any upstream.
pub struct Response {
    pub status: u16,
    /// The value of the `Server` header.
    pub server: String,
    /// The value of the `Content-Length` header: the length of `body`.
    pub content_length: usize,
    /// The value of the `Content-Type` header.
    pub content_type: String,
    pub body: Vec<u8>,
}

/// The error page, to be sent with the given status.
pub fn make_page50x(status: u16) -> (r: Response)
    ensures
        r.status == status,
        r.server@ == SERVER_NAME@,
        r.body@ == PAGE50X.spec_bytes(),
        r.content_length == r.body@.len(),
        r.content_type@ == mime_of(".html"@),
{
    let body = slice_to_vec(PAGE50X.as_bytes());
    Response {
        status,
        server: String::from_str(SERVER_NAME),
        content_length: body.len(),
        content_type: get_mime_type(".html"),
        body,
    }
}

} // verus!
