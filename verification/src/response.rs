//! What the server answers: which file a request is served from, and the
//! text that goes back over the connection.

use crate::request::{has_path, method, method_text, path, path_bytes, path_text};
use vstd::prelude::*;
use vstd::utf8::{encode_utf8, encode_utf8_decode_utf8};

verus! {

/// How long the server waits, in seconds, where a plan asks for a pause.
pub const PAUSE_SECONDS: u64 = 5;

/// What to do for a request, as far as the request line decides it.
pub enum Plan {
    /// Send `file` with the status of success if it can be opened, and the
    /// page for what was not found otherwise. Where `pause` is set the
    /// server waits for `PAUSE_SECONDS` before it looks for the file.
    Serve { file: String, pause: bool },
    /// Send the page for what was not found.
    NotFound,
}

/// The name under which the text of the path `path` is looked up on disk.
pub open spec fn file_name(path: Seq<char>) -> Seq<char> {
    "static"@ + path
}

/// The text of a response with the status `status` and the body `contents`:
/// a status line, an empty line, the body.
pub open spec fn response_text(status: Seq<char>, contents: Seq<char>) -> Seq<char> {
    "HTTP/1.1 "@ + status + "\r\n\r\n"@ + contents
}

/// The status of a response that carries the file that was asked for.
pub fn ok_status() -> (status: &'static str)
    ensures
        status@ == "200 OK"@,
{
    "200 OK"
}

/// The status of a response that carries the page for what was not found.
pub fn not_found_status() -> (status: &'static str)
    ensures
        status@ == "404 NOT FOUND"@,
{
    "404 NOT FOUND"
}

/// The file that holds the page for what was not found.
pub fn not_found_file() -> (file: &'static str)
    ensures
        file@ == "static/404.html"@,
{
    "static/404.html"
}

/// Whether two texts are the same, character for character.
pub fn same_text(a: &str, b: &str) -> (same: bool)
    ensures
        same == (a@ == b@),
{
    let x = a.as_bytes();
    let y = b.as_bytes();
    proof {
        encode_utf8_decode_utf8(a@);
        encode_utf8_decode_utf8(b@);
    }
    if x.len() != y.len() {
        return false;
    }
    let mut i: usize = 0;
    while i < x.len()
        invariant
            i <= x@.len() == y@.len(),
            forall|k: int| 0 <= k < i ==> x@[k] == y@[k],
            x@ == encode_utf8(a@),
            y@ == encode_utf8(b@),
            a@ == b@ ==> x@ == y@,
        decreases x@.len() - i,
    {
        if x[i] != y[i] {
            return false;
        }
        i += 1;
    }
    assert(x@ =~= y@);
    true
}

/// Whether `method` is the one method that is served from disk.
pub fn is_get(method: &str) -> (b: bool)
    ensures
        b == (method@ == "GET"@),
{
    same_text(method, "GET")
}

/// Whether `path` is the one path that makes the server pause.
pub fn is_sleep(path: &str) -> (b: bool)
    ensures
        b == (path@ == "/sleep"@),
{
    same_text(path, "/sleep")
}

/// The name of the file that `path` is served from.
pub fn file_for(path: &str) -> (file: String)
    ensures
        file@ == file_name(path@),
{
    let mut file = String::from_str("static");
    file.append(path);
    file
}

/// Decides from the request line what to do for a request. Only a `GET`
/// is served from disk, under the name that `file_for` gives its path.
///
/// `None` is for a `GET` whose line names no path: such a request has no
/// answer.
pub fn lookup(req: &[u8]) -> (plan: Option<Plan>)
    ensures
        match plan {
            None => method_text(req@) == "GET"@ && path_bytes(req@).len() == 0,
            Some(Plan::NotFound) => method_text(req@) != "GET"@,
            Some(Plan::Serve { file, pause }) => {
                &&& method_text(req@) == "GET"@
                &&& path_bytes(req@).len() > 0
                &&& file@ == file_name(path_text(req@))
                &&& pause == (path_text(req@) == "/sleep"@)
            },
        },
{
    let name = method(req);
    if !is_get(name.as_str()) {
        return Some(Plan::NotFound);
    }
    if !has_path(req) {
        return None;
    }
    let asked = path(req);
    let pause = is_sleep(asked.as_str());
    Some(Plan::Serve { file: file_for(asked.as_str()), pause })
}

/// The text that is sent back: the status line for `status`, an empty line,
/// and `contents`.
pub fn response(status: &str, contents: &str) -> (text: String)
    ensures
        text@ == response_text(status@, contents@),
{
    let mut text = String::from_str("HTTP/1.1 ");
    text.append(status);
    text.append("\r\n\r\n");
    text.append(contents);
    text
}

} // verus!
