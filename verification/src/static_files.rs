//! A server of static files.
use crate::http;
use crate::paths;
use crate::text;
use crate::webui::UiFailure;
use vstd::prelude::*;
use vstd::string::*;

verus! {

broadcast use vstd::string::group_string_axioms;

/// What to do about a request for a file.
#[derive(Debug)]
pub enum StaticStep {
    /// Refuse it.
    Refuse(UiFailure),
    /// Drop it: the path leads out of the directory.
    Drop,
    /// Look for this file, and send the body where `with_body` says so.
    Serve { path: String, with_body: bool },
}

/// Decides about a request for a file.
pub fn static_step(directory: &str, method: &str, path: &str) -> (r: StaticStep)
    ensures
        if method@ != "GET"@ && method@ != "HEAD"@ {
            r == StaticStep::Refuse(UiFailure::MethodNotAllowed)
        } else {
            match paths::resolved(directory@, path@) {
                None => r == StaticStep::Drop,
                Some(file) => r matches StaticStep::Serve { path, with_body } && path@ == file
                    && with_body == (method@ != "HEAD"@),
            }
        },
{
    let head = text::equals(method, "HEAD");
    if !head && !text::equals(method, "GET") {
        return StaticStep::Refuse(UiFailure::MethodNotAllowed);
    }
    match paths::resolve_path(directory, path) {
        None => StaticStep::Drop,
        Some(path) => StaticStep::Serve { path, with_body: !head },
    }
}

/// The answer to a request that is refused.
pub open spec fn refusal_text(status: u16, reason: Seq<char>, body: Seq<char>) -> Seq<char> {
    http::response_text(status, reason, None, http::byte_len(body)) + body
}

/// Writes the answer to a request that is refused.
pub fn write_response(failure: UiFailure) -> (r: String)
    ensures
        r@ == refusal_text(
            crate::webui::failure_status(failure),
            crate::webui::status_reason(crate::webui::failure_status(failure)),
            crate::webui::failure_body(failure),
        ),
{
    let reply = failure.reply();
    let mut s = http::response_head(reply.status, reply.reason, None, text::utf8_len(reply.body));
    s.append(reply.body);
    s
}

/// Writes the head of the answer to a request for a file of this length.
pub fn file_response_head(length: usize) -> (r: String)
    ensures
        r@ == http::response_text(200, "OK"@, None, length as nat),
{
    http::response_head(200, "OK", None, length)
}

/// A request for a file never leads out of the directory: no segment of the path behind the
/// directory leads upwards.
pub proof fn served_files_are_below(directory: Seq<char>, path: Seq<char>)
    requires
        paths::resolved(directory, path) is Some,
    ensures
        exists|rest: Seq<char>|
            !paths::has_parent_segment(rest) && !paths::is_rooted(rest) && #[trigger] paths::joined(
                directory,
                rest,
            ) == paths::resolved(directory, path)->Some_0,
{
    let trimmed = text::trim_start_of(path, text::CharClass::One('/'));
    reveal_strlit("index.html");
    let relative = if trimmed.len() == 0 {
        "index.html"@
    } else {
        trimmed
    };
    crate::canonical::trim_start_shape(path, text::CharClass::One('/'));
    assert(!paths::has_parent_segment(relative));
    assert(!paths::is_rooted(relative));
    assert(paths::joined(directory, relative) == paths::resolved(directory, path)->Some_0);
}

} // verus!
