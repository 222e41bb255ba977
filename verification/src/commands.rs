//! What the commands print, and which session they are about.
use crate::paths;
use crate::pending::{AllowedItem, PendingItem};
use crate::text;
use crate::webui::SessionIdError;
use vstd::prelude::*;
use vstd::string::*;

verus! {

broadcast use vstd::string::group_string_axioms;

/// The line for an approved destination, with its connector where it has one.
pub open spec fn allowed_line_of(target: Seq<char>, endpoint: Option<Seq<char>>) -> Seq<char> {
    match endpoint {
        Some(endpoint) => target + "\t"@ + endpoint,
        None => target,
    }
}

/// Writes the line for an approved destination.
pub fn allowed_line(item: &AllowedItem) -> (r: String)
    ensures
        r@ == allowed_line_of(item@.target, item@.connector_endpoint),
{
    let mut s = item.target.clone();
    match &item.connector_endpoint {
        Some(endpoint) => {
            s.append("\t");
            s.append(endpoint.as_str());
        },
        None => {},
    }
    s
}

/// Writes the line for a blocked destination: the target, its connector where it has one, and the
/// time of the last attempt.
pub fn pending_line(item: &PendingItem) -> (r: String)
    ensures
        r@ == allowed_line_of(item@.target, item@.connector_endpoint) + "\t"@
            + item@.last_seen_epoch_nanos,
{
    let mut s = item.target.clone();
    match &item.connector_endpoint {
        Some(endpoint) => {
            s.append("\t");
            s.append(endpoint.as_str());
        },
        None => {},
    }
    s.append("\t");
    s.append(item.last_seen_epoch_nanos.as_str());
    s
}

/// Writes the line for a change to a destination: what was done, the target, and its connector
/// where it has one.
pub fn change_line(done: &str, target: &str, endpoint: Option<&str>) -> (r: String)
    ensures
        r@ == done@ + " "@ + allowed_line_of(target@, text::opt_str(endpoint)),
{
    let mut s = done.to_string();
    s.append(" ");
    s.append(target);
    match endpoint {
        Some(endpoint) => {
            s.append("\t");
            s.append(endpoint);
        },
        None => {},
    }
    assert(s@ =~= done@ + " "@ + allowed_line_of(target@, text::opt_str(endpoint)));
    s
}

/// Checks that a session is there, where `has_meta` tells whether its file is.
pub fn ensure_session_exists(session_id: &str, has_meta: bool) -> (r: Result<(), SessionIdError>)
    ensures
        r == (if !paths::is_single_name(session_id@) {
            Err::<(), SessionIdError>(SessionIdError::Invalid)
        } else if !has_meta {
            Err(SessionIdError::Unknown)
        } else {
            Ok(())
        }),
{
    if !paths::single_name(session_id) {
        Err(SessionIdError::Invalid)
    } else if !has_meta {
        Err(SessionIdError::Unknown)
    } else {
        Ok(())
    }
}

/// The message for a session that a command names and that cannot be shown.
pub open spec fn missing_session_text(e: SessionIdError, id: Seq<char>) -> Seq<char> {
    match e {
        SessionIdError::Invalid => "invalid session `"@ + id + "`"@,
        SessionIdError::Unknown => "unknown session `"@ + id + "`"@,
    }
}

/// Writes the message for a session that a command names and that cannot be shown.
pub fn missing_session_message(error: SessionIdError, id: &str) -> (r: String)
    ensures
        r@ == missing_session_text(error, id@),
{
    let mut s = match error {
        SessionIdError::Invalid => "invalid session `".to_string(),
        SessionIdError::Unknown => "unknown session `".to_string(),
    };
    s.append(id);
    s.append("`");
    s
}

/// Picks the session that the page shows first: the one that is named, which has to be there, or
/// else the latest one of the workspace, if any.
pub fn preferred_ui_session(
    explicit: Option<String>,
    has_meta: bool,
    latest: Option<String>,
) -> (r: Result<Option<String>, SessionIdError>)
    ensures
        match explicit {
            None => r == Ok::<Option<String>, SessionIdError>(latest),
            Some(id) => if !paths::is_single_name(id@) {
                r == Err::<Option<String>, SessionIdError>(SessionIdError::Invalid)
            } else if !has_meta {
                r == Err::<Option<String>, SessionIdError>(SessionIdError::Unknown)
            } else {
                r == Ok::<Option<String>, SessionIdError>(Some(id))
            },
        },
{
    match explicit {
        None => Ok(latest),
        Some(id) => match ensure_session_exists(id.as_str(), has_meta) {
            Ok(()) => Ok(Some(id)),
            Err(e) => Err(e),
        },
    }
}

/// In the line for a destination the target stands before the first tab, and its connector, if it
/// has one, behind it.
pub proof fn line_starts_with_the_target(target: Seq<char>, endpoint: Seq<char>)
    requires
        !target.contains('\t'),
    ensures
        text::split_once(allowed_line_of(target, Some(endpoint)), '\t') == Some((target, endpoint)),
        allowed_line_of(target, None) == target,
{
    reveal_strlit("\t");
    assert("\t"@ =~= seq!['\t']);
    text::text_is_split_at_a_character(target, endpoint, '\t');
}

} // verus!
