//! What the approvals page answers, and in what order it shows sessions and destinations.
use crate::containers;
use crate::containers::EndpointError;
use crate::http;
use crate::number;
use crate::order;
use crate::paths;
use crate::pending;
use crate::pending::Pending;
use crate::requests;
use crate::store;
use crate::store::{Decision, Store, StoreError};
use crate::text;
use crate::text::CharClass;
use crate::ui;
use crate::webui;
use crate::webui::{Found, HubSession, Scan, UiAction, UiFailure};
use vstd::prelude::*;
use vstd::string::*;

verus! {

broadcast use vstd::string::group_string_axioms;

// ---------------------------------------------------------------------------
// Requests
// ---------------------------------------------------------------------------

/// A request line gives the method and the target, whatever follows them; one of more than 8192
/// bytes is refused.
pub proof fn page_request_line_is_read(
    s: Scan,
    method: Seq<char>,
    target: Seq<char>,
    version: Seq<char>,
)
    requires
        requests::is_word(method),
        requests::is_word(target),
        requests::is_word(version),
    ensures
        ({
            let line = method + " "@ + target + " "@ + version + "\r\n"@;
            &&& http::byte_len(line) <= 8192 ==> webui::after_request_line(s, line) == Ok::<
                Scan,
                UiFailure,
            >((Scan { started: true, method, target, ..s }))
            &&& http::byte_len(line) > 8192 ==> webui::after_request_line(s, line) == Err::<
                Scan,
                UiFailure,
            >(UiFailure::RequestLineTooLong)
        }),
{
    let full = method + " "@ + target + " "@ + version;
    requests::words_are_separated(method, target, version);
    assert(full.last() == version.last());
    assert(!text::is_white_space(version[version.len() - 1]));
    requests::line_end_is_cut(full);
    reveal_strlit("\r\n");
    assert(full + "\r\n"@ =~= method + " "@ + target + " "@ + version + "\r\n"@);
}

/// A header line for the length of the body sets it, whatever was given before; one with another
/// name leaves it. A line of more than 8192 bytes is refused, and so is one with which all are more
/// than 32768 bytes.
pub proof fn page_header_line_is_read(s: Scan, name: Seq<char>, value: Seq<char>, length: nat)
    requires
        name.len() > 0,
        requests::is_trimmed(value),
        forall|i: int| 0 <= i < name.len() ==> #[trigger] name[i] != ':',
        length <= usize::MAX,
    ensures
        ({
            let line = name + ": "@ + value + "\r\n"@;
            let bytes = http::byte_len(line);
            let fits = bytes <= 8192 && s.header_bytes + bytes <= 32768;
            &&& !fits ==> webui::after_header_line(s, line) == Err::<Scan, UiFailure>(
                UiFailure::HeadersTooLarge,
            )
            &&& fits && text::lower(name) != "content-length"@ ==> webui::after_header_line(s, line)
                == Ok::<Scan, UiFailure>((Scan { header_bytes: s.header_bytes + bytes, ..s }))
            &&& fits && text::lower(name) == "content-length"@ && value == number::decimal(length)
                ==> webui::after_header_line(s, line) == Ok::<Scan, UiFailure>(
                (Scan { content_length: length, header_bytes: s.header_bytes + bytes, ..s }),
            )
        }),
{
    let body = name + ": "@ + value;
    reveal_strlit(": ");
    reveal_strlit("\r\n");
    let n = name.len() as int;
    assert(body[n] == ':' && body[n + 1] == ' ');
    if value.len() > 0 {
        assert(body.last() == value[value.len() - 1]);
    } else {
        assert(body.last() == ' ');
    }
    requests::line_end_is_cut(body);
    assert forall|j: int| 0 <= j < n implies body[j] != ':' by {
        assert(body[j] == name[j]);
    }
    text::find_from_first(body, ':', n);
    assert(body.take(n) =~= name);
    assert(body.skip(n + 1) =~= seq![' '] + value);
    crate::canonical::trim_unchanged(value, CharClass::WhiteSpace);
    let after = seq![' '] + value;
    assert(after[0] == ' ');
    assert(after.drop_first() =~= value);
    assert(text::trim(after) == text::trim(value));
    assert(body + "\r\n"@ =~= name + ": "@ + value + "\r\n"@);
    reveal_strlit("content-length");
    assert(text::lower("content-length"@) =~= "content-length"@);
    number::number_round_trip(length);
}

/// A blank line ends the head; the end of the input before it is refused.
pub proof fn page_head_ends_at_a_blank_line(s: Scan)
    requires
        s.header_bytes + 2 <= 32768,
    ensures
        webui::after_header_line(s, "\r\n"@) == Ok::<Scan, UiFailure>(
            (Scan { done: true, header_bytes: s.header_bytes + 2, ..s }),
        ),
        webui::after_header_line(s, Seq::<char>::empty()) == Err::<Scan, UiFailure>(
            UiFailure::InvalidRequest,
        ),
        webui::after_request_line(s, Seq::<char>::empty()) == Err::<Scan, UiFailure>(
            UiFailure::InvalidRequest,
        ),
{
    reveal_strlit("\r\n");
    vstd::utf8::is_ascii_chars_encode_utf8("\r\n"@);
    let none = Seq::<char>::empty();
    requests::line_end_is_cut(none);
    assert(none + "\r\n"@ =~= "\r\n"@);
}

/// Lines are read one after the other, and none behind the end of the head.
pub proof fn page_lines_are_read_in_turn(s: Scan, first: Seq<Seq<char>>, rest: Seq<Seq<char>>)
    ensures
        webui::after_scan_lines(s, first + rest) == (match webui::after_scan_lines(s, first) {
            Ok(next) => webui::after_scan_lines(next, rest),
            Err(e) => Err(e),
        }),
        s.done ==> webui::after_scan_lines(s, rest) == Ok::<Scan, UiFailure>(s),
    decreases first.len(),
{
    if first.len() == 0 {
        assert(first + rest =~= rest);
    } else if !s.done {
        assert((first + rest)[0] == first[0]);
        assert((first + rest).drop_first() =~= first.drop_first() + rest);
        match webui::after_scan_line(s, first[0]) {
            Ok(next) => page_lines_are_read_in_turn(next, first.drop_first(), rest),
            Err(_) => {},
        }
    }
}

/// A decision takes a `POST` request for its own path, and what is shown a `GET` request for its
/// own; there is nothing else.
pub proof fn page_answers_its_paths(method: Seq<char>, route: Seq<char>)
    ensures
        webui::action_of(method, route) == UiAction::Page <==> method == "GET"@ && route == "/"@,
        webui::action_of(method, route) == UiAction::Health <==> method == "GET"@ && route
            == "/api/health"@,
        webui::action_of(method, route) == UiAction::State <==> method == "GET"@ && route
            == "/api/state"@,
        webui::action_of(method, route) == UiAction::Decide(Decision::Allow) <==> method
            == "POST"@ && route == "/api/allow"@,
        webui::action_of(method, route) == UiAction::Decide(Decision::Deny) <==> method == "POST"@
            && route == "/api/deny"@,
        webui::action_of(method, route) == UiAction::Decide(Decision::Dismiss) <==> method
            == "POST"@ && route == "/api/dismiss"@,
{
    reveal_strlit("GET");
    reveal_strlit("POST");
    reveal_strlit("/");
    reveal_strlit("/api/health");
    reveal_strlit("/api/state");
    reveal_strlit("/api/allow");
    reveal_strlit("/api/deny");
    reveal_strlit("/api/dismiss");
    assert("GET"@.len() == 3 && "POST"@.len() == 4);
    assert("/"@.len() == 1 && "/api/health"@[5] == 'h' && "/api/state"@[5] == 's');
    assert("/api/allow"@[5] == 'a' && "/api/deny"@.len() == 9 && "/api/dismiss"@.len() == 12);
}

/// A request that is refused is answered with a status of its own fault: what cannot be read with
/// 400, what is too large with 431 or 413, what is not there with 404, a method that is not taken
/// with 405, and a fault of the server with 500.
pub proof fn refusals_have_their_status(f: UiFailure)
    ensures
        webui::failure_status(f) == 400 <==> f == UiFailure::InvalidRequest || f
            == UiFailure::InvalidDestination,
        webui::failure_status(f) == 404 <==> f == UiFailure::NotFound || f
            == UiFailure::UnknownSession,
        webui::failure_status(f) == 405 <==> f == UiFailure::MethodNotAllowed,
        webui::failure_status(f) == 413 <==> f == UiFailure::PayloadTooLarge,
        webui::failure_status(f) == 431 <==> f == UiFailure::RequestLineTooLong || f
            == UiFailure::HeadersTooLarge,
        webui::failure_status(f) == 500 <==> f == UiFailure::InternalError,
        webui::status_reason(400) == "Bad Request"@,
        webui::status_reason(404) == "Not Found"@,
        webui::status_reason(405) == "Method Not Allowed"@,
        webui::status_reason(413) == "Payload Too Large"@,
        webui::status_reason(431) == "Request Header Fields Too Large"@,
        webui::status_reason(500) == "Internal Server Error"@,
{
}

/// An answer in plain text says how many bytes its body has.
pub proof fn page_answer_is_written_out(status: u16, reason: Seq<char>, message: Seq<char>)
    ensures
        webui::text_response_text(status, reason, message.push('\n')) == http::error_response_text(
            status,
            reason,
            message,
        ),
{
}

// ---------------------------------------------------------------------------
// What is shown
// ---------------------------------------------------------------------------

/// The latest time of a list is that of one of its items, and none of them is later; it is 0 where
/// the list is empty.
pub proof fn latest_time_is_the_greatest(items: Seq<Pending>)
    ensures
        forall|i: int| 0 <= i < items.len() ==> (#[trigger] items[i]).epoch <= webui::latest_epoch(
            items,
        ),
        webui::latest_epoch(items) == 0 || exists|i: int|
            0 <= i < items.len() && (#[trigger] items[i]).epoch == webui::latest_epoch(items),
    decreases items.len(),
{
    if items.len() > 0 {
        let front = items.drop_last();
        let last = items.last();
        latest_time_is_the_greatest(front);
        assert(items[items.len() - 1] == last);
        assert forall|i: int| 0 <= i < items.len() implies (#[trigger] items[i]).epoch
            <= webui::latest_epoch(items) by {
            if i < front.len() {
                assert(front[i] == items[i]);
            }
        }
        if webui::latest_epoch(items) != 0 && webui::latest_epoch(items) != last.epoch {
            let i = choose|i: int|
                0 <= i < front.len() && (#[trigger] front[i]).epoch == webui::latest_epoch(front);
            assert(items[i] == front[i]);
        }
    }
}

/// The session with the latest blocked attempt comes first; of those with the same time the one with
/// more blocked destinations, then the one that was started later, then the one whose name comes
/// first.
pub proof fn latest_session_comes_first(
    sessions: Seq<HubSession>,
    found: Seq<Found>,
    i: int,
    j: int,
)
    requires
        webui::is_hub_state(sessions, found),
        0 <= i < j < sessions.len(),
    ensures
        ({
            let (a, b) = (sessions[i], sessions[j]);
            let same_time = a.last_pending_epoch_nanos == b.last_pending_epoch_nanos;
            let same_count = a.pending_count == b.pending_count;
            let same_start = a.session.last_started_epoch == b.session.last_started_epoch;
            &&& a.last_pending_epoch_nanos >= b.last_pending_epoch_nanos
            &&& same_time ==> a.pending_count >= b.pending_count
            &&& same_time && same_count ==> a.session.last_started_epoch
                >= b.session.last_started_epoch
            &&& same_time && same_count && same_start ==> a.session.session_id@
                == b.session.session_id@ || order::text_before(
                a.session.session_id@,
                b.session.session_id@,
            )
        }),
{
    let each = choose|each: Seq<HubSession>| #[trigger]
        webui::shows_each(each, webui::listed(found)) && order::is_stable_sort(each, sessions);
    let (a, b) = (sessions[i], sessions[j]);
    assert(!webui::session_before(b, a));
    order::text_before_total(a.session.session_id@, b.session.session_id@);
}

/// A session is shown just where there is a file about it, its process is recorded and runs, and
/// all of its files can be read. One that is not active is left out without an error.
pub proof fn active_session_is_shown(f: Found)
    ensures
        webui::is_listed(f) <==> {
            &&& f.has_meta && f.running && f.store.active is Held
            &&& store::meta_in(f.store) is Ok
            &&& store::allowed_in(f.store) is Ok
            &&& store::dismissed_in(f.store) is Ok
            &&& store::mappings_in(f.store) is Ok
            &&& store::events_in(f.store) is Ok
        },
        !f.has_meta || f.store.active is Missing || (f.store.active is Held && !f.running)
            ==> webui::left_out(f) == None::<StoreError>,
        f.has_meta && f.running && f.store.active is Held && !webui::is_listed(f)
            ==> webui::left_out(f) is Some,
        webui::looked_at(f).store == f.store || (f.has_meta && !f.running
            && webui::looked_at(f).store == (Store { active: store::Stored::Missing, ..f.store })),
{
}

/// Of the blocked destinations that are shown the one with the latest attempt comes first, and of
/// those with the same time the one whose text comes first; no destination is shown twice.
pub proof fn latest_attempt_comes_first(m: Store, items: Seq<Pending>, i: int, j: int)
    requires
        store::is_pending_list(m, items),
        0 <= i < j < items.len(),
    ensures
        items[i].epoch >= items[j].epoch,
        items[i].epoch == items[j].epoch ==> order::text_before(items[i].target, items[j].target),
        items[i].target != items[j].target,
{
    assert(pending::pending_before(items[i], items[j]));
    pending::shown_targets_differ(
        items,
        store::events_in(m)->Ok_0,
        crate::target_set::target_texts(store::allowed_in(m)->Ok_0),
        store::dismissed_in(m)->Ok_0,
        store::mappings_in(m)->Ok_0,
        i,
        j,
    );
}

// ---------------------------------------------------------------------------
// The server
// ---------------------------------------------------------------------------

/// The body of an answer is what follows the first blank line, where the status is 200. With another
/// status, or without a blank line, there is none.
pub proof fn body_follows_the_blank_line(head: Seq<char>, body: Seq<char>, other: Seq<char>)
    requires
        forall|i: int|
            0 <= i < head.len() ==> !#[trigger] text::occurs_at(
                head + "\r\n\r\n"@,
                "\r\n\r\n"@,
                i,
            ),
        text::find_seq(other, "\r\n\r\n"@) < 0,
    ensures
        ({
            let answer = head + "\r\n\r\n"@ + body;
            &&& "HTTP/1.1 200"@.is_prefix_of(head) ==> ui::health_body_of(answer) == Some(body)
                && containers::endpoint_body_of(answer) == Ok::<Seq<char>, EndpointError>(body)
            &&& !"HTTP/1.1 200"@.is_prefix_of(head) ==> ui::health_body_of(answer) == None::<
                Seq<char>,
            > && containers::endpoint_body_of(answer) == Err::<Seq<char>, EndpointError>(
                EndpointError::RequestFailed,
            )
            &&& ui::health_body_of(other) == None::<Seq<char>>
            &&& containers::endpoint_body_of(other) == Err::<Seq<char>, EndpointError>(
                EndpointError::InvalidResponse,
            )
        }),
{
    reveal_strlit("\r\n\r\n");
    text::text_is_split_at_a_text(head, "\r\n\r\n"@, body);
}

/// The server of the page listens on this machine only, on a port that the system picks, and looks
/// for the sessions where they are kept.
pub proof fn page_server_listens_on_this_machine(root: Seq<char>)
    ensures
        ({
            let args = ui::hub_args_of(root);
            let n = args.len() as int;
            &&& args[0] == "__ui-hub"@
            &&& containers::has_option(args, n, "--listen-host"@, "127.0.0.1"@)
            &&& containers::has_option(args, n, "--listen-port"@, "0"@)
            &&& containers::has_option(
                args,
                n,
                "--sessions-root"@,
                paths::joined(root, "sessions"@),
            )
            &&& containers::has_option(
                args,
                n,
                "--ready-file"@,
                paths::joined(root, "ui-ready.json"@),
            )
            &&& containers::has_option(
                args,
                n,
                "--activity-file"@,
                paths::joined(root, "ui-activity"@),
            )
        }),
{
    let args = ui::hub_args_of(root);
    assert(args[1] == "--listen-host"@ && args[3] == "--listen-port"@ && args[5]
        == "--sessions-root"@ && args[7] == "--ready-file"@ && args[9] == "--activity-file"@);
}

/// The page is found at its port on this machine, and a session on it by its name.
pub proof fn page_is_found_at_its_port(port: u16, id: Seq<char>)
    ensures
        ui::focused_url(ui::base_url_of(port), None) == "http://127.0.0.1:"@ + number::decimal(
            port as nat,
        ) + "/"@,
        ui::focused_url(ui::base_url_of(port), Some(id)) == "http://127.0.0.1:"@ + number::decimal(
            port as nat,
        ) + "/?session="@ + id,
{
    reveal_strlit("/");
    reveal_strlit("?session=");
    reveal_strlit("/?session=");
    assert("/"@ + "?session="@ =~= "/?session="@);
    assert(ui::focused_url(ui::base_url_of(port), Some(id)) =~= "http://127.0.0.1:"@
        + number::decimal(port as nat) + "/?session="@ + id);
}

/// Use of the page counts as recent for five seconds.
pub proof fn page_counts_as_used_for_five_seconds(epoch: u64, now: u64)
    ensures
        ui::is_recently_active(Some(number::decimal(epoch as nat) + seq!['\n']), now) <==> now
            <= epoch + 5,
        ui::is_recently_active(None, now) == false,
{
    ui::recorded_use_is_recent_for_a_while(epoch, now);
}

/// A body that cannot be read and a destination or a session name that is none are answered with
/// 400, a session that is not there with 404, and every other fault with 500.
pub proof fn troubles_are_answered_with_their_status(trouble: webui::UiTrouble)
    ensures
        webui::failure_status(webui::failure_of(trouble)) == 400 <==> trouble is MalformedBody
            || trouble is Mutation,
        webui::failure_status(webui::failure_of(trouble)) == 404 <==> trouble is Session,
        webui::failure_status(webui::failure_of(trouble)) == 500 <==> trouble is Failed,
{
}

/// A request line without a target is one for the root, and a blank one has no method either.
pub proof fn missing_target_is_the_root(s: Scan, method: Seq<char>)
    requires
        requests::is_word(method),
        http::byte_len(method + "\r\n"@) <= 8192,
    ensures
        webui::after_request_line(s, method + "\r\n"@) == Ok::<Scan, UiFailure>(
            (Scan { started: true, method, target: "/"@, ..s }),
        ),
        webui::after_request_line(s, "\r\n"@) == Ok::<Scan, UiFailure>(
            (Scan { started: true, method: Seq::empty(), target: "/"@, ..s }),
        ),
{
    reveal_strlit("\r\n");
    assert(!text::is_white_space(method[method.len() - 1]));
    requests::line_end_is_cut(method);
    crate::pieces::words_stand_between_white_space(method, ' ', method);
    let none = Seq::<char>::empty();
    requests::line_end_is_cut(none);
    assert(none + "\r\n"@ =~= "\r\n"@);
    vstd::utf8::is_ascii_chars_encode_utf8("\r\n"@);
}

/// A length that is no number counts as none, whatever was given before.
pub proof fn page_unreadable_length_counts_as_none(
    name: Seq<char>,
    value: Seq<char>,
    before: nat,
)
    requires
        forall|i: int| 0 <= i < name.len() ==> #[trigger] name[i] != ':',
        text::lower(name) == "content-length"@,
        requests::is_no_port(text::trim(value)),
    ensures
        webui::updated_length(before, name + ":"@ + value) == 0,
{
    reveal_strlit(":");
    assert(":"@ =~= seq![':']);
    reveal_strlit("content-length");
    assert(text::lower("content-length"@) =~= "content-length"@);
    assert(!name.contains(':'));
    text::text_is_split_at_a_character(name, value, ':');
    number::numbers_are_read_from_digits(0, text::trim(value), usize::MAX as nat);
}

/// A record of use that is no number counts as none.
pub proof fn unreadable_use_counts_as_none(raw: Seq<char>, now: u64)
    requires
        requests::is_no_port(text::trim(raw)),
    ensures
        !ui::is_recently_active(Some(raw), now),
{
    number::numbers_are_read_from_digits(0, text::trim(raw), u64::MAX as nat);
}

/// A reader of the page starts with nothing read.
pub proof fn page_reading_starts_empty()
    ensures
        !webui::new_scan().started,
        !webui::new_scan().done,
        webui::new_scan().content_length == 0,
        webui::new_scan().header_bytes == 0,
{
}

/// A server of the page can be used where it is well and speaks the second version.
pub proof fn server_of_this_version_is_used(status: Seq<char>, protocol_version: u32)
    ensures
        webui::is_current(status, protocol_version) <==> status == "ok"@ && protocol_version == 2,
{
}

/// The command that opens a browser is the one of the system, and the page is its last argument.
pub proof fn browser_is_given_the_page(desktop: ui::Desktop, url: Seq<char>)
    ensures
        ({
            let command = ui::browser_command_of(desktop, url);
            &&& command.len() > 1
            &&& command[command.len() - 1] == url
            &&& desktop == ui::Desktop::MacOs ==> command[0] == "open"@
            &&& desktop == ui::Desktop::Windows ==> command[0] == "cmd"@
            &&& desktop == ui::Desktop::Other ==> command[0] == "xdg-open"@
        }),
{
}

/// A refused request for a file is answered with the status and the reason, the length of the body
/// in bytes, and the body.
pub proof fn file_refusal_is_written_out(status: u16, reason: Seq<char>, body: Seq<char>)
    ensures
        crate::static_files::refusal_text(status, reason, body) == "HTTP/1.1 "@ + number::decimal(
            status as nat,
        ) + " "@ + reason + "\r\nContent-Length: "@ + number::decimal(
            vstd::utf8::encode_utf8(body).len(),
        ) + "\r\nConnection: close\r\n\r\n"@ + body,
{
    reveal_strlit("\r\n");
    reveal_strlit("Content-Length: ");
    reveal_strlit("\r\nContent-Length: ");
    assert("\r\n"@ + "Content-Length: "@ =~= "\r\nContent-Length: "@);
    let front = "HTTP/1.1 "@ + number::decimal(status as nat) + " "@ + reason;
    let none = Seq::<char>::empty();
    let back = number::decimal(http::byte_len(body)) + "\r\nConnection: close\r\n\r\n"@ + body;
    assert(front + "\r\n"@ + none + "Content-Length: "@ =~= front + "\r\nContent-Length: "@);
    assert(crate::static_files::refusal_text(status, reason, body) =~= front
        + "\r\nContent-Length: "@ + back);
}

} // verus!
