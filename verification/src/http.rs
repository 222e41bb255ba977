//! HTTP/1.1 messages: request heads, header fields and responses.
use crate::number;
use crate::pieces;
use crate::text;
use crate::text::CharClass;
use vstd::prelude::*;
use vstd::string::*;

verus! {

broadcast use vstd::string::group_string_axioms;

// ---------------------------------------------------------------------------
// Header fields
// ---------------------------------------------------------------------------

/// The header fields that concern one connection only.
pub const HOP_BY_HOP_HEADERS: [&'static str; 9] = [
    "connection",
    "keep-alive",
    "proxy-authenticate",
    "proxy-authorization",
    "proxy-connection",
    "te",
    "trailer",
    "transfer-encoding",
    "upgrade",
];

/// A name and a value.
pub type Field = (Seq<char>, Seq<char>);

/// What the fields of a list denote.
pub open spec fn fields_of(v: Seq<(String, String)>) -> Seq<Field> {
    Seq::new(v.len(), |i: int| (v[i].0@, v[i].1@))
}

/// The value of the first field with a name, in which the case of letters does not matter.
pub open spec fn field_named(fields: Seq<Field>, name: Seq<char>) -> Option<Seq<char>>
    decreases fields.len(),
{
    if fields.len() == 0 {
        None
    } else if text::lower(fields[0].0) == text::lower(name) {
        Some(fields[0].1)
    } else {
        field_named(fields.drop_first(), name)
    }
}

/// Looks up the value of a field.
pub fn header_value<'a>(headers: &'a Vec<(String, String)>, name: &str) -> (r: Option<&'a str>)
    ensures
        text::opt_str(r) == field_named(fields_of(headers@), name@),
{
    let ghost fields = fields_of(headers@);
    let mut i: usize = 0;
    assert(fields.skip(0) =~= fields);
    while i < headers.len()
        invariant
            fields == fields_of(headers@),
            i <= headers.len(),
            field_named(fields, name@) == field_named(fields.skip(i as int), name@),
        decreases headers.len() - i,
    {
        proof {
            assert(fields.skip(i as int)[0] == fields[i as int]);
            assert(fields.skip(i as int).drop_first() =~= fields.skip(i + 1));
        }
        if text::equals_ignore_case(headers[i].0.as_str(), name) {
            return Some(headers[i].1.as_str());
        }
        i = i + 1;
    }
    None
}

/// Whether `name`, in lower case, is one of the names between the commas of `value`.
pub open spec fn is_token_of(value: Seq<char>, name: Seq<char>) -> bool {
    name.len() > 0 && exists|i: int|
        0 <= i < pieces::split(value, ',').len() && name == text::lower(
            text::trim(#[trigger] pieces::split(value, ',')[i]),
        )
}

/// Whether the connection field of a message names `name`, a name in lower case.
pub open spec fn is_connection_token(fields: Seq<Field>, name: Seq<char>) -> bool {
    match field_named(fields, "connection"@) {
        Some(value) => is_token_of(value, name),
        None => false,
    }
}

/// Whether `name` is one of the names of fields that always concern one connection only.
pub open spec fn is_listed(name: Seq<char>) -> bool {
    exists|i: int|
        0 <= i < HOP_BY_HOP_HEADERS@.len() && name == (#[trigger] HOP_BY_HOP_HEADERS@[i])@
}

/// Whether fields with this name, in lower case, concern one connection only.
pub open spec fn is_hop_by_hop(fields: Seq<Field>, name: Seq<char>) -> bool {
    is_listed(name) || is_connection_token(fields, name)
}

/// Lists the names, in lower case, of the fields that concern one connection only.
pub fn hop_by_hop_headers(headers: &Vec<(String, String)>) -> (r: Vec<String>)
    ensures
        forall|name: Seq<char>| #[trigger]
            pieces::texts(r@).contains(name) <==> is_hop_by_hop(fields_of(headers@), name),
{
    let ghost fields = fields_of(headers@);
    let names = HOP_BY_HOP_HEADERS;
    let mut list: Vec<String> = Vec::new();
    let mut i: usize = 0;
    while i < 9
        invariant
            i <= 9,
            names == HOP_BY_HOP_HEADERS,
            list@.len() == i,
            forall|k: int| 0 <= k < i ==> (#[trigger] list@[k])@ == names@[k]@,
        decreases 9 - i,
    {
        list.push(names[i].to_string());
        i = i + 1;
    }
    proof {
        let t = pieces::texts(list@);
        assert forall|name: Seq<char>| #[trigger] t.contains(name) <==> is_listed(name) by {
            if t.contains(name) {
                let k = choose|k: int| 0 <= k < t.len() && t[k] == name;
                assert(list@[k]@ == HOP_BY_HOP_HEADERS@[k]@);
            }
            if is_listed(name) {
                let k = choose|k: int|
                    0 <= k < HOP_BY_HOP_HEADERS@.len() && name == (
                    #[trigger] HOP_BY_HOP_HEADERS@[k])@;
                assert(t[k] == name);
            }
        }
    }
    match header_value(headers, "connection") {
        None => list,
        Some(value) => {
            let tokens = connection_tokens(value);
            let ghost before = pieces::texts(list@);
            let ghost added = pieces::texts(tokens@);
            let mut tokens = tokens;
            list.append(&mut tokens);
            proof {
                let after = pieces::texts(list@);
                assert(after =~= before + added);
                assert forall|name: Seq<char>| after.contains(name) <==> is_hop_by_hop(fields, name) by {
                    assert(before.contains(name) <==> is_listed(name));
                    assert(added.contains(name) <==> is_connection_token(fields, name));
                    if before.contains(name) {
                        let k = choose|k: int| 0 <= k < before.len() && before[k] == name;
                        assert(after[k] == name);
                    }
                    if added.contains(name) {
                        let k = choose|k: int| 0 <= k < added.len() && added[k] == name;
                        assert(after[before.len() + k] == name);
                    }
                    if after.contains(name) {
                        let k = choose|k: int| 0 <= k < after.len() && after[k] == name;
                        if k < before.len() {
                            assert(before[k] == name);
                        } else {
                            assert(added[k - before.len()] == name);
                        }
                    }
                }
            }
            list
        },
    }
}

/// Lists the names that the value of a connection field holds, in lower case.
fn connection_tokens(value: &str) -> (r: Vec<String>)
    ensures
        forall|name: Seq<char>| #[trigger]
            pieces::texts(r@).contains(name) <==> is_token_of(value@, name),
{
    let ghost all = pieces::split(value@, ',');
    let parts = pieces::split_all(value, ',');
    let mut list: Vec<String> = Vec::new();
    let mut i: usize = 0;
    while i < parts.len()
        invariant
            i <= parts.len(),
            all == pieces::split(value@, ','),
            pieces::texts(parts@) == all,
            forall|name: Seq<char>|
                #[trigger]
                pieces::texts(list@).contains(name) <==> name.len() > 0 && exists|k: int|
                    0 <= k < i && name == text::lower(text::trim(#[trigger] all[k])),
        decreases parts.len() - i,
    {
        let token = text::to_lower(text::trimmed(parts[i].as_str()));
        assert(all[i as int] == parts@[i as int]@);
        let ghost before = pieces::texts(list@);
        let ghost added = token@;
        if !token.as_str().is_empty() {
            list.push(token);
            assert(pieces::texts(list@) =~= before.push(added));
        }
        proof {
            let after = pieces::texts(list@);
            assert forall|name: Seq<char>|
                #[trigger]
                after.contains(name) <==> name.len() > 0 && exists|k: int|
                    0 <= k < i + 1 && name == text::lower(text::trim(#[trigger] all[k])) by {
                if before.contains(name) {
                    let k = choose|k: int| 0 <= k < before.len() && before[k] == name;
                    assert(after[k] == name);
                    let q = choose|q: int|
                        0 <= q < i && name == text::lower(text::trim(#[trigger] all[q]));
                    assert(0 <= q < i + 1);
                }
                if name == added && added.len() > 0 {
                    assert(after[before.len() as int] == name);
                    assert(name == text::lower(text::trim(all[i as int])));
                }
                if after.contains(name) && !before.contains(name) {
                    let k = choose|k: int| 0 <= k < after.len() && after[k] == name;
                    if k < before.len() {
                        assert(before[k] == name);
                    }
                    assert(name == added);
                }
                if name.len() > 0 && exists|k: int|
                    0 <= k < i + 1 && name == text::lower(text::trim(#[trigger] all[k])) {
                    let q = choose|q: int|
                        0 <= q < i + 1 && name == text::lower(text::trim(#[trigger] all[q]));
                    if q < i {
                        assert(before.contains(name));
                    }
                }
            }
        }
        i = i + 1;
    }
    list
}

/// Whether a field is passed on: those that concern one connection only are not, nor is the host.
pub open spec fn is_forwarded(fields: Seq<Field>, f: Field) -> bool {
    text::lower(f.0) != "host"@ && !is_hop_by_hop(fields, text::lower(f.0))
}

/// The fields of a message that are passed on.
pub open spec fn forwarded(fields: Seq<Field>) -> Seq<Field> {
    fields.filter(|f: Field| is_forwarded(fields, f))
}

/// Fields as they stand in a message.
pub open spec fn fields_text(fields: Seq<Field>) -> Seq<char>
    decreases fields.len(),
{
    if fields.len() == 0 {
        Seq::empty()
    } else {
        fields_text(fields.drop_last()) + fields.last().0 + ": "@ + fields.last().1 + "\r\n"@
    }
}

/// The head of the request that is passed on.
pub open spec fn upstream_text(
    method: Seq<char>,
    path: Seq<char>,
    version: Seq<char>,
    fields: Seq<Field>,
    host: Seq<char>,
) -> Seq<char> {
    method + " "@ + path + " "@ + version + "\r\n"@ + fields_text(forwarded(fields)) + "Host: "@
        + host + "\r\nConnection: close\r\n\r\n"@
}

/// Writes the head of the request that is passed on.
pub fn upstream_head(
    method: &str,
    path: &str,
    version: &str,
    headers: &Vec<(String, String)>,
    host: &str,
) -> (r: String)
    ensures
        r@ == upstream_text(method@, path@, version@, fields_of(headers@), host@),
{
    let ghost fields = fields_of(headers@);
    let ghost keep = |f: Field| is_forwarded(fields, f);
    let hop_by_hop = hop_by_hop_headers(headers);
    let mut s = method.to_string();
    s.append(" ");
    s.append(path);
    s.append(" ");
    s.append(version);
    s.append("\r\n");
    let ghost start = s@;
    let mut i: usize = 0;
    proof {
        reveal(Seq::filter);
        assert(fields.take(0) =~= Seq::<Field>::empty());
        assert(fields.take(0).filter(keep) =~= Seq::<Field>::empty());
        assert(s@ =~= start + fields_text(fields.take(0).filter(keep)));
    }
    while i < headers.len()
        invariant
            fields == fields_of(headers@),
            keep == (|f: Field| is_forwarded(fields, f)),
            i <= headers.len(),
            forall|name: Seq<char>|
                pieces::texts(hop_by_hop@).contains(name) <==> is_hop_by_hop(fields, name),
            s@ == start + fields_text(fields.take(i as int).filter(keep)),
        decreases headers.len() - i,
    {
        let ghost earlier = fields.take(i as int).filter(keep);
        let ghost f = fields[i as int];
        proof {
            reveal(Seq::filter);
            assert(fields.take(i + 1).drop_last() =~= fields.take(i as int));
            assert(fields.take(i + 1).last() == f);
        }
        let lower = text::to_lower(headers[i].0.as_str());
        if !text::equals(lower.as_str(), "host") && !pieces::holds_text(
            &hop_by_hop,
            &lower,
        ) {
            assert(keep(f));
            let ghost before = s@;
            s.append(headers[i].0.as_str());
            s.append(": ");
            s.append(headers[i].1.as_str());
            s.append("\r\n");
            proof {
                let after = fields.take(i + 1).filter(keep);
                assert(after =~= earlier.push(f));
                assert(after.drop_last() =~= earlier);
                assert(s@ =~= start + (fields_text(earlier) + f.0 + ": "@ + f.1 + "\r\n"@));
            }
        } else {
            assert(!keep(f));
        }
        i = i + 1;
    }
    assert(fields.take(i as int) =~= fields);
    s.append("Host: ");
    s.append(host);
    s.append("\r\nConnection: close\r\n\r\n");
    s
}

/// No field that concerns one connection only is passed on, and the only host that is named is the
/// one that was asked for.
pub proof fn hop_by_hop_fields_stay_behind(fields: Seq<Field>, f: Field)
    requires
        forwarded(fields).contains(f),
    ensures
        fields.contains(f),
        text::lower(f.0) != "host"@,
        !is_hop_by_hop(fields, text::lower(f.0)),
{
    let keep = |f: Field| is_forwarded(fields, f);
    let i = choose|i: int| 0 <= i < forwarded(fields).len() && forwarded(fields)[i] == f;
    fields.lemma_filter_pred(keep, i);
    fields.lemma_filter_contains_rev(keep, f);
}

/// Every other field is passed on.
pub proof fn other_fields_are_passed_on(fields: Seq<Field>, f: Field)
    requires
        fields.contains(f),
        text::lower(f.0) != "host"@,
        !is_hop_by_hop(fields, text::lower(f.0)),
    ensures
        forwarded(fields).contains(f),
{
    let keep = |f: Field| is_forwarded(fields, f);
    let i = choose|i: int| 0 <= i < fields.len() && fields[i] == f;
    fields.lemma_filter_contains(keep, i);
}

// ---------------------------------------------------------------------------
// Reading a request
// ---------------------------------------------------------------------------

/// The most bytes of a request line.
pub const MAX_REQUEST_LINE_BYTES: usize = 8192;

/// The most bytes of a header line.
pub const MAX_HEADER_LINE_BYTES: usize = 8192;

/// The most bytes of all header lines.
pub const MAX_HEADER_BYTES: usize = 65536;

/// The most bytes of a body.
pub const MAX_REQUEST_BODY_BYTES: usize = 1048576;

/// What a request is refused for.
#[derive(Debug, Clone, Copy, PartialEq, Eq, Structural)]
pub enum RequestError {
    EmptyRequestLine,
    RequestLineTooLong,
    MissingTarget,
    UnexpectedEnd,
    HeaderLineTooLong,
    HeadersTooLarge,
    InvalidHeaderLine,
    BodyTooLarge,
}

/// The wording of an error.
pub open spec fn request_error_text(e: RequestError) -> Seq<char> {
    match e {
        RequestError::EmptyRequestLine => "empty request line"@,
        RequestError::RequestLineTooLong => "request line too long"@,
        RequestError::MissingTarget => "missing request target"@,
        RequestError::UnexpectedEnd => "unexpected end of headers"@,
        RequestError::HeaderLineTooLong => "header line too long"@,
        RequestError::HeadersTooLarge => "headers too large"@,
        RequestError::InvalidHeaderLine => "invalid header line"@,
        RequestError::BodyTooLarge => "request body too large"@,
    }
}

impl RequestError {
    /// The error as a sentence.
    pub fn message(&self) -> (r: String)
        ensures
            r@ == request_error_text(*self),
    {
        match self {
            RequestError::EmptyRequestLine => "empty request line".to_string(),
            RequestError::RequestLineTooLong => "request line too long".to_string(),
            RequestError::MissingTarget => "missing request target".to_string(),
            RequestError::UnexpectedEnd => "unexpected end of headers".to_string(),
            RequestError::HeaderLineTooLong => "header line too long".to_string(),
            RequestError::HeadersTooLarge => "headers too large".to_string(),
            RequestError::InvalidHeaderLine => "invalid header line".to_string(),
            RequestError::BodyTooLarge => "request body too large".to_string(),
        }
    }
}

/// The head of a request.
#[derive(Debug)]
pub struct RequestHead {
    pub method: String,
    pub target: String,
    pub version: String,
    pub headers: Vec<(String, String)>,
}

/// What a [`RequestHead`] denotes.
#[verifier::ext_equal]
pub struct Head {
    pub method: Seq<char>,
    pub target: Seq<char>,
    pub version: Seq<char>,
    pub fields: Seq<Field>,
}

impl View for RequestHead {
    type V = Head;

    open spec fn view(&self) -> Head {
        Head {
            method: self.method@,
            target: self.target@,
            version: self.version@,
            fields: fields_of(self.headers@),
        }
    }
}

/// A request.
#[derive(Debug)]
pub struct ParsedRequest {
    pub head: RequestHead,
    pub body: Vec<u8>,
}

/// The length of a text in UTF-8 bytes.
pub open spec fn byte_len(s: Seq<char>) -> nat {
    vstd::utf8::encode_utf8(s).len()
}

/// A line without the characters that end it.
pub open spec fn line_body(line: Seq<char>) -> Seq<char> {
    text::trim_end_of(line, CharClass::LineBreak)
}

/// The head that a request line starts. Only a `limited` reader bounds the line.
pub open spec fn started_head(line: Seq<char>, limited: bool) -> Result<Head, RequestError> {
    let words = pieces::words(line_body(line));
    if text::trim(line).len() == 0 {
        Err(RequestError::EmptyRequestLine)
    } else if limited && byte_len(line) > MAX_REQUEST_LINE_BYTES {
        Err(RequestError::RequestLineTooLong)
    } else if words.len() < 2 {
        Err(RequestError::MissingTarget)
    } else {
        Ok(
            Head {
                method: words[0],
                target: words[1],
                version: if words.len() > 2 {
                    words[2]
                } else {
                    "HTTP/1.1"@
                },
                fields: Seq::empty(),
            },
        )
    }
}

/// Reads a request line.
pub fn start_head(line: &str, limited: bool) -> (r: Result<RequestHead, RequestError>)
    ensures
        match r {
            Ok(head) => started_head(line@, limited) == Ok::<Head, RequestError>(head@),
            Err(e) => started_head(line@, limited) == Err::<Head, RequestError>(e),
        },
{
    if text::trimmed(line).is_empty() {
        return Err(RequestError::EmptyRequestLine);
    }
    if limited && text::utf8_len(line) > MAX_REQUEST_LINE_BYTES {
        return Err(RequestError::RequestLineTooLong);
    }
    let words = pieces::word_list(text::end_trimmed(line, CharClass::LineBreak));
    if words.len() < 2 {
        return Err(RequestError::MissingTarget);
    }
    let headers: Vec<(String, String)> = Vec::new();
    let ghost all = pieces::texts(words@);
    assert(all[0] == words@[0]@ && all[1] == words@[1]@);
    assert(words@.len() > 2 ==> all[2] == words@[2]@);
    assert(fields_of(headers@) =~= Seq::<Field>::empty());
    Ok(
        RequestHead {
            method: words[0].clone(),
            target: words[1].clone(),
            version: if words.len() > 2 {
                words[2].clone()
            } else {
                "HTTP/1.1".to_string()
            },
            headers,
        },
    )
}

/// How far a request has been read.
pub struct Reading {
    pub limited: bool,
    pub head: Option<Head>,
    pub header_bytes: nat,
    pub done: bool,
}

/// Reads the head of a request, one line at a time.
#[derive(Debug)]
pub struct RequestReader {
    pub limited: bool,
    pub head: Option<RequestHead>,
    pub header_bytes: usize,
    pub done: bool,
}

impl View for RequestReader {
    type V = Reading;

    open spec fn view(&self) -> Reading {
        Reading {
            limited: self.limited,
            head: match self.head {
                Some(head) => Some(head@),
                None => None,
            },
            header_bytes: self.header_bytes as nat,
            done: self.done,
        }
    }
}

/// The head with one more header line, and whether the line ends it. A reader that is not `limited`
/// takes the end of the input for the end of the head.
pub open spec fn extended_head(head: Head, header_bytes: nat, line: Seq<char>, limited: bool) -> Result<
    (Head, bool),
    RequestError,
> {
    let body = line_body(line);
    if limited && line.len() == 0 {
        Err(RequestError::UnexpectedEnd)
    } else if limited && byte_len(line) > MAX_HEADER_LINE_BYTES {
        Err(RequestError::HeaderLineTooLong)
    } else if limited && header_bytes + byte_len(line) > MAX_HEADER_BYTES {
        Err(RequestError::HeadersTooLarge)
    } else if body.len() == 0 {
        Ok((head, true))
    } else {
        match text::split_once(body, ':') {
            None => Err(RequestError::InvalidHeaderLine),
            Some((name, value)) => Ok(
                (
                    Head { fields: head.fields.push((text::trim(name), text::trim(value))), ..head },
                    false,
                ),
            ),
        }
    }
}

/// The reader after one more line, where an empty line is the end of the input. A reader that is
/// done takes no more lines.
pub open spec fn after_line(r: Reading, line: Seq<char>) -> Result<Reading, RequestError> {
    match r.head {
        None => match started_head(line, r.limited) {
            Err(e) => Err(e),
            Ok(head) => Ok(Reading { head: Some(head), ..r }),
        },
        Some(head) => if r.done {
            Ok(r)
        } else {
            match extended_head(head, r.header_bytes, line, r.limited) {
                Err(e) => Err(e),
                Ok((next, done)) => Ok(
                    Reading {
                        head: Some(next),
                        header_bytes: if r.limited {
                            r.header_bytes + byte_len(line)
                        } else {
                            r.header_bytes
                        },
                        done,
                        ..r
                    },
                ),
            }
        },
    }
}

/// The reader after lines, of which those behind the end of the head are not read.
pub open spec fn after_lines(r: Reading, lines: Seq<Seq<char>>) -> Result<Reading, RequestError>
    decreases lines.len(),
{
    if lines.len() == 0 || r.done {
        Ok(r)
    } else {
        match after_line(r, lines[0]) {
            Err(e) => Err(e),
            Ok(next) => after_lines(next, lines.drop_first()),
        }
    }
}

/// A reader that has read nothing.
pub open spec fn new_reading(limited: bool) -> Reading {
    Reading { limited, head: None, header_bytes: 0, done: false }
}

impl RequestReader {
    /// A reader that has read nothing.
    pub fn new(limited: bool) -> (r: RequestReader)
        ensures
            r@ == new_reading(limited),
    {
        RequestReader { limited, head: None, header_bytes: 0, done: false }
    }

    /// Reads one more line. Where the line is refused, the reader stays as it is.
    pub fn feed(&mut self, line: &str) -> (r: Result<(), RequestError>)
        ensures
            match after_line(old(self)@, line@) {
                Ok(next) => r is Ok && final(self)@ == next,
                Err(e) => r == Err::<(), RequestError>(e) && final(self)@ == old(self)@,
            },
    {
        match &mut self.head {
            None => match start_head(line, self.limited) {
                Err(e) => Err(e),
                Ok(head) => {
                    self.head = Some(head);
                    Ok(())
                },
            },
            Some(head) => {
                if self.done {
                    return Ok(());
                }
                let mut total: usize = self.header_bytes;
                if self.limited {
                    if text::chars_of(line).len() == 0 {
                        return Err(RequestError::UnexpectedEnd);
                    }
                    let n: usize = text::utf8_len(line);
                    if n > MAX_HEADER_LINE_BYTES {
                        return Err(RequestError::HeaderLineTooLong);
                    }
                    if self.header_bytes > MAX_HEADER_BYTES - n {
                        return Err(RequestError::HeadersTooLarge);
                    }
                    total = self.header_bytes + n;
                }
                let body = text::end_trimmed(line, CharClass::LineBreak);
                if body.is_empty() {
                    self.done = true;
                    self.header_bytes = total;
                    return Ok(());
                }
                match text::split_at_first(body, ':') {
                    None => Err(RequestError::InvalidHeaderLine),
                    Some((name, value)) => {
                        let ghost before = head@;
                        let name = text::trimmed(name).to_string();
                        let value = text::trimmed(value).to_string();
                        let ghost f = (name@, value@);
                        head.headers.push((name, value));
                        assert(head@.fields =~= before.fields.push(f));
                        self.header_bytes = total;
                        Ok(())
                    },
                }
            },
        }
    }
}

/// Reads the head of a request from lines.
pub fn read_request(lines: &Vec<String>, limited: bool) -> (r: Result<RequestReader, RequestError>)
    ensures
        match r {
            Ok(reader) => after_lines(new_reading(limited), pieces::texts(lines@)) == Ok::<
                Reading,
                RequestError,
            >(reader@),
            Err(e) => after_lines(new_reading(limited), pieces::texts(lines@)) == Err::<
                Reading,
                RequestError,
            >(e),
        },
{
    let mut reader = RequestReader::new(limited);
    let ghost all = pieces::texts(lines@);
    let mut i: usize = 0;
    assert(all.skip(0) =~= all);
    while i < lines.len() && !reader.done
        invariant
            i <= lines.len(),
            all == pieces::texts(lines@),
            after_lines(reader@, all.skip(i as int)) == after_lines(new_reading(limited), all),
        decreases lines.len() - i,
    {
        proof {
            assert(all.skip(i as int)[0] == lines@[i as int]@);
            assert(all.skip(i as int).drop_first() =~= all.skip(i + 1));
        }
        match reader.feed(lines[i].as_str()) {
            Ok(()) => {},
            Err(e) => return Err(e),
        }
        i = i + 1;
    }
    Ok(reader)
}

/// The length of the body that follows a head; a missing or unreadable length is 0.
pub open spec fn content_length(fields: Seq<Field>) -> nat {
    match field_named(fields, "content-length"@) {
        Some(value) => match number::parse_up_to(value, usize::MAX as nat) {
            Some(n) => n,
            None => 0,
        },
        None => 0,
    }
}

/// Finds the length of the body that follows a head.
pub fn body_length(head: &RequestHead, limited: bool) -> (r: Result<usize, RequestError>)
    ensures
        r == (if limited && content_length(head@.fields) > MAX_REQUEST_BODY_BYTES {
            Err::<usize, RequestError>(RequestError::BodyTooLarge)
        } else {
            Ok(content_length(head@.fields) as usize)
        }),
        r is Err <==> limited && content_length(head@.fields) > 1048576,
{
    let n: usize = match header_value(&head.headers, "content-length") {
        Some(value) => match number::read_number(value, usize::MAX as u64) {
            Some(n) => n as usize,
            None => 0,
        },
        None => 0,
    };
    if limited && n > MAX_REQUEST_BODY_BYTES {
        Err(RequestError::BodyTooLarge)
    } else {
        Ok(n)
    }
}

// ---------------------------------------------------------------------------
// Responses
// ---------------------------------------------------------------------------

/// The head of a response.
pub open spec fn response_text(
    status: u16,
    reason: Seq<char>,
    content_type: Option<Seq<char>>,
    length: nat,
) -> Seq<char> {
    "HTTP/1.1 "@ + number::decimal(status as nat) + " "@ + reason + "\r\n"@ + (match content_type {
        Some(kind) => "Content-Type: "@ + kind + "\r\n"@,
        None => Seq::empty(),
    }) + "Content-Length: "@ + number::decimal(length) + "\r\nConnection: close\r\n\r\n"@
}

/// Writes the head of a response.
pub fn response_head(status: u16, reason: &str, content_type: Option<&str>, length: usize) -> (r:
    String)
    ensures
        r@ == response_text(status, reason@, text::opt_str(content_type), length as nat),
{
    let mut s = "HTTP/1.1 ".to_string();
    s.append(number::decimal_of(status as u64).as_str());
    s.append(" ");
    s.append(reason);
    s.append("\r\n");
    match content_type {
        Some(kind) => {
            s.append("Content-Type: ");
            s.append(kind);
            s.append("\r\n");
        },
        None => {},
    }
    s.append("Content-Length: ");
    s.append(number::decimal_of(length as u64).as_str());
    s.append("\r\nConnection: close\r\n\r\n");
    assert(s@ =~= response_text(status, reason@, text::opt_str(content_type), length as nat));
    s
}

/// A response that is refused with a message.
pub open spec fn error_response_text(status: u16, reason: Seq<char>, message: Seq<char>) -> Seq<
    char,
> {
    let body = message.push('\n');
    response_text(status, reason, Some("text/plain; charset=utf-8"@), byte_len(body)) + body
}

/// Writes a response that is refused with a message.
pub fn error_response(status: u16, reason: &str, message: &str) -> (r: String)
    ensures
        r@ == error_response_text(status, reason@, message@),
{
    let mut body = message.to_string();
    body.push('\n');
    let mut s = response_head(
        status,
        reason,
        Some("text/plain; charset=utf-8"),
        text::utf8_len(body.as_str()),
    );
    s.append(body.as_str());
    s
}

} // verus!
