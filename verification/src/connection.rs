//! Exchanging messages with a host process.
//!
//! One message per line. A reader can resynchronise at the next line's start, so a bad frame
//! loses one message instead of the rest of the stream.
//!
//! [`dispatch`] is the only path from an inbound request to the editor. It refuses in two cases: a
//! method that is not recognised, and a capability the broker denies.

use vstd::prelude::*;
#[allow(unused_imports)]
use vstd::utf8::{decode_utf8, valid_utf8};
use std::collections::{BTreeMap, VecDeque};
use crate::capability::{Broker, Capability, CheckResult};
#[allow(unused_imports)]
use crate::capability::{abilities, reason_text, verdict_on, Ability, Standing, Verdict};
use crate::host::{HostSpec, PROTOCOL_VERSION};
use crate::json::{member, pair_object, string_value, text_value};
#[allow(unused_imports)]
use crate::json::{members, text_in};
#[allow(unused_imports)]
use crate::path::rooted;
use crate::protocol::{ErrorCode, Message, Notification, Request, Response};
#[allow(unused_imports)]
use crate::protocol::Refusal;
use crate::text::{
    chars_of, decimal, is_blank, join, same, split_bytes, text_of, trim_end, utf8_text,
};
#[allow(unused_imports)]
use crate::text::{blank, decimal_of, inner, joined_with, trim_end_of, view_of, views, yielded};

verus! {

/// What is reported of a line that is no text.
pub const NOT_TEXT: &'static str = "stream did not contain valid UTF-8";

/// An event from the reader.
#[derive(Debug, PartialEq)]
pub enum HostEvent {
    /// A message arrived.
    Message(Message),
    /// A line could not be decoded. Not terminal: one unreadable line loses one message.
    Garbled(String),
    /// The stream ended, which means the process is exiting or has exited.
    Closed,
}

// ---------------------------------------------------------------------------
// The error log
// ---------------------------------------------------------------------------

/// How many stderr lines are kept.
pub const ERROR_LOG_LINES: usize = 40;

/// The last lines the host wrote to stderr.
///
/// Bounded, because a host that logs on every keystroke would otherwise grow it for the whole
/// session. The last lines are kept, because the reason a process exits is usually at the end.
#[derive(Debug)]
pub struct ErrorLog {
    lines: VecDeque<String>,
}

impl View for ErrorLog {
    type V = Seq<Seq<char>>;

    closed spec fn view(&self) -> Seq<Seq<char>> {
        views(self.lines@)
    }
}

/// A log with one more line; a full one loses its oldest.
pub open spec fn logged(log: Seq<Seq<char>>, line: Seq<char>) -> Seq<Seq<char>> {
    if log.len() == ERROR_LOG_LINES {
        log.skip(1).push(line)
    } else {
        log.push(line)
    }
}

/// A log once text has been written to it: white space at its end is dropped, and an empty line
/// is not kept.
pub open spec fn recorded(log: Seq<Seq<char>>, text: Seq<char>) -> Seq<Seq<char>> {
    if trim_end_of(text).len() == 0 {
        log
    } else {
        logged(log, trim_end_of(text))
    }
}

impl Default for ErrorLog {
    fn default() -> (r: ErrorLog)
        ensures
            r@ == Seq::<Seq<char>>::empty(),
    {
        let r = ErrorLog { lines: VecDeque::new() };
        assert(r@ =~= Seq::<Seq<char>>::empty());
        r
    }
}

impl ErrorLog {
    /// Adds a line, dropping the oldest if the log is full.
    pub fn push(&mut self, line: String)
        ensures
            final(self)@ == logged(old(self)@, line@),
    {
        let ghost before = self@;
        let ghost said = line@;
        if self.lines.len() == ERROR_LOG_LINES {
            self.lines.pop_front();
            assert(self@ =~= before.skip(1));
        }
        let ghost kept = self@;
        self.lines.push_back(line);
        assert(self@ =~= kept.push(said));
    }

    /// Adds what is left of `text` without the white space at its end, if anything is.
    pub fn record(&mut self, text: &str)
        ensures
            final(self)@ == recorded(old(self)@, text@),
    {
        let line: String = trim_end(text);
        if !line.as_str().is_empty() {
            self.push(line);
        }
    }

    /// The log as one text, oldest line first.
    pub fn joined(&self) -> (r: String)
        ensures
            r@ == joined_with(self@, "\n"@),
    {
        let mut lines: Vec<String> = Vec::new();
        let mut i: usize = 0;
        while i < self.lines.len()
            invariant
                i <= self.lines@.len(),
                lines@.len() == i,
                forall|j: int| 0 <= j < i ==> (#[trigger] lines@[j])@ == self.lines@[j]@,
            decreases self.lines@.len() - i,
        {
            lines.push(self.lines[i].clone());
            i = i + 1;
        }
        assert(views(lines@) =~= self@);
        join(&lines, "\n")
    }

    /// Whether nothing has been logged.
    pub fn is_empty(&self) -> (r: bool)
        ensures
            r == (self@.len() == 0),
    {
        self.lines.len() == 0
    }
}

/// The text that bytes stand for, with what is not UTF-8 replaced.
pub uninterp spec fn lossy_text(bytes: Seq<u8>) -> Seq<char>;

/// `String::from_utf8_lossy`: the text of the bytes, each invalid sequence replaced by U+FFFD.
#[verifier::external_body]
fn lossy(bytes: &Vec<u8>) -> (r: String)
    ensures
        r@ == lossy_text(bytes@),
{
    String::from_utf8_lossy(bytes).into_owned()
}

/// The log once each line was written to it.
pub open spec fn all_recorded(log: Seq<Seq<char>>, lines: Seq<Seq<u8>>) -> Seq<Seq<char>>
    decreases lines.len(),
{
    if lines.len() == 0 {
        log
    } else {
        recorded(all_recorded(log, lines.drop_last()), lossy_text(lines.last()))
    }
}

/// Adds one line of raw output to the log.
pub fn pump_line(line: &Vec<u8>, log: &mut ErrorLog)
    ensures
        final(log)@ == recorded(old(log)@, lossy_text(line@)),
{
    let text: String = lossy(line);
    log.record(text.as_str());
}

/// Adds each line of raw output to the log.
///
/// Invalid UTF-8 is replaced: this is a diagnostic channel, and a stray byte from the host must
/// not discard the log.
pub fn pump_lines(input: &Vec<u8>, log: &mut ErrorLog)
    ensures
        final(log)@ == all_recorded(old(log)@, yielded(input@, 10u8)),
{
    let lines: Vec<Vec<u8>> = split_bytes(input, 10);
    let mut i: usize = 0;
    let ghost before = log@;
    while i < lines.len()
        invariant
            i <= lines@.len(),
            log@ == all_recorded(before, inner(lines@).take(i as int)),
        decreases lines@.len() - i,
    {
        proof {
            assert(inner(lines@).take(i + 1).drop_last() =~= inner(lines@).take(i as int));
        }
        pump_line(&lines[i], log);
        i = i + 1;
    }
    assert(inner(lines@).take(lines@.len() as int) =~= inner(lines@));
}

// ---------------------------------------------------------------------------
// Messages
// ---------------------------------------------------------------------------

/// A line without the carriage return that may precede its end.
pub open spec fn bare(line: Seq<char>) -> Seq<char> {
    if line.len() > 0 && line.last() == '\r' {
        line.drop_last()
    } else {
        line
    }
}

/// The bytes of a line without the carriage return that may precede its end.
pub open spec fn bare_bytes(line: Seq<u8>) -> Seq<u8> {
    if line.len() > 0 && line.last() == 13 {
        line.drop_last()
    } else {
        line
    }
}

/// The bytes of a line without its end: the line feed, with the carriage return before it.
pub open spec fn without_end(raw: Seq<u8>) -> Seq<u8> {
    if raw.len() > 0 && raw.last() == 10 {
        bare_bytes(raw.drop_last())
    } else {
        raw
    }
}

/// The lines of a stream: each line end is dropped, with the carriage return before it.
pub open spec fn stream_lines(input: Seq<u8>) -> Seq<Seq<u8>> {
    let lines = yielded(input, 10u8);
    let ended = input.len() > 0 && input.last() == 10;
    Seq::new(
        lines.len(),
        |i: int|
            if i < lines.len() - 1 || ended {
                bare_bytes(lines[i])
            } else {
                lines[i]
            },
    )
}

/// Whether a line says nothing: it is a text of white space alone.
pub open spec fn silent(line: Seq<u8>) -> bool {
    valid_utf8(line) && blank(decode_utf8(line))
}

/// Those of `lines` that say something.
pub open spec fn spoken(lines: Seq<Seq<u8>>) -> Seq<Seq<u8>>
    decreases lines.len(),
{
    if lines.len() == 0 {
        lines
    } else if silent(lines.last()) {
        spoken(lines.drop_last())
    } else {
        spoken(lines.drop_last()).push(lines.last())
    }
}

/// Whether `event` may report the line: as `decode` takes its text, or as unreadable where it has
/// none.
pub open spec fn reports<D: Fn(&String) -> Result<Message, String>>(
    decode: D,
    line: Seq<u8>,
    event: HostEvent,
) -> bool {
    if valid_utf8(line) {
        exists|text: String| #[trigger] text@ == decode_utf8(line) && match event {
            HostEvent::Message(message) => decode.ensures((&text,), Ok(message)),
            HostEvent::Garbled(error) => decode.ensures((&text,), Err(error)),
            HostEvent::Closed => false,
        }
    } else {
        event matches HostEvent::Garbled(error) && error@ == NOT_TEXT@
    }
}

/// What one line without its end reports: nothing where it says nothing.
fn bare_line_event<D: Fn(&String) -> Result<Message, String>>(line: &Vec<u8>, decode: &D) -> (r:
    Option<HostEvent>)
    requires
        forall|text: &String| decode.requires((text,)),
    ensures
        match r {
            Some(event) => !silent(line@) && reports(*decode, line@, event),
            None => silent(line@),
        },
{
    let text: String = match utf8_text(line) {
        Some(text) => text,
        None => {
            return Some(HostEvent::Garbled(NOT_TEXT.to_owned()));
        },
    };
    if is_blank(text.as_str()) {
        return None;
    }
    assert(text@ == decode_utf8(line@));
    match decode(&text) {
        Ok(message) => Some(HostEvent::Message(message)),
        Err(error) => Some(HostEvent::Garbled(error)),
    }
}

/// What one line of the stream reports, as it was read, with its end: nothing where it says
/// nothing.
pub fn line_event<D: Fn(&String) -> Result<Message, String>>(raw: &Vec<u8>, decode: &D) -> (r:
    Option<HostEvent>)
    requires
        forall|text: &String| decode.requires((text,)),
    ensures
        match r {
            Some(event) => !silent(without_end(raw@)) && reports(
                *decode,
                without_end(raw@),
                event,
            ),
            None => silent(without_end(raw@)),
        },
{
    let mut line: Vec<u8> = raw.clone();
    assert(line@ =~= raw@);
    if line.len() > 0 && line[line.len() - 1] == 10 {
        line.pop();
        line = strip_return_byte(&line);
    }
    bare_line_event(&line, decode)
}

/// A line without the carriage return at its end.
pub fn strip_return(line: &String) -> (r: String)
    ensures
        r@ == bare(line@),
{
    let chars: Vec<char> = chars_of(line.as_str());
    if chars.len() > 0 && chars[chars.len() - 1] == '\r' {
        assert(line@.subrange(0, line@.len() - 1) =~= line@.drop_last());
        text_of(&chars, 0, chars.len() - 1)
    } else {
        line.clone()
    }
}

/// The bytes of a line without the carriage return at its end.
fn strip_return_byte(line: &Vec<u8>) -> (r: Vec<u8>)
    ensures
        r@ == bare_bytes(line@),
{
    let mut r: Vec<u8> = line.clone();
    assert(r@ =~= line@);
    if r.len() > 0 && r[r.len() - 1] == 13 {
        r.pop();
    }
    r
}

/// Reads a stream of newline-delimited messages to its end.
///
/// A line that does not decode, or is no text at all, is reported instead of ending the read: the
/// next message starts at the next line. The end of the stream is the last event.
pub fn pump_messages<D: Fn(&String) -> Result<Message, String>>(input: &Vec<u8>, decode: &D) -> (r:
    Vec<HostEvent>)
    requires
        forall|text: &String| decode.requires((text,)),
    ensures
        ({
            let lines = spoken(stream_lines(input@));
            &&& r@.len() == lines.len() + 1
            &&& r@.last() is Closed
            &&& forall|i: int|
                0 <= i < lines.len() ==> reports(*decode, lines[i], #[trigger] r@[i])
        }),
{
    let pieces: Vec<Vec<u8>> = split_bytes(input, 10);
    let ended: bool = input.len() > 0 && input[input.len() - 1] == 10;
    let ghost lines = stream_lines(input@);
    let mut events: Vec<HostEvent> = Vec::new();
    let mut i: usize = 0;
    assert(spoken(lines.take(0)).len() == 0);
    while i < pieces.len()
        invariant
            i <= pieces@.len(),
            pieces@.len() == lines.len(),
            lines == stream_lines(input@),
            inner(pieces@) == yielded(input@, 10u8),
            ended == (input@.len() > 0 && input@.last() == 10),
            forall|text: &String| decode.requires((text,)),
            events@.len() == spoken(lines.take(i as int)).len(),
            forall|j: int|
                0 <= j < events@.len() ==> reports(
                    *decode,
                    spoken(lines.take(i as int))[j],
                    #[trigger] events@[j],
                ),
        decreases pieces@.len() - i,
    {
        let line: Vec<u8> = if i < pieces.len() - 1 || ended {
            strip_return_byte(&pieces[i])
        } else {
            pieces[i].clone()
        };
        proof {
            assert(inner(pieces@)[i as int] == pieces@[i as int]@);
            assert(lines.take(i + 1).drop_last() =~= lines.take(i as int));
            assert(lines[i as int] =~= line@);
        }
        if let Some(event) = bare_line_event(&line, decode) {
            events.push(event);
        }
        i = i + 1;
    }
    assert(lines.take(lines.len() as int) =~= lines);
    events.push(HostEvent::Closed);
    events
}

// ---------------------------------------------------------------------------
// Dispatch
// ---------------------------------------------------------------------------

/// What is done with one inbound request.
#[derive(Debug, PartialEq)]
pub enum Dispatch {
    /// Refused before it reached the editor. Carries the reply to send back.
    Refused(Response),
    /// The user has to be asked before this can proceed.
    Consent {
        /// What to ask about.
        capability: Capability,
    },
    /// Allowed through to the editor.
    Allowed,
}

/// A [`Dispatch`], as a value in contracts.
#[verifier::ext_equal]
pub enum Course {
    Refused(Refusal),
    Consent { capability: Ability },
    Allowed,
}

impl Dispatch {
    /// Whether this takes `course`.
    pub open spec fn takes(&self, course: Course) -> bool {
        match (self, course) {
            (Dispatch::Refused(response), Course::Refused(refusal)) => response.refuses(refusal),
            (Dispatch::Consent { capability: a }, Course::Consent { capability: b }) => a@ == b,
            (Dispatch::Allowed, Course::Allowed) => true,
            _ => false,
        }
    }
}

/// Why the first of `needed` that is denied is denied.
pub open spec fn first_denial(standing: Standing, needed: Seq<Ability>) -> Option<Seq<char>>
    decreases needed.len(),
{
    if needed.len() == 0 {
        None
    } else {
        match verdict_on(standing, needed[0]) {
            Verdict::Denied { reason } => Some(reason_text(reason)),
            _ => first_denial(standing, needed.skip(1)),
        }
    }
}

/// The first of `needed` that the user has to be asked about.
pub open spec fn first_question(standing: Standing, needed: Seq<Ability>) -> Option<Ability>
    decreases needed.len(),
{
    if needed.len() == 0 {
        None
    } else {
        match verdict_on(standing, needed[0]) {
            Verdict::NeedsConsent { capability } => Some(capability),
            _ => first_question(standing, needed.skip(1)),
        }
    }
}

/// What a method that nothing answers to is told.
pub open spec fn unknown_method_text(method: Seq<char>) -> Seq<char> {
    "deco does not know the method `"@ + method + "`"@
}

/// What happens to a request that needs `needed`; `None` where its method is not recognised.
pub open spec fn course_of(
    standing: Standing,
    id: u64,
    method: Seq<char>,
    needed: Option<Seq<Ability>>,
) -> Course {
    match needed {
        None => Course::Refused(
            Refusal {
                id,
                code: ErrorCode::MethodNotFound,
                message: unknown_method_text(method),
            },
        ),
        Some(needed) => match first_denial(standing, needed) {
            Some(message) => Course::Refused(
                Refusal { id, code: ErrorCode::PermissionDenied, message },
            ),
            None => match first_question(standing, needed) {
                Some(capability) => Course::Consent { capability },
                None => Course::Allowed,
            },
        },
    }
}

/// The abilities of an optional list.
pub open spec fn needed_view(needed: Option<Vec<Capability>>) -> Option<Seq<Ability>> {
    match needed {
        Some(list) => Some(abilities(list@)),
        None => None,
    }
}

/// Decides what happens to an inbound request, given the capabilities its method needs; `None`
/// where the method is not recognised.
///
/// An unrecognised method is rejected, so that a host from a newer version cannot reach an older
/// version's editor through a method it does not know. A request that needs several capabilities
/// is allowed only when every one is allowed. A denial of any of them refuses it, even when
/// another still needs consent, so the user is not asked about a request that would be refused
/// anyway. Otherwise the first capability that needs consent is returned: one question at a time.
/// A method that needs nothing is allowed.
pub fn dispatch(broker: &Broker, request: &Request, needed: &Option<Vec<Capability>>) -> (r:
    Dispatch)
    ensures
        r.takes(course_of(broker@, request.id, request.method@, needed_view(*needed))),
{
    match needed {
        None => {
            let mut message: String = "deco does not know the method `".to_owned();
            message.append(request.method.as_str());
            message.append("`");
            Dispatch::Refused(Response::err(request.id, ErrorCode::MethodNotFound, message))
        },
        Some(list) => {
            let mut consent: Option<Capability> = None;
            let mut i: usize = 0;
            let ghost all = abilities(list@);
            assert(all.skip(0) =~= all);
            while i < list.len()
                invariant
                    i <= list@.len(),
                    all == abilities(list@),
                    needed_view(*needed) == Some(all),
                    first_denial(broker@, all) == first_denial(broker@, all.skip(i as int)),
                    match consent {
                        Some(capability) => first_question(broker@, all) == Some(capability@),
                        None => first_question(broker@, all) == first_question(
                            broker@,
                            all.skip(i as int),
                        ),
                    },
                decreases list@.len() - i,
            {
                proof {
                    assert(all.skip(i as int)[0] == list@[i as int]@);
                    assert(all.skip(i as int).skip(1) =~= all.skip(i + 1));
                }
                match broker.check(&list[i]) {
                    CheckResult::Allowed => {},
                    CheckResult::NeedsConsent { capability } => {
                        if consent.is_none() {
                            consent = Some(capability);
                        }
                    },
                    CheckResult::Denied { reason } => {
                        return Dispatch::Refused(
                            Response::err(
                                request.id,
                                ErrorCode::PermissionDenied,
                                reason.message().to_owned(),
                            ),
                        );
                    },
                }
                i = i + 1;
            }
            match consent {
                Some(capability) => Dispatch::Consent { capability },
                None => Dispatch::Allowed,
            }
        },
    }
}

// ---------------------------------------------------------------------------
// Starting and stopping
// ---------------------------------------------------------------------------

/// Why the host never became usable.
#[derive(Debug, PartialEq)]
pub enum ReadyError {
    /// It did not send `$/ready` in time.
    TimedOut {
        /// The timeout.
        after_ms: u64,
    },
    /// It exited, or its pipe closed, before sending `$/ready`.
    Closed,
    /// It sent `$/ready` with a protocol version that is not spoken here.
    Protocol {
        /// The version the host reported.
        host: String,
    },
}

/// A [`ReadyError`], as a value in contracts.
#[verifier::ext_equal]
pub enum NotReady {
    TimedOut { after_ms: u64 },
    Closed,
    Protocol { host: Seq<char> },
}

impl View for ReadyError {
    type V = NotReady;

    open spec fn view(&self) -> NotReady {
        match self {
            ReadyError::TimedOut { after_ms } => NotReady::TimedOut { after_ms: *after_ms },
            ReadyError::Closed => NotReady::Closed,
            ReadyError::Protocol { host } => NotReady::Protocol { host: host@ },
        }
    }
}

/// What the error says.
pub open spec fn ready_error_text(error: NotReady) -> Seq<char> {
    match error {
        NotReady::TimedOut { after_ms } => "the extension host did not start within "@ + decimal_of(
            after_ms as nat,
        ) + " ms"@,
        NotReady::Closed => "the extension host exited before it was ready"@,
        NotReady::Protocol { host } => "the extension host speaks protocol "@ + host
            + ", deco speaks "@ + PROTOCOL_VERSION@,
    }
}

impl ReadyError {
    /// What the error says.
    pub fn message(&self) -> (r: String)
        ensures
            r@ == ready_error_text(self@),
    {
        match self {
            ReadyError::TimedOut { after_ms } => {
                let mut r: String = "the extension host did not start within ".to_owned();
                let amount: String = decimal(*after_ms);
                r.append(amount.as_str());
                r.append(" ms");
                r
            },
            ReadyError::Closed => "the extension host exited before it was ready".to_owned(),
            ReadyError::Protocol { host } => {
                let mut r: String = "the extension host speaks protocol ".to_owned();
                r.append(host.as_str());
                r.append(", deco speaks ");
                r.append(PROTOCOL_VERSION);
                r
            },
        }
    }
}

/// The protocol version a `$/ready` notification claims; the empty text where it claims none.
pub open spec fn claimed_protocol(params: serde_json::Value) -> Seq<char> {
    let all = members(params);
    if all.contains_key("protocol"@) {
        match text_in(all["protocol"@]) {
            Some(text) => text,
            None => Seq::empty(),
        }
    } else {
        Seq::empty()
    }
}

/// Whether a claimed protocol version is the one spoken here.
pub open spec fn agreement(claimed: Seq<char>) -> Result<(), NotReady> {
    if claimed == PROTOCOL_VERSION@ {
        Ok(())
    } else {
        Err(NotReady::Protocol { host: claimed })
    }
}

/// A result whose error is taken by its view.
pub open spec fn outcome_view(r: Result<(), ReadyError>) -> Result<(), NotReady> {
    match r {
        Ok(()) => Ok(()),
        Err(error) => Err(error@),
    }
}

/// Whether a claimed protocol version is the one spoken here; nothing claimed is no version.
pub fn protocol_agrees(claimed: Option<String>) -> (r: Result<(), ReadyError>)
    ensures
        outcome_view(r) == agreement(
            match view_of(claimed) {
                Some(text) => text,
                None => Seq::empty(),
            },
        ),
{
    let claimed: String = match claimed {
        Some(text) => text,
        None => String::new(),
    };
    if same(claimed.as_str(), PROTOCOL_VERSION) {
        Ok(())
    } else {
        Err(ReadyError::Protocol { host: claimed })
    }
}

/// Whether a `$/ready` notification agrees about the protocol.
pub fn agrees_on_protocol(ready: &Notification) -> (r: Result<(), ReadyError>)
    ensures
        outcome_view(r) == agreement(claimed_protocol(ready.params)),
{
    let claimed: Option<String> = match member(&ready.params, "protocol") {
        Some(value) => text_value(value),
        None => None,
    };
    protocol_agrees(claimed)
}

/// Why a host could not be started.
#[derive(Debug, PartialEq)]
pub enum SpawnError {
    /// The program could not be run.
    Launch {
        /// The program that was tried.
        program: String,
        /// The operating system's error.
        error: String,
    },
    /// A pipe to the process could not be taken.
    Pipes,
    /// The program is a bare name, not an absolute path.
    ///
    /// The host's environment is made from nothing, so it has no `PATH` to search. A bare name
    /// would fail as "no such file", which does not explain the cause.
    NotAbsolute {
        /// The configured program.
        program: String,
    },
}

impl SpawnError {
    /// What the error says, in contracts.
    pub open spec fn text(&self) -> Seq<char> {
        match self {
            SpawnError::Launch { program, error } => "could not start the extension host `"@
                + program@ + "`: "@ + error@,
            SpawnError::Pipes => "could not open pipes to the extension host"@,
            SpawnError::NotAbsolute { program } =>
                "the extension host's program must be an absolute path, not `"@ + program@
                + "`: its environment carries no PATH to search"@,
        }
    }

    /// What the error says.
    pub fn message(&self) -> (r: String)
        ensures
            r@ == self.text(),
    {
        match self {
            SpawnError::Launch { program, error } => {
                let mut r: String = "could not start the extension host `".to_owned();
                r.append(program.as_str());
                r.append("`: ");
                r.append(error.as_str());
                r
            },
            SpawnError::Pipes => "could not open pipes to the extension host".to_owned(),
            SpawnError::NotAbsolute { program } => {
                let mut r: String =
                    "the extension host's program must be an absolute path, not `".to_owned();
                r.append(program.as_str());
                r.append("`: its environment carries no PATH to search");
                r
            },
        }
    }
}

/// Checks that the program of a command line can be found without a `PATH`.
pub fn check_program(spec: &HostSpec) -> (r: Result<(), SpawnError>)
    ensures
        match r {
            Ok(()) => rooted(spec.program.text@),
            Err(SpawnError::NotAbsolute { program }) => !rooted(spec.program.text@) && program@
                == spec.program.text@,
            Err(_) => false,
        },
{
    if spec.program_is_absolute() {
        Ok(())
    } else {
        Err(SpawnError::NotAbsolute { program: spec.program.display().to_owned() })
    }
}

/// How long to wait for a host to exit on its own before killing it, in milliseconds.
pub const SHUTDOWN_GRACE: u64 = 500;

/// The request that loads an extension and runs its `activate`.
pub const ACTIVATE: &'static str = "$/activate";

/// The request that runs a command the extension registered.
pub const EXECUTE_COMMAND: &'static str = "$/executeCommand";

/// The notification with which a host says that it has started.
pub const READY: &'static str = "$/ready";

/// The notification that asks a host to stop.
pub const SHUTDOWN: &'static str = "$/shutdown";

/// What the request that activates an extension is about: the extension's directory as the host
/// sees it, and its entry point.
pub fn activation_params(path: &str, main: &str) -> (r: serde_json::Value)
    ensures
        members(r).dom() == set!["extensionPath"@, "main"@],
        text_in(members(r)["extensionPath"@]) == Some(path@),
        text_in(members(r)["main"@]) == Some(main@),
{
    let r = pair_object("extensionPath", string_value(path), "main", string_value(main));
    proof {
        reveal_strlit("extensionPath");
        reveal_strlit("main");
        assert("extensionPath"@.len() != "main"@.len());
        assert(members(r).dom() =~= set!["extensionPath"@, "main"@]);
    }
    r
}

/// What the request that runs a command is about.
pub fn command_params(command: &str, args: serde_json::Value) -> (r: serde_json::Value)
    ensures
        members(r).dom() == set!["command"@, "args"@],
        text_in(members(r)["command"@]) == Some(command@),
        members(r)["args"@] == args,
{
    let r = pair_object("command", string_value(command), "args", args);
    proof {
        reveal_strlit("command");
        reveal_strlit("args");
        assert("command"@.len() != "args"@.len());
        assert(members(r).dom() =~= set!["command"@, "args"@]);
    }
    r
}

/// The requests sent to a host and not yet answered, by id.
///
/// A reply carries the id alone; the method is what its result is routed by.
#[derive(Debug)]
pub struct Requests {
    next_id: u64,
    pending: BTreeMap<u64, String>,
}

/// [`Requests`], as a value in contracts.
#[verifier::ext_equal]
pub struct Outstanding {
    pub next_id: u64,
    pub pending: Map<u64, Seq<char>>,
}

impl View for Requests {
    type V = Outstanding;

    closed spec fn view(&self) -> Outstanding {
        Outstanding {
            next_id: self.next_id,
            pending: self.pending@.map_values(|method: String| method@),
        }
    }
}

impl Default for Requests {
    fn default() -> (r: Requests)
        ensures
            r@ == (Outstanding { next_id: 1, pending: Map::empty() }),
    {
        let r = Requests { next_id: 1, pending: BTreeMap::new() };
        assert(r@.pending =~= Map::empty());
        r
    }
}

impl Requests {
    /// Makes a request and keeps its method until it is answered.
    pub fn request(&mut self, method: &str, params: serde_json::Value) -> (r: Request)
        requires
            old(self)@.next_id < u64::MAX,
        ensures
            r.id == old(self)@.next_id,
            r.method@ == method@,
            r.params == params,
            final(self)@ == (Outstanding {
                next_id: (old(self)@.next_id + 1) as u64,
                pending: old(self)@.pending.insert(old(self)@.next_id, method@),
            }),
    {
        broadcast use vstd::std_specs::btree::group_btree_axioms;

        let id: u64 = self.next_id;
        let ghost before = self@.pending;
        self.next_id = id + 1;
        self.pending.insert(id, method.to_owned());
        assert(self@.pending =~= before.insert(id, method@));
        Request { id, method: method.to_owned(), params }
    }

    /// Makes the request that activates an extension.
    pub fn activate(&mut self, path: &str, main: &str) -> (r: Request)
        requires
            old(self)@.next_id < u64::MAX,
        ensures
            r.id == old(self)@.next_id,
            r.method@ == ACTIVATE@,
            members(r.params).dom() == set!["extensionPath"@, "main"@],
            text_in(members(r.params)["extensionPath"@]) == Some(path@),
            text_in(members(r.params)["main"@]) == Some(main@),
            final(self)@ == (Outstanding {
                next_id: (old(self)@.next_id + 1) as u64,
                pending: old(self)@.pending.insert(old(self)@.next_id, ACTIVATE@),
            }),
    {
        self.request(ACTIVATE, activation_params(path, main))
    }

    /// Makes the request that runs one of the commands an extension registered.
    pub fn execute_command(&mut self, command: &str, args: serde_json::Value) -> (r: Request)
        requires
            old(self)@.next_id < u64::MAX,
        ensures
            r.id == old(self)@.next_id,
            r.method@ == EXECUTE_COMMAND@,
            members(r.params).dom() == set!["command"@, "args"@],
            text_in(members(r.params)["command"@]) == Some(command@),
            members(r.params)["args"@] == args,
            final(self)@ == (Outstanding {
                next_id: (old(self)@.next_id + 1) as u64,
                pending: old(self)@.pending.insert(old(self)@.next_id, EXECUTE_COMMAND@),
            }),
    {
        self.request(EXECUTE_COMMAND, command_params(command, args))
    }

    /// The method a reply answers. The request is then no longer pending.
    pub fn answered(&mut self, id: u64) -> (r: Option<String>)
        ensures
            match r {
                Some(method) => old(self)@.pending.contains_key(id) && method@
                    == old(self)@.pending[id],
                None => !old(self)@.pending.contains_key(id),
            },
            final(self)@ == (Outstanding {
                pending: old(self)@.pending.remove(id),
                ..old(self)@
            }),
    {
        broadcast use vstd::std_specs::btree::group_btree_axioms;

        let ghost before = self@.pending;
        let ghost kept = self.pending@;
        let r: Option<String> = self.pending.remove(&id);
        assert(self.pending@ =~= kept.remove(id));
        assert(self@.pending =~= before.remove(id));
        r
    }

    /// The id that the next request will have.
    pub fn next_id(&self) -> (r: u64)
        ensures
            r == self@.next_id,
    {
        self.next_id
    }

    /// How many requests are waiting for a reply.
    pub fn pending(&self) -> (r: usize)
        ensures
            r == self@.pending.dom().len(),
    {
        broadcast use vstd::std_specs::btree::group_btree_axioms;

        assert(self@.pending.dom() =~= self.pending@.dom());
        self.pending.len()
    }
}

/// One step of waiting for a host.
#[derive(Debug, PartialEq)]
pub enum Waiting {
    /// The wait is over.
    Finished(Result<(), ReadyError>),
    /// Something else arrived and was kept: look for the next event.
    Kept,
    /// Nothing has arrived: sleep a moment and look again.
    Sleep,
}

/// Whether an event is the host's `$/ready`.
pub open spec fn is_ready(event: HostEvent) -> bool {
    event matches HostEvent::Message(Message::Notification(note)) && note.method@ == READY@
}

/// Takes one step of waiting for the host's `$/ready`: what has arrived, if anything has, and
/// whether the time is over.
///
/// Events that arrive before `$/ready` are kept: log output during startup is worth keeping, and
/// a request that arrives first still needs a reply.
pub fn ready_step(
    event: Option<HostEvent>,
    expired: bool,
    after_ms: u64,
    seen: &mut Vec<HostEvent>,
) -> (r: Waiting)
    ensures
        match event {
            Some(event) => if is_ready(event) {
                &&& r matches Waiting::Finished(outcome)
                &&& outcome_view(outcome) == agreement(
                    claimed_protocol(event->Message_0->Notification_0.params),
                )
                &&& final(seen)@ == old(seen)@
            } else if event is Closed {
                &&& r matches Waiting::Finished(outcome)
                &&& outcome_view(outcome) == Err::<(), NotReady>(NotReady::Closed)
                &&& final(seen)@ == old(seen)@
            } else {
                r is Kept && final(seen)@ == old(seen)@.push(event)
            },
            None => {
                &&& final(seen)@ == old(seen)@
                &&& if expired {
                    &&& r matches Waiting::Finished(outcome)
                    &&& outcome_view(outcome) == Err::<(), NotReady>(
                        NotReady::TimedOut { after_ms },
                    )
                } else {
                    r is Sleep
                }
            },
        },
{
    match event {
        Some(HostEvent::Closed) => Waiting::Finished(Err(ReadyError::Closed)),
        Some(event) => {
            if let HostEvent::Message(Message::Notification(note)) = &event {
                if same(note.method.as_str(), READY) {
                    return Waiting::Finished(agrees_on_protocol(note));
                }
            }
            seen.push(event);
            Waiting::Kept
        },
        None => if expired {
            Waiting::Finished(Err(ReadyError::TimedOut { after_ms }))
        } else {
            Waiting::Sleep
        },
    }
}

/// What is known of a process that was asked to stop.
#[derive(Debug, Clone, Copy, PartialEq, Eq, Structural)]
pub enum Exit {
    /// It has exited.
    Exited,
    /// It is still running.
    Running,
    /// Waiting for it failed.
    Unknown,
}

/// One step of stopping a host.
#[derive(Debug, Clone, Copy, PartialEq, Eq, Structural)]
pub enum Stopping {
    /// It has stopped.
    Done,
    /// Sleep a moment and look again.
    Sleep,
    /// Kill it: a host that does not stop must not keep the editor open.
    Kill,
}

/// Takes one step of stopping a host that was sent `$/shutdown`.
pub fn shutdown_step(exit: Exit, expired: bool) -> (r: Stopping)
    ensures
        r == (match exit {
            Exit::Exited => Stopping::Done,
            Exit::Running => if expired {
                Stopping::Kill
            } else {
                Stopping::Sleep
            },
            Exit::Unknown => Stopping::Kill,
        }),
{
    match exit {
        Exit::Exited => Stopping::Done,
        Exit::Running => if expired {
            Stopping::Kill
        } else {
            Stopping::Sleep
        },
        Exit::Unknown => Stopping::Kill,
    }
}

// ---------------------------------------------------------------------------
// Laws
// ---------------------------------------------------------------------------

/// A log that begins within its bound stays within it.
pub proof fn law_the_error_log_is_bounded(log: Seq<Seq<char>>, lines: Seq<Seq<u8>>)
    requires
        log.len() <= ERROR_LOG_LINES,
    ensures
        all_recorded(log, lines).len() <= ERROR_LOG_LINES,
    decreases lines.len(),
{
    if lines.len() > 0 {
        law_the_error_log_is_bounded(log, lines.drop_last());
    }
}

/// A log with each line pushed in turn.
pub open spec fn all_logged(lines: Seq<Seq<char>>) -> Seq<Seq<char>>
    decreases lines.len(),
{
    if lines.len() == 0 {
        Seq::empty()
    } else {
        logged(all_logged(lines.drop_last()), lines.last())
    }
}

/// The log keeps the last lines, in order: all of them while they fit, else as many as fit.
pub proof fn law_the_error_log_keeps_the_last_lines(lines: Seq<Seq<char>>)
    ensures
        all_logged(lines) == if lines.len() <= ERROR_LOG_LINES {
            lines
        } else {
            lines.skip(lines.len() - ERROR_LOG_LINES)
        },
    decreases lines.len(),
{
    if lines.len() > 0 {
        law_the_error_log_keeps_the_last_lines(lines.drop_last());
        if lines.len() <= ERROR_LOG_LINES {
            assert(lines.drop_last().push(lines.last()) =~= lines);
        } else {
            assert(all_logged(lines) =~= lines.skip(lines.len() - ERROR_LOG_LINES));
        }
    } else {
        assert(all_logged(lines) =~= lines);
    }
}

/// A request whose method is not recognised never reaches the editor, and the user is not asked.
pub proof fn law_an_unknown_method_is_refused(standing: Standing, id: u64, method: Seq<char>)
    ensures
        course_of(standing, id, method, None) == Course::Refused(
            Refusal { id, code: ErrorCode::MethodNotFound, message: unknown_method_text(method) },
        ),
{
}

proof fn lemma_denied_at(standing: Standing, needed: Seq<Ability>, i: int)
    requires
        0 <= i < needed.len(),
        verdict_on(standing, needed[i]) is Denied,
    ensures
        first_denial(standing, needed) is Some,
    decreases needed.len(),
{
    if i > 0 && !(verdict_on(standing, needed[0]) is Denied) {
        assert(needed.skip(1)[i - 1] == needed[i]);
        lemma_denied_at(standing, needed.skip(1), i - 1);
    }
}

proof fn lemma_asked_at(standing: Standing, needed: Seq<Ability>, i: int)
    requires
        0 <= i < needed.len(),
        verdict_on(standing, needed[i]) is NeedsConsent,
    ensures
        first_question(standing, needed) is Some,
    decreases needed.len(),
{
    if i > 0 && !(verdict_on(standing, needed[0]) is NeedsConsent) {
        assert(needed.skip(1)[i - 1] == needed[i]);
        lemma_asked_at(standing, needed.skip(1), i - 1);
    }
}

/// A denial of any needed capability refuses the request, even when another needs consent.
pub proof fn law_any_denial_refuses(
    standing: Standing,
    id: u64,
    method: Seq<char>,
    needed: Seq<Ability>,
    i: int,
)
    requires
        0 <= i < needed.len(),
        verdict_on(standing, needed[i]) is Denied,
    ensures
        course_of(standing, id, method, Some(needed)) matches Course::Refused(refusal)
            && refusal.code == ErrorCode::PermissionDenied && refusal.id == id,
{
    lemma_denied_at(standing, needed, i);
}

/// A request reaches the editor only when every capability it needs is allowed.
pub proof fn law_allowed_means_every_one_allowed(
    standing: Standing,
    id: u64,
    method: Seq<char>,
    needed: Seq<Ability>,
    i: int,
)
    requires
        course_of(standing, id, method, Some(needed)) is Allowed,
        0 <= i < needed.len(),
    ensures
        verdict_on(standing, needed[i]) is Allowed,
{
    if verdict_on(standing, needed[i]) is Denied {
        lemma_denied_at(standing, needed, i);
    }
    if verdict_on(standing, needed[i]) is NeedsConsent {
        lemma_asked_at(standing, needed, i);
    }
}

/// A request that needs an undeclared capability is refused whatever the user granted.
pub proof fn law_undeclared_is_refused(
    standing: Standing,
    id: u64,
    method: Seq<char>,
    needed: Seq<Ability>,
    i: int,
)
    requires
        0 <= i < needed.len(),
        !crate::capability::one_covers(standing.declared, needed[i], standing.roots),
    ensures
        course_of(standing, id, method, Some(needed)) is Refused,
{
    crate::capability::law_deny_by_default(standing, needed[i]);
    law_any_denial_refuses(standing, id, method, needed, i);
}

} // verus!
