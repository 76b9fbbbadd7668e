//! The client's side of a debug session: what is sent, and what is made of what comes back.
use dap::responses::{Response, ResponseBody};
use serde_json::{from_value, Value};
use vstd::prelude::*;
use vstd::string::*;

use crate::exec::json::JsonView;

verus! {

/// The number of the scope that holds the operand stack, as the server has it.
pub const SCOPE_STACK: i64 = 1;

/// The number of the scope that holds the memory, as the server has it.
pub const SCOPE_MEMORY: i64 = 2;

/// The client and the server number the scopes alike.
pub proof fn scopes_are_numbered_alike()
    ensures
        SCOPE_STACK == crate::exec::protocol::SCOPE_STACK,
        SCOPE_MEMORY == crate::exec::protocol::SCOPE_MEMORY,
{
}

// ---------------------------------------------------------------------------------------------
// Requests
// ---------------------------------------------------------------------------------------------

/// What a server is asked for.
#[derive(Debug)]
pub enum DapRequest {
    Initialize,
    Launch,
    ConfigurationDone,
    StepIn,
    Next,
    StepOut,
    Continue,
    StackTrace,
    Variables(i64),
    Evaluate(String),
    SetBreakpoints { path: String, lines: Vec<i64> },
    Disconnect,
}

/// An object with one member.
pub open spec fn singleton(name: Seq<char>, value: JsonView) -> JsonView {
    JsonView::Object(Map::empty().insert(name, value))
}

/// An integer.
pub open spec fn number(n: int) -> JsonView {
    JsonView::Number(crate::text::signed_decimal(n))
}

/// The lines of breakpoints, each in an object of its own.
pub open spec fn line_values(lines: Seq<i64>) -> Seq<JsonView> {
    Seq::new(lines.len(), |i: int| singleton("line"@, number(lines[i] as int)))
}

impl DapRequest {
    /// What the request is called.
    pub open spec fn command(&self) -> Seq<char> {
        match self {
            DapRequest::Initialize => "initialize"@,
            DapRequest::Launch => "launch"@,
            DapRequest::ConfigurationDone => "configurationDone"@,
            DapRequest::StepIn => "stepIn"@,
            DapRequest::Next => "next"@,
            DapRequest::StepOut => "stepOut"@,
            DapRequest::Continue => "continue"@,
            DapRequest::StackTrace => "stackTrace"@,
            DapRequest::Variables(_) => "variables"@,
            DapRequest::Evaluate(_) => "evaluate"@,
            DapRequest::SetBreakpoints { .. } => "setBreakpoints"@,
            DapRequest::Disconnect => "disconnect"@,
        }
    }

    /// What the request says of itself.
    pub open spec fn arguments(&self) -> JsonView {
        match self {
            DapRequest::Initialize => JsonView::Object(
                Map::empty().insert("adapterID"@, JsonView::Text("miden-debug-tui"@)).insert(
                    "clientName"@,
                    JsonView::Text("miden-debug TUI"@),
                ).insert("linesStartAt1"@, JsonView::Bool(true)).insert(
                    "columnsStartAt1"@,
                    JsonView::Bool(true),
                ),
            ),
            DapRequest::Launch => JsonView::Object(Map::empty()),
            DapRequest::ConfigurationDone => JsonView::Object(Map::empty()),
            DapRequest::Disconnect => JsonView::Object(Map::empty()),
            DapRequest::Variables(scope) => singleton("variablesReference"@, number(*scope as int)),
            DapRequest::Evaluate(expression) => singleton(
                "expression"@,
                JsonView::Text(expression@),
            ),
            DapRequest::SetBreakpoints { path, lines } => JsonView::Object(
                Map::empty().insert("source"@, singleton("path"@, JsonView::Text(path@))).insert(
                    "breakpoints"@,
                    JsonView::List(line_values(lines@)),
                ),
            ),
            _ => singleton("threadId"@, number(1)),
        }
    }

    /// Whether the program runs in reply, so that it stops or ends behind the reply.
    pub open spec fn runs(&self) -> bool {
        match self {
            DapRequest::StepIn => true,
            DapRequest::Next => true,
            DapRequest::StepOut => true,
            DapRequest::Continue => true,
            DapRequest::ConfigurationDone => true,
            _ => false,
        }
    }

    /// Whether the program runs in reply, so that it stops or ends behind the reply.
    pub fn awaits_stop(&self) -> (r: bool)
        ensures
            r == self.runs(),
    {
        match self {
            DapRequest::StepIn => true,
            DapRequest::Next => true,
            DapRequest::StepOut => true,
            DapRequest::Continue => true,
            DapRequest::ConfigurationDone => true,
            _ => false,
        }
    }

    /// What the request is called.
    pub fn command_name(&self) -> (r: &'static str)
        ensures
            r@ == self.command(),
    {
        match self {
            DapRequest::Initialize => "initialize",
            DapRequest::Launch => "launch",
            DapRequest::ConfigurationDone => "configurationDone",
            DapRequest::StepIn => "stepIn",
            DapRequest::Next => "next",
            DapRequest::StepOut => "stepOut",
            DapRequest::Continue => "continue",
            DapRequest::StackTrace => "stackTrace",
            DapRequest::Variables(_) => "variables",
            DapRequest::Evaluate(_) => "evaluate",
            DapRequest::SetBreakpoints { .. } => "setBreakpoints",
            DapRequest::Disconnect => "disconnect",
        }
    }

    fn argument_object(&self) -> (r: Value)
        ensures
            crate::exec::json::json_of(r) == self.arguments(),
    {
        let mut object = crate::exec::json::empty_object();
        match self {
            DapRequest::Initialize => {
                let adapter = crate::exec::json::string("miden-debug-tui");
                crate::exec::json::put(&mut object, "adapterID", adapter);
                let client = crate::exec::json::string("miden-debug TUI");
                crate::exec::json::put(&mut object, "clientName", client);
                crate::exec::json::put(
                    &mut object,
                    "linesStartAt1",
                    crate::exec::json::boolean(true),
                );
                crate::exec::json::put(
                    &mut object,
                    "columnsStartAt1",
                    crate::exec::json::boolean(true),
                );
            },
            DapRequest::Launch => {},
            DapRequest::ConfigurationDone => {},
            DapRequest::Disconnect => {},
            DapRequest::Variables(scope) => {
                let scope = crate::exec::json::integer(*scope);
                crate::exec::json::put(&mut object, "variablesReference", scope);
            },
            DapRequest::Evaluate(expression) => {
                let expression = crate::exec::json::string(expression.as_str());
                crate::exec::json::put(&mut object, "expression", expression);
            },
            DapRequest::SetBreakpoints { path, lines } => {
                let mut source = crate::exec::json::empty_object();
                crate::exec::json::put(
                    &mut source,
                    "path",
                    crate::exec::json::string(path.as_str()),
                );
                crate::exec::json::put(&mut object, "source", source);
                let breakpoints = line_objects(lines);
                crate::exec::json::put(
                    &mut object,
                    "breakpoints",
                    crate::exec::json::list(breakpoints),
                );
            },
            _ => {
                crate::exec::json::put(&mut object, "threadId", crate::exec::json::integer(1));
            },
        }
        object
    }
}

fn line_objects(lines: &Vec<i64>) -> (r: Vec<Value>)
    ensures
        crate::exec::json::json_views(r@) == line_values(lines@),
{
    let mut out: Vec<Value> = Vec::new();
    let mut i: usize = 0;
    while i < lines.len()
        invariant
            i <= lines@.len(),
            out@.len() == i,
            forall|k: int|
                0 <= k < i ==> crate::exec::json::json_of(#[trigger] out@[k]) == line_values(
                    lines@,
                )[k],
        decreases lines@.len() - i,
    {
        let mut object = crate::exec::json::empty_object();
        crate::exec::json::put(&mut object, "line", crate::exec::json::integer(lines[i]));
        out.push(object);
        i += 1;
    }
    proof {
        assert(crate::exec::json::json_views(out@) =~= line_values(lines@));
    }
    out
}

/// A request with its number, as it is sent.
pub open spec fn request_value(request: DapRequest, seq: i64) -> JsonView {
    JsonView::Object(
        Map::empty().insert("seq"@, number(seq as int)).insert(
            "command"@,
            JsonView::Text(request.command()),
        ).insert("arguments"@, request.arguments()),
    )
}

/// A text with a header that says how many bytes it has.
pub open spec fn framed(body: Seq<char>) -> Seq<char> {
    "Content-Length: "@ + crate::text::decimal(crate::debug::source::byte_len(body)) + "\r\n\r\n"@
        + body
}

/// Puts a header in front of a text that says how many bytes it has.
pub fn frame(body: &str) -> (r: String)
    ensures
        r@ == framed(body@),
{
    let length: usize = body.as_bytes().len();
    let mut out = "Content-Length: ".to_owned();
    out.append(crate::text::render_usize(length).as_str());
    out.append("\r\n\r\n");
    out.append(body);
    proof {
        assert(out@ =~= framed(body@));
    }
    out
}

/// A debug client. It numbers its requests from one on.
#[derive(Debug)]
pub struct DapClient {
    /// The number of the request sent last.
    pub seq: i64,
}

impl DapClient {
    /// A client that has sent nothing.
    pub fn new() -> (r: Self)
        ensures
            r.seq == 0,
    {
        DapClient { seq: 0 }
    }

    /// What is sent to make a request.
    pub open spec fn sent(self, request: DapRequest) -> Seq<char> {
        framed(crate::exec::json::json_text(request_value(request, (self.seq + 1) as i64)))
    }

    /// Makes a request. Returns what is to be sent.
    pub fn send_request(&mut self, request: &DapRequest) -> (r: String)
        requires
            old(self).seq < i64::MAX,
        ensures
            final(self).seq == old(self).seq + 1,
            r@ == old(self).sent(*request),
    {
        self.seq = self.seq + 1;
        let mut object = crate::exec::json::empty_object();
        crate::exec::json::put(&mut object, "seq", crate::exec::json::integer(self.seq));
        let command = crate::exec::json::string(request.command_name());
        crate::exec::json::put(&mut object, "command", command);
        crate::exec::json::put(&mut object, "arguments", request.argument_object());
        let body = crate::exec::json::write(&object);
        frame(body.as_str())
    }
}

// ---------------------------------------------------------------------------------------------
// Headers
// ---------------------------------------------------------------------------------------------

/// The header of a message, as far as it was read.
#[derive(Debug)]
pub struct MessageHeader {
    /// How many bytes the message has; zero as long as that is not known.
    pub content_length: usize,
}

/// What comes of a header when a line is read: how many bytes the message has, and whether the
/// header has come to its end. A blank line ends the header, if the number of bytes is known; in
/// front of a header it is skipped.
pub open spec fn header_after(content_length: usize, line: Seq<char>) -> Result<
    (usize, bool),
    Seq<char>,
> {
    let trimmed = crate::text::trimmed(line);
    let name = "Content-Length:"@;
    if trimmed.len() == 0 {
        Ok((content_length, content_length > 0))
    } else if crate::text::has_prefix(trimmed, name) {
        let value = crate::text::trimmed(trimmed.skip(name.len() as int));
        match crate::text::number_value(value, usize::MAX as nat) {
            Ok(n) => Ok((n as usize, false)),
            Err(e) => Err("invalid Content-Length: "@ + e.printed()),
        }
    } else {
        Ok((content_length, false))
    }
}

impl MessageHeader {
    /// A header of which nothing was read.
    pub fn new() -> (r: Self)
        ensures
            r.content_length == 0,
    {
        MessageHeader { content_length: 0 }
    }

    /// Reads a line. Returns whether the header has come to its end.
    pub fn feed(&mut self, line: &str) -> (r: Result<bool, String>)
        ensures
            match r {
                Ok(ended) => header_after(old(self).content_length, line@) == Ok::<_, Seq<char>>(
                    (final(self).content_length, ended),
                ),
                Err(e) => {
                    &&& header_after(old(self).content_length, line@) == Err::<(usize, bool), _>(e@)
                    &&& *final(self) == *old(self)
                },
            },
    {
        let trimmed = crate::text::trim(line);
        if trimmed.as_str().is_empty() {
            return Ok(self.content_length > 0);
        }
        if crate::text::starts_with(trimmed.as_str(), "Content-Length:") {
            let chars = crate::text::chars_of(trimmed.as_str());
            let name = crate::text::chars_of("Content-Length:");
            let rest = crate::text::string_of(&chars, name.len(), chars.len());
            proof {
                assert(rest@ =~= trimmed@.skip("Content-Length:"@.len() as int));
            }
            let value = crate::text::trim(rest.as_str());
            match crate::text::parse_number(value.as_str(), usize::MAX as u64) {
                Ok(n) => {
                    self.content_length = n as usize;
                },
                Err(e) => {
                    return Err(crate::text::concat("invalid Content-Length: ", e.message()));
                },
            }
        }
        Ok(false)
    }
}

/// A server that reads what a client sends, line by line, learns how many bytes to read: the first
/// line says so, and the blank line behind it ends the header. What is sent has no other header.
pub proof fn the_length_reads_back(body: Seq<char>)
    requires
        0 < crate::debug::source::byte_len(body) <= usize::MAX,
    ensures
        ({
            let length = crate::debug::source::byte_len(body);
            let first = "Content-Length: "@ + crate::text::decimal(length) + "\r\n"@;
            &&& framed(body) == first + "\r\n"@ + body
            &&& header_after(0, first) == Ok::<(usize, bool), Seq<char>>((length as usize, false))
            &&& header_after(length as usize, "\r\n"@) == Ok::<(usize, bool), Seq<char>>(
                (length as usize, true),
            )
        }),
{
    let length = crate::debug::source::byte_len(body);
    let digits = crate::text::decimal(length);
    reveal_strlit("Content-Length: ");
    reveal_strlit("Content-Length:");
    reveal_strlit("\r\n");
    reveal_strlit("\r\n\r\n");
    crate::text::digits_shape(length);
    crate::text::decimal_reads_back(length, usize::MAX as nat);
    let first = "Content-Length: "@ + digits + "\r\n"@;
    let bare = "Content-Length: "@ + digits;
    assert("\r\n\r\n"@ =~= "\r\n"@ + "\r\n"@);
    assert(framed(body) =~= first + "\r\n"@ + body);
    assert(crate::text::trimmed(first) == bare) by {
        reveal_with_fuel(crate::text::trim_end, 3);
        assert(first.drop_last().drop_last() =~= bare);
        assert(bare.last() == digits.last());
    }
    let rest = bare.skip("Content-Length:"@.len() as int);
    assert(bare.take("Content-Length:"@.len() as int) =~= "Content-Length:"@);
    assert(crate::text::trimmed(rest) == digits) by {
        reveal_with_fuel(crate::text::trim_start, 2);
        assert(rest.skip(1) =~= digits);
    }
    assert(crate::text::trimmed("\r\n"@).len() == 0) by {
        reveal_with_fuel(crate::text::trim_start, 3);
        assert("\r\n"@.skip(1).skip(1).len() == 0);
    }
}

// ---------------------------------------------------------------------------------------------
// Messages
// ---------------------------------------------------------------------------------------------

/// A call frame that a server speaks of.
#[derive(Debug)]
pub struct RemoteFrame {
    pub name: String,
    /// The path of the source file.
    pub path: Option<String>,
    pub line: i64,
    pub column: i64,
}

/// What a [`RemoteFrame`] says.
pub struct RemoteFrameView {
    pub name: Seq<char>,
    pub path: Option<Seq<char>>,
    pub line: i64,
    pub column: i64,
}

impl View for RemoteFrame {
    type V = RemoteFrameView;

    open spec fn view(&self) -> RemoteFrameView {
        RemoteFrameView {
            name: self.name@,
            path: crate::debug::op::text_view(self.path),
            line: self.line,
            column: self.column,
        }
    }
}

impl RemoteFrame {
    pub fn new(name: String, path: Option<String>, line: i64, column: i64) -> (r: Self)
        ensures
            r == (RemoteFrame { name, path, line, column }),
    {
        RemoteFrame { name, path, line, column }
    }
}

/// A variable that a server speaks of.
#[derive(Debug)]
pub struct RemoteVariable {
    pub name: String,
    pub value: String,
}

impl RemoteVariable {
    pub fn new(name: String, value: String) -> (r: Self)
        ensures
            r == (RemoteVariable { name, value }),
    {
        RemoteVariable { name, value }
    }
}

/// What a [`RemoteVariable`] says: its name, and its value.
impl View for RemoteVariable {
    type V = (Seq<char>, Seq<char>);

    open spec fn view(&self) -> (Seq<char>, Seq<char>) {
        (self.name@, self.value@)
    }
}

/// What a response holds.
#[derive(Debug)]
pub enum ResponseContent {
    StackTrace(Vec<RemoteFrame>),
    Variables(Vec<RemoteVariable>),
    Evaluate(String),
    /// Anything else, or nothing.
    Other,
}

/// What a [`ResponseContent`] says.
pub enum ContentView {
    StackTrace(Seq<RemoteFrameView>),
    Variables(Seq<(Seq<char>, Seq<char>)>),
    Evaluate(Seq<char>),
    Other,
}

impl View for ResponseContent {
    type V = ContentView;

    open spec fn view(&self) -> ContentView {
        match self {
            ResponseContent::StackTrace(frames) => ContentView::StackTrace(
                frames@.map_values(|f: RemoteFrame| f@),
            ),
            ResponseContent::Variables(variables) => ContentView::Variables(
                variables@.map_values(|v: RemoteVariable| v@),
            ),
            ResponseContent::Evaluate(result) => ContentView::Evaluate(result@),
            ResponseContent::Other => ContentView::Other,
        }
    }
}

/// The answer to a request.
#[derive(Debug)]
pub struct DapResponse {
    /// The number of the request.
    pub request_seq: i64,
    pub success: bool,
    /// What went wrong.
    pub message: Option<String>,
    pub content: ResponseContent,
}

/// What a [`DapResponse`] says.
pub struct ResponseView {
    pub request_seq: i64,
    pub success: bool,
    pub message: Option<Seq<char>>,
    pub content: ContentView,
}

impl View for DapResponse {
    type V = ResponseView;

    open spec fn view(&self) -> ResponseView {
        ResponseView {
            request_seq: self.request_seq,
            success: self.success,
            message: crate::debug::op::text_view(self.message),
            content: self.content@,
        }
    }
}

/// What a JSON value says as a response, or why it is none.
pub uninterp spec fn response_parsed(value: JsonView) -> Result<ResponseView, Seq<char>>;

/// Takes a JSON value for a response.
///
/// Trusted: `serde_json::from_value` for `dap::responses::Response`. What it makes of a value is
/// named, not described.
#[verifier::external_body]
fn read_response(value: Value) -> (r: Result<DapResponse, String>)
    ensures
        match r {
            Ok(response) => response_parsed(crate::exec::json::json_of(value)) == Ok::<
                ResponseView,
                Seq<char>,
            >(response@),
            Err(e) => response_parsed(crate::exec::json::json_of(value)) == Err::<
                ResponseView,
                Seq<char>,
            >(e@),
        },
{
    let response: Response = from_value(value).map_err(|e| e.to_string())?;
    Ok(DapResponse {
        request_seq: response.request_seq,
        success: response.success,
        message: response.message.map(|m| format!("{m:?}")),
        content: match response.body {
            Some(ResponseBody::StackTrace(trace)) => ResponseContent::StackTrace(
                trace.stack_frames.into_iter().map(|f| RemoteFrame::new(
                    f.name, f.source.and_then(|s| s.path), f.line, f.column)).collect()),
            Some(ResponseBody::Variables(scope)) => ResponseContent::Variables(
                scope.variables.into_iter().map(|v| RemoteVariable::new(v.name, v.value)).collect()),
            Some(ResponseBody::Evaluate(answer)) => ResponseContent::Evaluate(answer.result),
            _ => ResponseContent::Other
        }
    })
}

/// What has happened, as far as a client cares.
#[derive(Debug, Clone, Copy, PartialEq, Eq, Structural)]
pub enum Happening {
    /// The program has stopped.
    Stopped,
    /// The program has come to its end.
    Terminated,
    /// Anything else.
    Other,
}

/// What a JSON value says as an event, or why it is none.
pub uninterp spec fn event_parsed(value: JsonView) -> Result<Happening, Seq<char>>;

/// Takes a JSON value for an event.
///
/// Trusted: `serde_json::from_value` for `dap::events::Event`. What it makes of a value is named,
/// not described.
#[verifier::external_body]
fn read_event(value: Value) -> (r: Result<Happening, String>)
    ensures
        match r {
            Ok(happening) => event_parsed(crate::exec::json::json_of(value)) == Ok::<
                Happening,
                Seq<char>,
            >(happening),
            Err(e) => event_parsed(crate::exec::json::json_of(value)) == Err::<
                Happening,
                Seq<char>,
            >(e@),
        },
{
    let parsed = from_value::<dap::events::Event>(value);
    match parsed.map_err(|e| e.to_string())? {
        dap::events::Event::Stopped(_) => Ok(Happening::Stopped),
        dap::events::Event::Terminated(_) => Ok(Happening::Terminated),
        _ => Ok(Happening::Other),
    }
}

/// A text in double quotes, as a programmer would write it.
pub uninterp spec fn quoted(text: Seq<char>) -> Seq<char>;

/// A text in double quotes, as a programmer would write it.
///
/// Trusted: `Debug` of std for `str`. How characters are escaped is named, not described.
#[verifier::external_body]
fn quote(text: &str) -> (r: String)
    ensures
        r@ == quoted(text@),
{
    format!("{text:?}")
}

/// Why bytes are no text in UTF-8.
pub uninterp spec fn utf8_fault(bytes: Seq<u8>) -> Seq<char>;

/// Takes bytes for a text in UTF-8.
///
/// Trusted: `String::from_utf8` of std, which gives the text whose bytes these are, and fails where
/// they are those of no text. How the failure is put in words is named, not described.
#[verifier::external_body]
fn utf8_text(bytes: Vec<u8>) -> (r: Result<String, String>)
    ensures
        match r {
            Ok(text) => vstd::utf8::encode_utf8(text@) == bytes@,
            Err(e) => !vstd::utf8::valid_utf8(bytes@) && e@ == utf8_fault(bytes@),
        },
{
    String::from_utf8(bytes).map_err(|e| e.utf8_error().to_string())
}

/// A message of a server.
#[derive(Debug)]
pub enum DapMessage {
    Response(DapResponse),
    Event(Happening),
}

/// What a [`DapMessage`] says.
pub enum MessageView {
    Response(ResponseView),
    Event(Happening),
}

impl View for DapMessage {
    type V = MessageView;

    open spec fn view(&self) -> MessageView {
        match self {
            DapMessage::Response(response) => MessageView::Response(response@),
            DapMessage::Event(happening) => MessageView::Event(*happening),
        }
    }
}

/// What a JSON value says as a message, or why it is none.
pub open spec fn message_of(value: JsonView) -> Result<MessageView, Seq<char>> {
    let sort = value.member_text("type"@);
    if sort == Some("response"@) {
        match response_parsed(value) {
            Ok(response) => Ok(MessageView::Response(response)),
            Err(e) => Err("response parse error: "@ + e),
        }
    } else if sort == Some("event"@) {
        match event_parsed(value) {
            Ok(happening) => Ok(MessageView::Event(happening)),
            Err(e) => Err("event parse error: "@ + e),
        }
    } else {
        Err(
            "unexpected message type: "@ + match sort {
                Some(text) => "Some("@ + quoted(text) + ")"@,
                None => "None"@,
            },
        )
    }
}

/// What the text of a message says, or why it says nothing.
pub open spec fn message_read(text: Seq<char>) -> Result<MessageView, Seq<char>> {
    match crate::exec::json::json_parsed(text) {
        Ok(value) => message_of(value),
        Err(e) => Err("JSON parse error: "@ + e),
    }
}

/// Whether a result is what the view says.
pub open spec fn is_message(
    r: Result<DapMessage, String>,
    view: Result<MessageView, Seq<char>>,
) -> bool {
    match r {
        Ok(message) => view == Ok::<MessageView, Seq<char>>(message@),
        Err(e) => view == Err::<MessageView, Seq<char>>(e@),
    }
}

fn classify(value: Value) -> (r: Result<DapMessage, String>)
    ensures
        is_message(r, message_of(crate::exec::json::json_of(value))),
{
    proof {
        reveal_strlit("response");
        reveal_strlit("event");
        assert("response"@.len() != "event"@.len());
    }
    match crate::exec::json::member_text(&value, "type") {
        Some(sort) => if crate::text::same(sort.as_str(), "response") {
            match read_response(value) {
                Ok(response) => Ok(DapMessage::Response(response)),
                Err(e) => Err(crate::text::concat("response parse error: ", e.as_str())),
            }
        } else if crate::text::same(sort.as_str(), "event") {
            match read_event(value) {
                Ok(happening) => Ok(DapMessage::Event(happening)),
                Err(e) => Err(crate::text::concat("event parse error: ", e.as_str())),
            }
        } else {
            let mut shown = "Some(".to_owned();
            shown.append(quote(sort.as_str()).as_str());
            shown.append(")");
            Err(crate::text::concat("unexpected message type: ", shown.as_str()))
        },
        None => Err(crate::text::concat("unexpected message type: ", "None")),
    }
}

/// Reads a message from its bytes.
pub fn read_message(content: Vec<u8>) -> (r: Result<DapMessage, String>)
    ensures
        vstd::utf8::valid_utf8(content@) ==> is_message(
            r,
            message_read(vstd::utf8::decode_utf8(content@)),
        ),
        !vstd::utf8::valid_utf8(content@) ==> (r matches Err(e) && e@ == "invalid utf-8: "@
            + utf8_fault(content@)),
{
    match utf8_text(content) {
        Ok(text) => {
            proof {
                vstd::utf8::encode_utf8_valid_utf8(text@);
                vstd::utf8::encode_utf8_decode_utf8(text@);
            }
            match crate::exec::json::parse(text.as_str()) {
                Ok(value) => classify(value),
                Err(e) => Err(crate::text::concat("JSON parse error: ", e.as_str())),
            }
        },
        Err(e) => Err(crate::text::concat("invalid utf-8: ", e.as_str())),
    }
}

// ---------------------------------------------------------------------------------------------
// Waiting
// ---------------------------------------------------------------------------------------------

/// Why the program came to a halt.
#[derive(Debug, Clone, Copy, PartialEq, Eq, Structural)]
pub enum DapStopReason {
    /// It has stopped.
    Stopped,
    /// It has come to its end.
    Terminated,
}

/// What a client that waits for the response to a request makes of a message: the response, or the
/// error that it tells of. Events and the responses to other requests are passed over.
pub fn wait_for_response(message: DapMessage, awaited: i64) -> (r: Option<
    Result<DapResponse, String>,
>)
    ensures
        match message {
            DapMessage::Event(_) => r is None,
            DapMessage::Response(response) => if response.request_seq != awaited {
                r is None
            } else if response.success {
                r == Some(Ok::<DapResponse, String>(response))
            } else {
                r matches Some(Err(e)) && e@ == "DAP error: "@ + match response.message {
                    Some(m) => m@,
                    None => "unknown error"@,
                }
            },
        },
{
    match message {
        DapMessage::Event(_) => None,
        DapMessage::Response(response) => if response.request_seq != awaited {
            None
        } else if response.success {
            Some(Ok(response))
        } else {
            Some(
                Err(
                    match &response.message {
                        Some(m) => crate::text::concat("DAP error: ", m.as_str()),
                        None => crate::text::concat("DAP error: ", "unknown error"),
                    },
                ),
            )
        },
    }
}

/// What a client that waits for the program to halt makes of a message. All but the events that
/// tell of a halt are passed over.
pub fn wait_for_stopped(message: &DapMessage) -> (r: Option<DapStopReason>)
    ensures
        r == match *message {
            DapMessage::Event(Happening::Stopped) => Some(DapStopReason::Stopped),
            DapMessage::Event(Happening::Terminated) => Some(DapStopReason::Terminated),
            _ => None,
        },
{
    match message {
        DapMessage::Event(Happening::Stopped) => Some(DapStopReason::Stopped),
        DapMessage::Event(Happening::Terminated) => Some(DapStopReason::Terminated),
        _ => None,
    }
}

impl DapClient {
    /// What the client asks for to begin with, one after the other.
    pub fn handshake() -> (r: Vec<DapRequest>)
        ensures
            r@ == seq![
                DapRequest::Initialize,
                DapRequest::Launch,
                DapRequest::ConfigurationDone,
            ],
    {
        vec![DapRequest::Initialize, DapRequest::Launch, DapRequest::ConfigurationDone]
    }

    /// The frames that a response holds.
    pub fn stack_trace(response: DapResponse) -> (r: Result<Vec<RemoteFrame>, String>)
        ensures
            match response.content {
                ResponseContent::StackTrace(frames) => r == Ok::<_, String>(frames),
                _ => r matches Err(e) && e@ == "unexpected response to stackTrace"@,
            },
    {
        match response.content {
            ResponseContent::StackTrace(frames) => Ok(frames),
            _ => Err("unexpected response to stackTrace".to_owned()),
        }
    }

    /// The variables that a response holds.
    pub fn variables(response: DapResponse) -> (r: Result<Vec<RemoteVariable>, String>)
        ensures
            match response.content {
                ResponseContent::Variables(variables) => r == Ok::<_, String>(variables),
                _ => r matches Err(e) && e@ == "unexpected response to variables"@,
            },
    {
        match response.content {
            ResponseContent::Variables(variables) => Ok(variables),
            _ => Err("unexpected response to variables".to_owned()),
        }
    }

    /// The result that a response holds.
    pub fn evaluate(response: DapResponse) -> (r: Result<String, String>)
        ensures
            match response.content {
                ResponseContent::Evaluate(result) => r == Ok::<_, String>(result),
                _ => r matches Err(e) && e@ == "unexpected response to evaluate"@,
            },
    {
        match response.content {
            ResponseContent::Evaluate(result) => Ok(result),
            _ => Err("unexpected response to evaluate".to_owned()),
        }
    }
}

// ---------------------------------------------------------------------------------------------
// What holds of every session
// ---------------------------------------------------------------------------------------------

/// Whether a server takes a request for this command.
pub open spec fn asks_for(request: DapRequest, command: crate::exec::protocol::DapCommand) -> bool {
    match (request, command) {
        (DapRequest::Initialize, crate::exec::protocol::DapCommand::Initialize) => true,
        (DapRequest::Launch, crate::exec::protocol::DapCommand::Launch) => true,
        (DapRequest::ConfigurationDone, crate::exec::protocol::DapCommand::ConfigurationDone) =>
            true,
        (DapRequest::StepIn, crate::exec::protocol::DapCommand::StepIn) => true,
        (DapRequest::Next, crate::exec::protocol::DapCommand::Next) => true,
        (DapRequest::StepOut, crate::exec::protocol::DapCommand::StepOut) => true,
        (DapRequest::Continue, crate::exec::protocol::DapCommand::Continue) => true,
        (DapRequest::StackTrace, crate::exec::protocol::DapCommand::StackTrace) => true,
        (DapRequest::Variables(a), crate::exec::protocol::DapCommand::Variables(b)) => a == b,
        (DapRequest::Evaluate(a), crate::exec::protocol::DapCommand::Evaluate(b)) => a@ == b@,
        (
            DapRequest::SetBreakpoints { path: a, lines: b },
            crate::exec::protocol::DapCommand::SetBreakpoints { path: c, lines: d },
        ) => crate::debug::op::text_view(c) == Some(a@) && (d matches Some(d) && d@ == b@),
        (DapRequest::Disconnect, crate::exec::protocol::DapCommand::Disconnect) => true,
        _ => false,
    }
}

/// The client waits for the program to stop behind just those requests behind which the server lets
/// it run, or tells that it has stopped.
pub proof fn the_client_waits_where_the_server_tells(
    request: DapRequest,
    command: crate::exec::protocol::DapCommand,
    session: crate::exec::dap::DapSession,
    machine: crate::exec::protocol::MachineState,
)
    requires
        asks_for(request, command),
    ensures
        request.runs() <==> {
            let turn = session.turn(command, machine);
            turn.then_do is Run || (turn.event matches Some(
                crate::exec::protocol::EventView::Stopped { .. },
            ))
        },
{
}

/// Requests are called as the protocol has it, so that each is known by its name.
pub proof fn requests_are_known_by_name(request: DapRequest)
    ensures
        request is Initialize ==> request.command() == "initialize"@,
        request is Launch ==> request.command() == "launch"@,
        request is ConfigurationDone ==> request.command() == "configurationDone"@,
        request is StepIn ==> request.command() == "stepIn"@,
        request is Next ==> request.command() == "next"@,
        request is StepOut ==> request.command() == "stepOut"@,
        request is Continue ==> request.command() == "continue"@,
        request is StackTrace ==> request.command() == "stackTrace"@,
        request is Variables ==> request.command() == "variables"@,
        request is Evaluate ==> request.command() == "evaluate"@,
        request is SetBreakpoints ==> request.command() == "setBreakpoints"@,
        request is Disconnect ==> request.command() == "disconnect"@,
{
}

/// A request holds its number, its name and its arguments, and nothing else.
pub proof fn a_request_holds_its_number_and_name(request: DapRequest, seq: i64)
    ensures
        ({
            &&& request_value(request, seq) matches JsonView::Object(members)
            &&& members.dom() == set!["seq"@, "command"@, "arguments"@]
            &&& members["seq"@] matches JsonView::Number(n)
            &&& crate::text::shows_number(n, seq as int)
            &&& members["command"@] == JsonView::Text(request.command())
            &&& members["arguments"@] == request.arguments()
        }),
{
    reveal_strlit("seq");
    reveal_strlit("command");
    reveal_strlit("arguments");
    assert("seq"@.len() == 3 && "command"@.len() == 7 && "arguments"@.len() == 9);
    crate::text::a_sign_stands_in_front(seq as int);
    let members = request_value(request, seq)->Object_0;
    assert(members.dom() =~= set!["seq"@, "command"@, "arguments"@]);
}

/// The arguments of a request tell which scope the variables are asked for of, what is to be
/// evaluated, and which lines of which file are to have breakpoints, in their order; what runs the
/// program, and what asks for its frames, names its only thread.
pub proof fn arguments_say_what_is_asked_for(request: DapRequest, i: int)
    ensures
        match request {
            DapRequest::Variables(scope) => {
                &&& request.arguments() matches JsonView::Object(members)
                &&& members.dom().contains("variablesReference"@)
                &&& members["variablesReference"@] matches JsonView::Number(n)
                &&& crate::text::shows_number(n, scope as int)
            },
            DapRequest::Evaluate(expression) => request.arguments().member_text("expression"@)
                == Some(expression@),
            DapRequest::SetBreakpoints { path, lines } => {
                &&& request.arguments() matches JsonView::Object(members)
                &&& members.dom().contains("source"@)
                &&& members["source"@].member_text("path"@) == Some(path@)
                &&& members.dom().contains("breakpoints"@)
                &&& members["breakpoints"@] matches JsonView::List(set)
                &&& set.len() == lines@.len()
                &&& 0 <= i < set.len() ==> (set[i] matches JsonView::Object(at) && at.dom().contains(
                    "line"@,
                ) && (at["line"@] matches JsonView::Number(n) && crate::text::shows_number(
                    n,
                    lines@[i] as int,
                )))
            },
            DapRequest::StepIn | DapRequest::Next | DapRequest::StepOut | DapRequest::Continue
            | DapRequest::StackTrace => {
                &&& request.arguments() matches JsonView::Object(members)
                &&& members.dom().contains("threadId"@)
                &&& members["threadId"@] matches JsonView::Number(n)
                &&& crate::text::shows_number(n, 1)
            },
            _ => request.arguments() is Object,
        },
{
    match request {
        DapRequest::Variables(scope) => {
            crate::text::a_sign_stands_in_front(scope as int);
        },
        DapRequest::SetBreakpoints { path, lines } => {
            reveal_strlit("source");
            reveal_strlit("breakpoints");
            assert("source"@.len() != "breakpoints"@.len());
            if 0 <= i < lines@.len() {
                crate::text::a_sign_stands_in_front(lines@[i] as int);
            }
        },
        _ => {
            crate::text::a_sign_stands_in_front(1);
        },
    }
}

/// A line of a header that does not speak of the length changes nothing; a blank line ends the header
/// once the length is known; and a line that speaks of the length gives a number.
pub proof fn only_the_length_counts_in_a_header(content_length: usize, line: Seq<char>)
    ensures
        ({
            let trimmed = crate::text::trimmed(line);
            match header_after(content_length, line) {
                Ok((length, ended)) => {
                    &&& ended <==> trimmed.len() == 0 && content_length > 0
                    &&& length != content_length ==> "Content-Length:"@.is_prefix_of(trimmed)
                    &&& "Content-Length:"@.is_prefix_of(trimmed) && trimmed.len() > 0 ==> ({
                        let value = crate::text::trimmed(
                            trimmed.skip("Content-Length:"@.len() as int),
                        );
                        crate::text::place_value(crate::text::without_plus(value), 10) == length
                    })
                },
                Err(_) => "Content-Length:"@.is_prefix_of(trimmed),
            }
        }),
{
    let trimmed = crate::text::trimmed(line);
    crate::text::ends_of_texts(trimmed, "Content-Length:"@);
    let value = crate::text::trimmed(trimmed.skip("Content-Length:"@.len() as int));
    crate::text::a_number_is_read_digit_by_digit(value, usize::MAX as nat);
}

/// A message is a response or an event as its type says, and any other type is refused.
pub proof fn messages_are_told_apart_by_their_type(value: JsonView)
    ensures
        match message_of(value) {
            Ok(MessageView::Response(response)) => value.member_text("type"@) == Some("response"@)
                && response_parsed(value) == Ok::<ResponseView, Seq<char>>(response),
            Ok(MessageView::Event(happening)) => value.member_text("type"@) == Some("event"@)
                && event_parsed(value) == Ok::<Happening, Seq<char>>(happening),
            Err(_) => {
                ||| value.member_text("type"@) == Some("response"@) && response_parsed(value) is Err
                ||| value.member_text("type"@) == Some("event"@) && event_parsed(value) is Err
                ||| value.member_text("type"@) != Some("response"@) && value.member_text("type"@)
                    != Some("event"@)
            },
        },
{
}

/// What a server tells of is taken over in full.
pub proof fn remote_values_are_taken_over(
    frame: RemoteFrame,
    variable: RemoteVariable,
    response: DapResponse,
)
    ensures
        frame@.name == frame.name@ && frame@.line == frame.line && frame@.column == frame.column,
        match (frame.path, frame@.path) {
            (Some(a), Some(b)) => a@ == b,
            (None, None) => true,
            _ => false,
        },
        variable@ == (variable.name@, variable.value@),
        response@.request_seq == response.request_seq && response@.success == response.success,
        match response.content {
            ResponseContent::StackTrace(frames) => response@.content matches ContentView::StackTrace(
                said,
            ) && said.len() == frames@.len() && forall|i: int|
                0 <= i < said.len() ==> #[trigger] said[i] == frames@[i]@,
            ResponseContent::Variables(variables) =>
                response@.content matches ContentView::Variables(said) && said.len()
                == variables@.len() && forall|i: int|
                0 <= i < said.len() ==> #[trigger] said[i] == variables@[i]@,
            ResponseContent::Evaluate(result) => response@.content == ContentView::Evaluate(result@),
            ResponseContent::Other => response@.content is Other,
        },
{
}

/// Requests are numbered one after the other, from one on, and what is sent is the text of the
/// request with that number behind its length.
pub proof fn requests_are_numbered(client: DapClient, request: DapRequest)
    requires
        client.seq < i64::MAX,
    ensures
        exists|value: JsonView, text: Seq<char>|
            {
                &&& value matches JsonView::Object(members)
                &&& members.dom() == set!["seq"@, "command"@, "arguments"@]
                &&& members["seq"@] matches JsonView::Number(n)
                &&& crate::text::shows_number(n, client.seq + 1)
                &&& members["command"@] == JsonView::Text(request.command())
                &&& members["arguments"@] == request.arguments()
                &&& text == #[trigger] crate::exec::json::json_text(value)
                &&& client.sent(request) == #[trigger] framed(text)
            },
{
    a_request_holds_its_number_and_name(request, (client.seq + 1) as i64);
    let value = request_value(request, (client.seq + 1) as i64);
    let text = crate::exec::json::json_text(value);
    assert(client.sent(request) == framed(text));
}

/// A text that stands for no value is no message; one that stands for a value is a message just
/// where the value is.
pub proof fn a_message_is_a_value(text: Seq<char>, value: JsonView)
    ensures
        crate::exec::json::json_parsed(text) is Err ==> message_read(text) is Err,
        crate::exec::json::json_parsed(text) == Ok::<JsonView, Seq<char>>(value) ==> message_read(
            text,
        ) == message_of(value),
{
}

/// A message is given where there is one, and what is wrong with it where there is none.
pub proof fn a_message_is_given_or_refused(
    r: Result<DapMessage, String>,
    view: Result<MessageView, Seq<char>>,
)
    requires
        is_message(r, view),
    ensures
        r is Ok <==> view is Ok,
        r matches Ok(message) ==> view->Ok_0 == message@,
        r matches Err(e) ==> view->Err_0 == e@,
{
}

} // verus!
