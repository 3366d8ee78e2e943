//! The event parser: one line of the agent subprocess's output becomes
//! one semantic event, or nothing.  Every line is either understood or
//! silently ignored; the outcome is a function of the characters alone.

use vstd::prelude::*;

use crate::json::{
    json_of, parse_json, parse_i64_text, parse_micros_text, spec_as_bool, spec_as_str, spec_get,
    spec_num_text, spec_parse_i64, spec_parse_micros, JsonValue,
};
use crate::text::{spec_truncate, str_eq, truncate_chars};

verus! {

/// A semantic event read off the agent's stream.  Costs are in
/// micro-dollars.
#[derive(Debug, Clone, PartialEq)]
pub enum ParsedEvent {
    /// The agent is making a tool call.
    ToolUse { tool_name: String, input_summary: String },
    /// A tool returned a result.
    ToolResult { tool_name: String, success: bool, summary: String },
    /// Text being streamed from the agent.
    TextDelta { text: String },
    /// A full text message completed.
    TextMessage { text: String },
    /// An incremental cost record.
    ApiRequest { model: String, cost_micros: u64, input_tokens: i64, output_tokens: i64 },
    /// An error occurred.
    Error { message: String },
    /// The session completed with a result.
    Result {
        session_id: String,
        result_text: String,
        cost_micros: u64,
        input_tokens: i64,
        output_tokens: i64,
    },
    /// A system message.
    System { message: String },
}

/// The mathematical shape of a parsed event.
pub enum ParsedEventView {
    ToolUse { tool_name: Seq<char>, input_summary: Seq<char> },
    ToolResult { tool_name: Seq<char>, success: bool, summary: Seq<char> },
    TextDelta { text: Seq<char> },
    TextMessage { text: Seq<char> },
    ApiRequest { model: Seq<char>, cost_micros: u64, input_tokens: i64, output_tokens: i64 },
    Error { message: Seq<char> },
    Result {
        session_id: Seq<char>,
        result_text: Seq<char>,
        cost_micros: u64,
        input_tokens: i64,
        output_tokens: i64,
    },
    System { message: Seq<char> },
}

impl View for ParsedEvent {
    type V = ParsedEventView;

    open spec fn view(&self) -> ParsedEventView {
        match self {
            ParsedEvent::ToolUse { tool_name, input_summary } => ParsedEventView::ToolUse {
                tool_name: tool_name@,
                input_summary: input_summary@,
            },
            ParsedEvent::ToolResult { tool_name, success, summary } => ParsedEventView::ToolResult {
                tool_name: tool_name@,
                success: *success,
                summary: summary@,
            },
            ParsedEvent::TextDelta { text } => ParsedEventView::TextDelta { text: text@ },
            ParsedEvent::TextMessage { text } => ParsedEventView::TextMessage { text: text@ },
            ParsedEvent::ApiRequest { model, cost_micros, input_tokens, output_tokens } => {
                ParsedEventView::ApiRequest {
                    model: model@,
                    cost_micros: *cost_micros,
                    input_tokens: *input_tokens,
                    output_tokens: *output_tokens,
                }
            },
            ParsedEvent::Error { message } => ParsedEventView::Error { message: message@ },
            ParsedEvent::Result {
                session_id,
                result_text,
                cost_micros,
                input_tokens,
                output_tokens,
            } => ParsedEventView::Result {
                session_id: session_id@,
                result_text: result_text@,
                cost_micros: *cost_micros,
                input_tokens: *input_tokens,
                output_tokens: *output_tokens,
            },
            ParsedEvent::System { message } => ParsedEventView::System { message: message@ },
        }
    }
}

// ── Field readers ──

/// The string member `key` of `v`, or `default`.
pub open spec fn spec_str_field_or(v: JsonValue, key: Seq<char>, default: Seq<char>) -> Seq<char> {
    match spec_get(v, key) {
        Some(x) => match spec_as_str(x) {
            Some(s) => s,
            None => default,
        },
        None => default,
    }
}

/// Read the string member `key` of `v`, falling back to `default`.
fn str_field_or<'a>(v: &'a JsonValue, key: &str, default: &'a str) -> (r: &'a str)
    ensures
        r@ == spec_str_field_or(*v, key@, default@),
{
    match v.get(key) {
        Some(x) => match x.as_str() {
            Some(s) => s,
            None => default,
        },
        None => default,
    }
}

/// The micro-dollar reading of a number member: a number's decimal text
/// read as millionths, zero for anything else.
pub open spec fn spec_micros_of(v: JsonValue) -> u64 {
    match spec_num_text(v) {
        Some(t) => match spec_parse_micros(t) {
            Some(m) => m,
            None => 0u64,
        },
        None => 0u64,
    }
}

/// Read a JSON value as a micro-dollar amount.
fn micros_of(v: &JsonValue) -> (r: u64)
    ensures
        r == spec_micros_of(*v),
{
    match v {
        JsonValue::Num(t) => match parse_micros_text(t.as_str()) {
            Some(m) => m,
            None => 0,
        },
        _ => 0,
    }
}

/// The signed-integer reading of a number member, zero for anything else.
pub open spec fn spec_i64_of(v: JsonValue) -> i64 {
    match spec_num_text(v) {
        Some(t) => match spec_parse_i64(t) {
            Some(n) => n,
            None => 0i64,
        },
        None => 0i64,
    }
}

/// Read a JSON value as a signed integer.
fn i64_of(v: &JsonValue) -> (r: i64)
    ensures
        r == spec_i64_of(*v),
{
    match v {
        JsonValue::Num(t) => match parse_i64_text(t.as_str()) {
            Some(n) => n,
            None => 0,
        },
        _ => 0,
    }
}

/// The integer member at `path[0]`/`path[1]`, zero when missing.
pub open spec fn spec_usage_tokens(v: JsonValue, key: Seq<char>) -> i64 {
    match spec_get(v, "usage"@) {
        Some(u) => match spec_get(u, key) {
            Some(t) => spec_i64_of(t),
            None => 0i64,
        },
        None => 0i64,
    }
}

/// Read `usage.<key>` as a token count.
fn usage_tokens(v: &JsonValue, key: &str) -> (r: i64)
    ensures
        r == spec_usage_tokens(*v, key@),
{
    match v.get("usage") {
        Some(u) => match u.get(key) {
            Some(t) => i64_of(t),
            None => 0,
        },
        None => 0,
    }
}

// ── Tool-input summaries ──

/// The human-readable summary of a tool's input.
pub open spec fn spec_summarize(tool: Seq<char>, input: JsonValue) -> Seq<char> {
    if tool == "Read"@ {
        "Reading "@ + spec_str_field_or(input, "file_path"@, "?"@)
    } else if tool == "Edit"@ {
        "Editing "@ + spec_str_field_or(input, "file_path"@, "?"@)
    } else if tool == "Write"@ {
        "Writing "@ + spec_str_field_or(input, "file_path"@, "?"@)
    } else if tool == "Bash"@ {
        "Running: "@ + spec_truncate(spec_str_field_or(input, "command"@, "?"@), 80)
    } else if tool == "Grep"@ {
        "Searching for '"@ + spec_str_field_or(input, "pattern"@, "?"@) + "'"@
    } else if tool == "Glob"@ {
        "Finding files matching '"@ + spec_str_field_or(input, "pattern"@, "?"@) + "'"@
    } else {
        "Using "@ + tool
    }
}

/// Summarise a tool call's input for the event log.
pub fn summarize_tool_input(tool_name: &str, input: &JsonValue) -> (r: String)
    ensures
        r@ == spec_summarize(tool_name@, *input),
{
    if str_eq(tool_name, "Read") {
        let mut out = String::from_str("Reading ");
        out.append(str_field_or(input, "file_path", "?"));
        out
    } else if str_eq(tool_name, "Edit") {
        let mut out = String::from_str("Editing ");
        out.append(str_field_or(input, "file_path", "?"));
        out
    } else if str_eq(tool_name, "Write") {
        let mut out = String::from_str("Writing ");
        out.append(str_field_or(input, "file_path", "?"));
        out
    } else if str_eq(tool_name, "Bash") {
        let mut out = String::from_str("Running: ");
        let cmd = truncate_chars(str_field_or(input, "command", "?"), 80);
        out.append(cmd.as_str());
        out
    } else if str_eq(tool_name, "Grep") {
        let mut out = String::from_str("Searching for '");
        out.append(str_field_or(input, "pattern", "?"));
        out.append("'");
        out
    } else if str_eq(tool_name, "Glob") {
        let mut out = String::from_str("Finding files matching '");
        out.append(str_field_or(input, "pattern", "?"));
        out.append("'");
        out
    } else {
        let mut out = String::from_str("Using ");
        out.append(tool_name);
        out
    }
}

// ── Assistant content blocks ──

/// The event a single assistant content block yields, if any.
pub open spec fn spec_block_event(b: JsonValue) -> Option<ParsedEventView> {
    match spec_get(b, "type"@) {
        Some(bt) => match spec_as_str(bt) {
            Some(t) => {
                if t == "tool_use"@ {
                    let name = spec_str_field_or(b, "name"@, "unknown"@);
                    let input = match spec_get(b, "input"@) {
                        Some(x) => x,
                        None => JsonValue::Null,
                    };
                    Some(ParsedEventView::ToolUse {
                        tool_name: name,
                        input_summary: spec_summarize(name, input),
                    })
                } else if t == "text"@ {
                    let text = spec_str_field_or(b, "text"@, ""@);
                    if text.len() > 0 {
                        Some(ParsedEventView::TextMessage { text })
                    } else {
                        None
                    }
                } else {
                    None
                }
            },
            None => None,
        },
        None => None,
    }
}

/// The event of the first content block that yields one.
pub open spec fn spec_scan_blocks(blocks: Seq<JsonValue>) -> Option<ParsedEventView>
    decreases blocks.len(),
{
    if blocks.len() == 0 {
        None
    } else {
        match spec_block_event(blocks[0]) {
            Some(e) => Some(e),
            None => spec_scan_blocks(blocks.drop_first()),
        }
    }
}

proof fn lemma_scan_found(blocks: Seq<JsonValue>, i: int)
    requires
        0 <= i < blocks.len(),
        spec_block_event(blocks[i]) is Some,
        forall|j: int| 0 <= j < i ==> spec_block_event(#[trigger] blocks[j]) is None,
    ensures
        spec_scan_blocks(blocks) == spec_block_event(blocks[i]),
    decreases i,
{
    if i > 0 {
        lemma_scan_found(blocks.drop_first(), i - 1);
    }
}

proof fn lemma_scan_missing(blocks: Seq<JsonValue>)
    requires
        forall|j: int| 0 <= j < blocks.len() ==> spec_block_event(#[trigger] blocks[j]) is None,
    ensures
        spec_scan_blocks(blocks) is None,
    decreases blocks.len(),
{
    if blocks.len() > 0 {
        lemma_scan_missing(blocks.drop_first());
    }
}

/// What an assistant record yields: the first tool call or non-empty
/// text among its content blocks.
pub open spec fn spec_assistant_event(v: JsonValue) -> Option<ParsedEventView> {
    match spec_get(v, "message"@) {
        Some(m) => match spec_get(m, "content"@) {
            Some(c) => match c {
                JsonValue::Arr(blocks) => spec_scan_blocks(blocks@),
                _ => None,
            },
            None => None,
        },
        None => None,
    }
}

/// Read one assistant content block.
fn block_event(b: &JsonValue) -> (r: Option<ParsedEvent>)
    ensures
        match r {
            Some(e) => spec_block_event(*b) == Some(e@),
            None => spec_block_event(*b) is None,
        },
{
    let bt = match b.get("type") {
        Some(x) => x,
        None => {
            return None;
        },
    };
    let t = match bt.as_str() {
        Some(t) => t,
        None => {
            return None;
        },
    };
    if str_eq(t, "tool_use") {
        let name = str_field_or(b, "name", "unknown");
        let tool_name = String::from_str(name);
        let input_summary = match b.get("input") {
            Some(x) => summarize_tool_input(name, x),
            None => summarize_tool_input(name, &JsonValue::Null),
        };
        Some(ParsedEvent::ToolUse { tool_name, input_summary })
    } else if str_eq(t, "text") {
        let text = str_field_or(b, "text", "");
        if text.unicode_len() > 0 {
            Some(ParsedEvent::TextMessage { text: String::from_str(text) })
        } else {
            None
        }
    } else {
        None
    }
}

// ── The parser ──

/// What one record yields, by its discriminator.
pub open spec fn spec_parse_event(v: JsonValue) -> Option<ParsedEventView> {
    match spec_get(v, "type"@) {
        Some(tv) => match spec_as_str(tv) {
            Some(t) => {
                if t == "assistant"@ {
                    spec_assistant_event(v)
                } else if t == "content_block_delta"@ {
                    spec_delta_event(v)
                } else if t == "result"@ {
                    Some(spec_result_event(v))
                } else if t == "tool_result"@ || t == "tool_output"@ {
                    Some(spec_tool_result_event(v))
                } else if t == "api_request"@ {
                    Some(spec_api_request_event(v))
                } else if t == "error"@ {
                    Some(spec_error_event(v))
                } else if t == "system"@ {
                    spec_system_event(v)
                } else {
                    None
                }
            },
            None => None,
        },
        None => None,
    }
}

/// A streaming text delta, when the record carries `delta.text`.
pub open spec fn spec_delta_event(v: JsonValue) -> Option<ParsedEventView> {
    match spec_get(v, "delta"@) {
        Some(d) => match spec_get(d, "text"@) {
            Some(tx) => match spec_as_str(tx) {
                Some(text) => Some(ParsedEventView::TextDelta { text }),
                None => None,
            },
            None => None,
        },
        None => None,
    }
}

/// The final result record: missing fields default to empty or zero.
pub open spec fn spec_result_event(v: JsonValue) -> ParsedEventView {
    ParsedEventView::Result {
        session_id: spec_str_field_or(v, "session_id"@, ""@),
        result_text: spec_str_field_or(v, "result"@, ""@),
        cost_micros: spec_cost_field(v),
        input_tokens: spec_usage_tokens(v, "input_tokens"@),
        output_tokens: spec_usage_tokens(v, "output_tokens"@),
    }
}

/// The cost of a result record: `cost_usd` when present, else
/// `total_cost_usd`, read as micro-dollars, zero when absent.
pub open spec fn spec_cost_field(v: JsonValue) -> u64 {
    match spec_get(v, "cost_usd"@) {
        Some(c) => spec_micros_of(c),
        None => match spec_get(v, "total_cost_usd"@) {
            Some(c) => spec_micros_of(c),
            None => 0u64,
        },
    }
}

/// A tool's result record: success is the absence of `is_error`, and the
/// output is cut to two hundred characters.
pub open spec fn spec_tool_result_event(v: JsonValue) -> ParsedEventView {
    let name = match spec_get(v, "tool_name"@) {
        Some(n) => match spec_as_str(n) {
            Some(s) => s,
            None => spec_name_fallback(v),
        },
        None => spec_name_fallback(v),
    };
    let is_error = match spec_get(v, "is_error"@) {
        Some(e) => match spec_as_bool(e) {
            Some(b) => b,
            None => false,
        },
        None => false,
    };
    let output = match spec_get(v, "output"@) {
        Some(o) => match spec_as_str(o) {
            Some(s) => s,
            None => spec_content_fallback(v),
        },
        None => spec_content_fallback(v),
    };
    ParsedEventView::ToolResult {
        tool_name: name,
        success: !is_error,
        summary: spec_truncate(output, 200),
    }
}

/// The `name` member, read when `tool_name` is absent or not a string.
pub open spec fn spec_name_fallback(v: JsonValue) -> Seq<char> {
    spec_str_field_or(v, "name"@, "unknown"@)
}

/// The `content` member, read when `output` is absent or not a string.
pub open spec fn spec_content_fallback(v: JsonValue) -> Seq<char> {
    spec_str_field_or(v, "content"@, ""@)
}

/// An incremental cost record.
pub open spec fn spec_api_request_event(v: JsonValue) -> ParsedEventView {
    ParsedEventView::ApiRequest {
        model: spec_str_field_or(v, "model"@, ""@),
        cost_micros: spec_cost_field(v),
        input_tokens: spec_usage_tokens(v, "input_tokens"@),
        output_tokens: spec_usage_tokens(v, "output_tokens"@),
    }
}

/// An error record: `error` first, then `message`, then a stock text.
pub open spec fn spec_error_event(v: JsonValue) -> ParsedEventView {
    let message = match spec_get(v, "error"@) {
        Some(e) => match spec_as_str(e) {
            Some(s) => s,
            None => spec_message_fallback(v),
        },
        None => spec_message_fallback(v),
    };
    ParsedEventView::Error { message }
}

/// The `message` member, read when `error` is absent or not a string.
pub open spec fn spec_message_fallback(v: JsonValue) -> Seq<char> {
    spec_str_field_or(v, "message"@, "Unknown error"@)
}

/// A system record, kept only when its message is non-empty.
pub open spec fn spec_system_event(v: JsonValue) -> Option<ParsedEventView> {
    let message = spec_str_field_or(v, "message"@, ""@);
    if message.len() > 0 {
        Some(ParsedEventView::System { message })
    } else {
        None
    }
}

/// What one line of stream output yields: nothing for text that is not
/// JSON or carries no recognised record, and one event otherwise.
pub open spec fn spec_parse_line(s: Seq<char>) -> Option<ParsedEventView> {
    match json_of(s) {
        Some(v) => spec_parse_event(v),
        None => None,
    }
}

/// Parse one line of the agent's stream output.  Every line yields an
/// event or nothing; no input is refused.
pub fn parse_stream_json_line(line: &str) -> (r: Option<ParsedEvent>)
    ensures
        match r {
            Some(e) => spec_parse_line(line@) == Some(e@),
            None => spec_parse_line(line@) is None,
        },
{
    let v = match parse_json(line) {
        Some(v) => v,
        None => {
            return None;
        },
    };
    let event = parse_event(&v);
    proof {
        assert(json_of(line@) == Some(v));
    }
    event
}

/// Parse one already-decoded record.
fn parse_event(v: &JsonValue) -> (r: Option<ParsedEvent>)
    ensures
        match r {
            Some(e) => spec_parse_event(*v) == Some(e@),
            None => spec_parse_event(*v) is None,
        },
{
    let tv = match v.get("type") {
        Some(x) => x,
        None => {
            return None;
        },
    };
    let t = match tv.as_str() {
        Some(t) => t,
        None => {
            return None;
        },
    };
    if str_eq(t, "assistant") {
        assistant_event(v)
    } else if str_eq(t, "content_block_delta") {
        match v.get("delta") {
            Some(d) => match d.get("text") {
                Some(tx) => match tx.as_str() {
                    Some(text) => Some(
                        ParsedEvent::TextDelta { text: String::from_str(text) },
                    ),
                    None => None,
                },
                None => None,
            },
            None => None,
        }
    } else if str_eq(t, "result") {
        Some(ParsedEvent::Result {
            session_id: String::from_str(str_field_or(v, "session_id", "")),
            result_text: String::from_str(str_field_or(v, "result", "")),
            cost_micros: cost_field(v),
            input_tokens: usage_tokens(v, "input_tokens"),
            output_tokens: usage_tokens(v, "output_tokens"),
        })
    } else if str_eq(t, "tool_result") || str_eq(t, "tool_output") {
        Some(tool_result_event(v))
    } else if str_eq(t, "api_request") {
        Some(ParsedEvent::ApiRequest {
            model: String::from_str(str_field_or(v, "model", "")),
            cost_micros: cost_field(v),
            input_tokens: usage_tokens(v, "input_tokens"),
            output_tokens: usage_tokens(v, "output_tokens"),
        })
    } else if str_eq(t, "error") {
        let message = match v.get("error") {
            Some(e) => match e.as_str() {
                Some(s) => String::from_str(s),
                None => String::from_str(str_field_or(v, "message", "Unknown error")),
            },
            None => String::from_str(str_field_or(v, "message", "Unknown error")),
        };
        Some(ParsedEvent::Error { message })
    } else if str_eq(t, "system") {
        let message = str_field_or(v, "message", "");
        if message.unicode_len() > 0 {
            Some(ParsedEvent::System { message: String::from_str(message) })
        } else {
            None
        }
    } else {
        None
    }
}

/// Read the cost member of a record.
fn cost_field(v: &JsonValue) -> (r: u64)
    ensures
        r == spec_cost_field(*v),
{
    match v.get("cost_usd") {
        Some(c) => micros_of(c),
        None => match v.get("total_cost_usd") {
            Some(c) => micros_of(c),
            None => 0,
        },
    }
}

/// Read an assistant record's content blocks.
fn assistant_event(v: &JsonValue) -> (r: Option<ParsedEvent>)
    ensures
        match r {
            Some(e) => spec_assistant_event(*v) == Some(e@),
            None => spec_assistant_event(*v) is None,
        },
{
    let m = match v.get("message") {
        Some(m) => m,
        None => {
            return None;
        },
    };
    let c = match m.get("content") {
        Some(c) => c,
        None => {
            return None;
        },
    };
    let blocks = match c.as_array() {
        Some(a) => a,
        None => {
            return None;
        },
    };
    let mut i: usize = 0;
    while i < blocks.len()
        invariant
            i <= blocks@.len(),
            spec_assistant_event(*v) == spec_scan_blocks(blocks@),
            forall|j: int| 0 <= j < i ==> spec_block_event(#[trigger] blocks@[j]) is None,
        decreases blocks@.len() - i,
    {
        if let Some(e) = block_event(&blocks[i]) {
            proof {
                lemma_scan_found(blocks@, i as int);
            }
            return Some(e);
        }
        i = i + 1;
    }
    proof {
        lemma_scan_missing(blocks@);
    }
    None
}

/// Read a tool result record.
fn tool_result_event(v: &JsonValue) -> (r: ParsedEvent)
    ensures
        r@ == spec_tool_result_event(*v),
{
    let name = match v.get("tool_name") {
        Some(n) => match n.as_str() {
            Some(s) => s,
            None => str_field_or(v, "name", "unknown"),
        },
        None => str_field_or(v, "name", "unknown"),
    };
    let is_error = match v.get("is_error") {
        Some(e) => match e.as_bool() {
            Some(b) => b,
            None => false,
        },
        None => false,
    };
    let output = match v.get("output") {
        Some(o) => match o.as_str() {
            Some(s) => s,
            None => str_field_or(v, "content", ""),
        },
        None => str_field_or(v, "content", ""),
    };
    ParsedEvent::ToolResult {
        tool_name: String::from_str(name),
        success: !is_error,
        summary: truncate_chars(output, 200),
    }
}


// ── Stored event records ──

/// The stored form of a parsed event: its event type, optional tool
/// name, log summary, and cost delta.
pub open spec fn spec_event_type(e: ParsedEventView) -> Seq<char> {
    match e {
        ParsedEventView::ToolUse { .. } => "tool_call"@,
        ParsedEventView::ToolResult { .. } => "tool_result"@,
        ParsedEventView::TextDelta { .. } => "text_output"@,
        ParsedEventView::TextMessage { .. } => "text_output"@,
        ParsedEventView::ApiRequest { .. } => "cost_update"@,
        ParsedEventView::Error { .. } => "error"@,
        ParsedEventView::Result { .. } => "result"@,
        ParsedEventView::System { .. } => "system"@,
    }
}

/// The tool a stored event names, if any.
pub open spec fn spec_event_tool(e: ParsedEventView) -> Option<Seq<char>> {
    match e {
        ParsedEventView::ToolUse { tool_name, .. } => Some(tool_name),
        ParsedEventView::ToolResult { tool_name, .. } => Some(tool_name),
        _ => None,
    }
}

/// The human-readable summary a stored event carries: tool summaries as
/// parsed, tool results behind an OK or ERROR tag, text cut to its
/// limit, and cost and result lines with their figures.
pub open spec fn spec_event_summary(e: ParsedEventView) -> Seq<char> {
    match e {
        ParsedEventView::ToolUse { input_summary, .. } => input_summary,
        ParsedEventView::ToolResult { success, summary, .. } => (if success {
            "[OK] "@
        } else {
            "[ERROR] "@
        }) + summary,
        ParsedEventView::TextDelta { text } => spec_truncate(text, 100),
        ParsedEventView::TextMessage { text } => spec_truncate(text, 200),
        ParsedEventView::ApiRequest { model, cost_micros, input_tokens, output_tokens } => {
            "API call: "@ + model + " (in="@ + crate::text::spec_i64_str(input_tokens as int)
                + ", out="@ + crate::text::spec_i64_str(output_tokens as int) + ", "@
                + crate::text::spec_usd4(cost_micros as nat) + ")"@
        },
        ParsedEventView::Error { message } => message,
        ParsedEventView::Result { result_text, input_tokens, output_tokens, .. } => {
            "Completed: "@ + spec_truncate(result_text, 200) + " (in="@
                + crate::text::spec_i64_str(input_tokens as int) + ", out="@
                + crate::text::spec_i64_str(output_tokens as int) + ")"@
        },
        ParsedEventView::System { message } => message,
    }
}

/// The cost delta a stored event carries, if any.
pub open spec fn spec_event_cost(e: ParsedEventView) -> Option<u64> {
    match e {
        ParsedEventView::ApiRequest { cost_micros, .. } => Some(cost_micros),
        ParsedEventView::Result { cost_micros, .. } => Some(cost_micros),
        _ => None,
    }
}

/// Turn a parsed event into the fields of its stored record: event type,
/// tool name, summary, and cost delta.
pub fn event_record(e: &ParsedEvent) -> (r: (String, Option<String>, String, Option<u64>))
    ensures
        r.0@ == spec_event_type(e@),
        match r.1 {
            Some(t) => spec_event_tool(e@) == Some(t@),
            None => spec_event_tool(e@) is None,
        },
        r.2@ == spec_event_summary(e@),
        r.3 == spec_event_cost(e@),
{
    match e {
        ParsedEvent::ToolUse { tool_name, input_summary } => (
            String::from_str("tool_call"),
            Some(tool_name.clone()),
            input_summary.clone(),
            None,
        ),
        ParsedEvent::ToolResult { tool_name, success, summary } => {
            let mut s = if *success {
                String::from_str("[OK] ")
            } else {
                String::from_str("[ERROR] ")
            };
            s.append(summary.as_str());
            (String::from_str("tool_result"), Some(tool_name.clone()), s, None)
        },
        ParsedEvent::TextDelta { text } => (
            String::from_str("text_output"),
            None,
            truncate_chars(text.as_str(), 100),
            None,
        ),
        ParsedEvent::TextMessage { text } => (
            String::from_str("text_output"),
            None,
            truncate_chars(text.as_str(), 200),
            None,
        ),
        ParsedEvent::ApiRequest { model, cost_micros, input_tokens, output_tokens } => {
            let mut s = String::from_str("API call: ");
            s.append(model.as_str());
            s.append(" (in=");
            let it = crate::text::i64_to_string(*input_tokens);
            s.append(it.as_str());
            s.append(", out=");
            let ot = crate::text::i64_to_string(*output_tokens);
            s.append(ot.as_str());
            s.append(", ");
            let c = crate::text::format_usd4(*cost_micros);
            s.append(c.as_str());
            s.append(")");
            (String::from_str("cost_update"), None, s, Some(*cost_micros))
        },
        ParsedEvent::Error { message } => (
            String::from_str("error"),
            None,
            message.clone(),
            None,
        ),
        ParsedEvent::Result { result_text, cost_micros, input_tokens, output_tokens, .. } => {
            let mut s = String::from_str("Completed: ");
            let t = truncate_chars(result_text.as_str(), 200);
            s.append(t.as_str());
            s.append(" (in=");
            let it = crate::text::i64_to_string(*input_tokens);
            s.append(it.as_str());
            s.append(", out=");
            let ot = crate::text::i64_to_string(*output_tokens);
            s.append(ot.as_str());
            s.append(")");
            (String::from_str("result"), None, s, Some(*cost_micros))
        },
        ParsedEvent::System { message } => (
            String::from_str("system"),
            None,
            message.clone(),
            None,
        ),
    }
}

} // verus!
