//! The events an Oh My Pi turn prints, one JSON object per line, and what
//! each does: streamed text and thinking go into the part open for their
//! kind, a finished tool call opens a running tool part that its execution
//! result closes, an error becomes an error row, and the session and usage
//! events report the native session id and the size of the context.

use vstd::prelude::*;

use crate::json::{as_bool, as_str, get, member, string_value, take, JsonValue};
use crate::oh_my_pi::{part_id, tool_outcome, tool_output_spec, StreamParts, ToolOutcome};
use crate::stream::{
    delta_streamed, is_error_row, push_error, retry_row_id, stream_delta, upsert_part,
};
use crate::text::{owned, str_eq, u64_number, u64_number_spec, views};
use crate::transcript::{
    carry_blocked, find_part_index, first_with_id, is_carry_key, lemma_first_with_id_bound,
    upsert_blocked, upserted, WirePart, WireToolState,
};
use crate::turns::without_id;

verus! {

/// The string member `key` of a value, or `default`.
pub open spec fn str_or(v: JsonValue, key: Seq<char>, default: Seq<char>) -> Seq<char> {
    match string_value(member(v, key)) {
        Some(s) => s,
        None => default,
    }
}

/// The string member `key` of a value, or `default`.
fn str_member_or<'a>(v: &'a JsonValue, key: &str, default: &'a str) -> (r: &'a str)
    ensures
        r@ == str_or(*v, key@, default@),
{
    match get(v, key) {
        Some(x) => match as_str(x) {
            Some(s) => s,
            None => default,
        },
        None => default,
    }
}

/// What one event asks of the turn.
pub enum OmpAction {
    /// Nothing beyond the stream's own bookkeeping.
    Nothing,
    /// The event is dropped, and the turn does not flush after it.
    Skip,
    /// The native session id, to resume the next turn with.
    Session(String),
    /// The tokens the turn's context holds.
    Usage(u64),
    /// Streamed text for the part `id`, opened as a part of `kind`.
    Delta { id: String, kind: String, delta: String },
    /// A tool call the model made: its running tool part.
    StartTool(WirePart),
    /// A tool call that finished: how it ended.
    FinishTool { id: String, outcome: ToolOutcome },
    /// An error the harness reported.
    Error(String),
}

/// The id of the text part deltas go to.
pub open spec fn text_id(s: StreamParts) -> Seq<char> {
    match s.open_text {
        Some(id) => id@,
        None => part_id("text"@, (s.counter + 1) as nat),
    }
}

/// The id of the thinking part deltas go to.
pub open spec fn think_id(s: StreamParts) -> Seq<char> {
    match s.open_reasoning {
        Some(id) => id@,
        None => part_id("think"@, (s.counter + 1) as nat),
    }
}

/// The id of the tool part a call opens: its native id, or a fresh one.
pub open spec fn tool_id(s: StreamParts, call: JsonValue) -> Seq<char> {
    match string_value(member(call, "id"@)) {
        Some(id) => id,
        None => part_id("tool"@, (s.counter + 1) as nat),
    }
}

/// `p` is the running tool part of a call to `name` with the call's
/// arguments as input (an empty object when there are none).
pub open spec fn running_tool(p: WirePart, id: Seq<char>, name: Seq<char>, arguments: Option<JsonValue>) -> bool {
    &&& p.id@ == id
    &&& p.kind@ == "tool"@
    &&& p.text is None
    &&& p.tool matches Some(t) && t@ == name
    &&& p.prompt is None
    &&& p.children@.len() == 0
    &&& p.state is Some
    &&& p.state.unwrap().status@ == "running"@
    &&& p.state.unwrap().output is None
    &&& p.state.unwrap().error is None
    &&& p.state.unwrap().title is None
    &&& match arguments {
        Some(a) => if a is Null {
            p.state.unwrap().input matches Some(JsonValue::Object(es)) && es@.len() == 0
        } else {
            p.state.unwrap().input == Some(a)
        },
        None => p.state.unwrap().input matches Some(JsonValue::Object(es)) && es@.len() == 0,
    }
}

/// The texts of a tool result's content items, in order.
pub open spec fn content_texts(items: Seq<JsonValue>) -> Seq<Seq<char>>
    decreases items.len(),
{
    if items.len() == 0 {
        Seq::empty()
    } else {
        content_texts(items.drop_last()) + match string_value(member(items.last(), "text"@)) {
            Some(t) => seq![t],
            None => Seq::empty(),
        }
    }
}

/// The texts of an execution result: those of its `result.content` array.
pub open spec fn result_texts(e: JsonValue) -> Seq<Seq<char>> {
    match member(e, "result"@) {
        Some(r) => match member(r, "content"@) {
            Some(JsonValue::Array(items)) => content_texts(items@),
            _ => Seq::empty(),
        },
        None => Seq::empty(),
    }
}

/// Whether an execution result reports an error.
pub open spec fn reports_error(e: JsonValue) -> bool {
    member(e, "isError"@) == Some(JsonValue::Bool(true))
}

/// `o` is the outcome of a finished call.
pub open spec fn outcome_of(o: ToolOutcome, is_error: bool, texts: Seq<Seq<char>>) -> bool {
    &&& o.status@ == (if is_error {
        "error"@
    } else {
        "completed"@
    })
    &&& o.output@ == tool_output_spec(texts)
    &&& if is_error {
        o.error matches Some(m) && m@ == "tool reported an error"@
    } else {
        o.error is None
    }
}

/// The context size an assistant `message_start` reports.
pub open spec fn usage_of(e: JsonValue) -> Option<int> {
    match member(e, "message"@) {
        Some(m) => if string_value(member(m, "role"@)) == Some("assistant"@) {
            match member(m, "usage"@) {
                Some(u) => match member(u, "totalTokens"@) {
                    Some(JsonValue::Number(t)) => u64_number_spec(t@),
                    _ => None,
                },
                None => None,
            }
        } else {
            None
        },
        None => None,
    }
}

/// What a `message_update` with assistant event `ev` asks, with the stream
/// in state `s`.
pub open spec fn update_decided(s: StreamParts, ev: JsonValue, r: OmpAction) -> bool {
    let t = str_or(ev, "type"@, ""@);
    if t == "text_delta"@ {
        r matches OmpAction::Delta { id, kind, delta } && id@ == text_id(s) && kind@ == "text"@
            && delta@ == str_or(ev, "delta"@, ""@)
    } else if t == "thinking_delta"@ {
        r matches OmpAction::Delta { id, kind, delta } && id@ == think_id(s) && kind@ == "reasoning"@
            && delta@ == str_or(ev, "delta"@, ""@)
    } else if t == "toolcall_end"@ {
        match member(ev, "toolCall"@) {
            Some(c) => r matches OmpAction::StartTool(p) && running_tool(
                p,
                tool_id(s, c),
                str_or(c, "name"@, "tool"@),
                member(c, "arguments"@),
            ),
            None => r is Nothing,
        }
    } else {
        r is Nothing
    }
}

/// What event `e` asks of the turn, with the stream in state `s`.
pub open spec fn decided(s: StreamParts, e: JsonValue, r: OmpAction) -> bool {
    let kind = str_or(e, "type"@, ""@);
    if kind == "session"@ {
        match string_value(member(e, "id"@)) {
            Some(id) => r matches OmpAction::Session(x) && x@ == id,
            None => r is Nothing,
        }
    } else if kind == "message_start"@ {
        match usage_of(e) {
            Some(n) => r == OmpAction::Usage(n as u64),
            None => r is Nothing,
        }
    } else if kind == "message_update"@ {
        match member(e, "assistantMessageEvent"@) {
            Some(ev) => update_decided(s, ev, r),
            None => r is Skip,
        }
    } else if kind == "tool_execution_end"@ {
        match string_value(member(e, "toolCallId"@)) {
            Some(id) => r matches OmpAction::FinishTool { id: x, outcome } && x@ == id && outcome_of(
                outcome,
                reports_error(e),
                result_texts(e),
            ),
            None => r is Nothing,
        }
    } else if kind == "error"@ {
        r matches OmpAction::Error(m) && m@ == str_or(e, "message"@, "omp reported an error"@)
    } else {
        r is Nothing
    }
}

/// `n` is the stream `s` with its text part opened.
pub open spec fn text_opened(s: StreamParts, n: StreamParts) -> bool {
    &&& n.open_reasoning == s.open_reasoning
    &&& match s.open_text {
        Some(_) => n == s,
        None => (n.open_text matches Some(id) && id@ == text_id(s)) && n.counter == s.counter + 1,
    }
}

/// `n` is the stream `s` with its thinking part opened.
pub open spec fn think_opened(s: StreamParts, n: StreamParts) -> bool {
    &&& n.open_text == s.open_text
    &&& match s.open_reasoning {
        Some(_) => n == s,
        None => (n.open_reasoning matches Some(id) && id@ == think_id(s)) && n.counter == s.counter + 1,
    }
}

/// How an assistant event `ev` moves the stream from `s` to `n`: a start or
/// delta opens the part of its kind, an end closes it, and a tool call
/// without a native id uses up a number.
pub open spec fn update_moved(s: StreamParts, ev: JsonValue, n: StreamParts) -> bool {
    let t = str_or(ev, "type"@, ""@);
    if t == "text_start"@ || t == "text_delta"@ {
        text_opened(s, n)
    } else if t == "thinking_start"@ || t == "thinking_delta"@ {
        think_opened(s, n)
    } else if t == "text_end"@ {
        n.open_text is None && n.open_reasoning == s.open_reasoning && n.counter == s.counter
    } else if t == "thinking_end"@ {
        n.open_reasoning is None && n.open_text == s.open_text && n.counter == s.counter
    } else if t == "toolcall_end"@ {
        match member(ev, "toolCall"@) {
            Some(c) => if string_value(member(c, "id"@)) is None {
                n.counter == s.counter + 1 && n.open_text == s.open_text && n.open_reasoning
                    == s.open_reasoning
            } else {
                n == s
            },
            None => n == s,
        }
    } else {
        n == s
    }
}

/// How event `e` moves the stream from `s` to `n`: only assistant events do.
pub open spec fn moved(s: StreamParts, e: JsonValue, n: StreamParts) -> bool {
    if str_or(e, "type"@, ""@) == "message_update"@ {
        match member(e, "assistantMessageEvent"@) {
            Some(ev) => update_moved(s, ev, n),
            None => n == s,
        }
    } else {
        n == s
    }
}

/// The event types are distinct names.
proof fn lemma_event_types_distinct()
    ensures
        "session"@ != "message_start"@,
        "session"@ != "message_update"@,
        "session"@ != "tool_execution_end"@,
        "session"@ != "error"@,
        "message_start"@ != "message_update"@,
        "message_start"@ != "tool_execution_end"@,
        "message_start"@ != "error"@,
        "message_update"@ != "tool_execution_end"@,
        "message_update"@ != "error"@,
        "tool_execution_end"@ != "error"@,
{
    reveal_strlit("session");
    reveal_strlit("message_start");
    reveal_strlit("message_update");
    reveal_strlit("tool_execution_end");
    reveal_strlit("error");
    assert("session"@.len() == 7);
    assert("message_start"@.len() == 13);
    assert("message_update"@.len() == 14);
    assert("tool_execution_end"@.len() == 18);
    assert("error"@.len() == 5);
}

/// The assistant event types are distinct names.
proof fn lemma_update_types_distinct()
    ensures
        "text_start"@ != "text_delta"@,
        "text_start"@ != "text_end"@,
        "text_start"@ != "thinking_start"@,
        "text_start"@ != "thinking_delta"@,
        "text_start"@ != "thinking_end"@,
        "text_start"@ != "toolcall_end"@,
        "text_delta"@ != "text_end"@,
        "text_delta"@ != "thinking_start"@,
        "text_delta"@ != "thinking_delta"@,
        "text_delta"@ != "thinking_end"@,
        "text_delta"@ != "toolcall_end"@,
        "text_end"@ != "thinking_start"@,
        "text_end"@ != "thinking_delta"@,
        "text_end"@ != "thinking_end"@,
        "text_end"@ != "toolcall_end"@,
        "thinking_start"@ != "thinking_delta"@,
        "thinking_start"@ != "thinking_end"@,
        "thinking_start"@ != "toolcall_end"@,
        "thinking_delta"@ != "thinking_end"@,
        "thinking_delta"@ != "toolcall_end"@,
        "thinking_end"@ != "toolcall_end"@,
{
    reveal_strlit("text_start");
    reveal_strlit("text_delta");
    reveal_strlit("text_end");
    reveal_strlit("thinking_start");
    reveal_strlit("thinking_delta");
    reveal_strlit("thinking_end");
    reveal_strlit("toolcall_end");
    assert("text_start"@.len() == 10);
    assert("text_delta"@.len() == 10);
    assert("text_end"@.len() == 8);
    assert("thinking_start"@.len() == 14);
    assert("thinking_delta"@.len() == 14);
    assert("thinking_end"@.len() == 12);
    assert("toolcall_end"@.len() == 12);
    assert("text_start"@[5] != "text_delta"@[5]);
    assert("thinking_start"@[9] != "thinking_delta"@[9]);
    assert("thinking_end"@[1] != "toolcall_end"@[1]);
}

/// The texts of content items.
fn texts_of(items: &Vec<JsonValue>) -> (r: Vec<String>)
    ensures
        views(r@) == content_texts(items@),
{
    let mut out: Vec<String> = Vec::new();
    let mut i: usize = 0;
    while i < items.len()
        invariant
            i <= items@.len(),
            views(out@) == content_texts(items@.take(i as int)),
        decreases items@.len() - i,
    {
        let ghost t = items@.take(i + 1);
        assert(t.drop_last() =~= items@.take(i as int));
        assert(t.last() == items@[i as int]);
        let ghost prev = views(out@);
        match get(&items[i], "text") {
            Some(x) => match as_str(x) {
                Some(s) => {
                    out.push(owned(s));
                    assert(views(out@) =~= prev + seq![s@]);
                },
                None => {
                    assert(prev + Seq::<Seq<char>>::empty() =~= prev);
                },
            },
            None => {
                assert(prev + Seq::<Seq<char>>::empty() =~= prev);
            },
        }
        i = i + 1;
    }
    assert(items@.take(items@.len() as int) =~= items@);
    out
}

/// The texts of an execution result.
fn result_texts_of(e: &JsonValue) -> (r: Vec<String>)
    ensures
        views(r@) == result_texts(*e),
{
    match get(e, "result") {
        Some(res) => match get(res, "content") {
            Some(JsonValue::Array(items)) => texts_of(items),
            _ => Vec::new(),
        },
        None => Vec::new(),
    }
}

/// The context size a `message_start` reports.
fn usage_from(e: &JsonValue) -> (r: Option<u64>)
    ensures
        match r {
            Some(n) => usage_of(*e) == Some(n as int),
            None => usage_of(*e) is None,
        },
{
    let m = match get(e, "message") {
        Some(m) => m,
        None => {
            return None;
        },
    };
    let role = match get(m, "role") {
        Some(x) => as_str(x),
        None => None,
    };
    let assistant = match role {
        Some(r) => str_eq(r, "assistant"),
        None => false,
    };
    if !assistant {
        return None;
    }
    match get(m, "usage") {
        Some(u) => match get(u, "totalTokens") {
            Some(JsonValue::Number(t)) => u64_number(t.as_str()),
            _ => None,
        },
        None => None,
    }
}

/// The member `key` of a value, taken out of it.
fn take_member(v: JsonValue, key: &str) -> (r: Option<JsonValue>)
    ensures
        r == member(v, key@),
{
    match v {
        JsonValue::Object(entries) => {
            let mut entries = entries;
            take(&mut entries, key)
        },
        _ => None,
    }
}

/// The string member `key` of a value, copied.
fn string_member(v: &JsonValue, key: &str) -> (r: Option<String>)
    ensures
        match r {
            Some(s) => string_value(member(*v, key@)) == Some(s@),
            None => string_value(member(*v, key@)) is None,
        },
{
    match get(v, key) {
        Some(x) => match as_str(x) {
            Some(s) => Some(owned(s)),
            None => None,
        },
        None => None,
    }
}

/// The running tool part of a call.
fn start_tool(stream: &mut StreamParts, call: JsonValue) -> (r: WirePart)
    requires
        old(stream).counter < u64::MAX,
    ensures
        running_tool(
            r,
            tool_id(*old(stream), call),
            str_or(call, "name"@, "tool"@),
            member(call, "arguments"@),
        ),
        match string_value(member(call, "id"@)) {
            Some(_) => *final(stream) == *old(stream),
            None => final(stream).counter == old(stream).counter + 1 && final(stream).open_text
                == old(stream).open_text && final(stream).open_reasoning == old(stream).open_reasoning,
        },
{
    let native = string_member(&call, "id");
    let name = owned(str_member_or(&call, "name", "tool"));
    let id = match &native {
        Some(n) => stream.tool_part_id(Some(n.as_str())),
        None => stream.tool_part_id(None),
    };
    let input = match take_member(call, "arguments") {
        Some(a) => match a {
            JsonValue::Null => JsonValue::Object(Vec::new()),
            _ => a,
        },
        None => JsonValue::Object(Vec::new()),
    };
    WirePart {
        id,
        kind: owned("tool"),
        text: None,
        tool: Some(name),
        state: Some(
            WireToolState {
                status: owned("running"),
                input: Some(input),
                output: None,
                error: None,
                title: None,
            },
        ),
        prompt: None,
        children: Vec::new(),
    }
}

/// What an assistant event asks, moving the stream.
fn decide_update(stream: &mut StreamParts, ev: JsonValue) -> (r: OmpAction)
    requires
        old(stream).counter < u64::MAX,
    ensures
        update_decided(*old(stream), ev, r),
        update_moved(*old(stream), ev, *final(stream)),
{
    proof {
        lemma_update_types_distinct();
    }
    let t = str_member_or(&ev, "type", "");
    if str_eq(t, "text_start") {
        stream.text_part();
        OmpAction::Nothing
    } else if str_eq(t, "text_delta") {
        let id = stream.text_part();
        let delta = owned(str_member_or(&ev, "delta", ""));
        OmpAction::Delta { id, kind: owned("text"), delta }
    } else if str_eq(t, "text_end") {
        stream.end_text();
        OmpAction::Nothing
    } else if str_eq(t, "thinking_start") {
        stream.reasoning_part();
        OmpAction::Nothing
    } else if str_eq(t, "thinking_delta") {
        let id = stream.reasoning_part();
        let delta = owned(str_member_or(&ev, "delta", ""));
        OmpAction::Delta { id, kind: owned("reasoning"), delta }
    } else if str_eq(t, "thinking_end") {
        stream.end_reasoning();
        OmpAction::Nothing
    } else if str_eq(t, "toolcall_end") {
        match take_member(ev, "toolCall") {
            Some(call) => OmpAction::StartTool(start_tool(stream, call)),
            None => OmpAction::Nothing,
        }
    } else {
        OmpAction::Nothing
    }
}

/// What one event of an Oh My Pi turn asks of the turn (see [`decided`]),
/// moving the stream's open parts (see [`moved`]).
pub fn decide_omp_event(stream: &mut StreamParts, event: JsonValue) -> (r: OmpAction)
    requires
        old(stream).counter < u64::MAX,
    ensures
        decided(*old(stream), event, r),
        moved(*old(stream), event, *final(stream)),
{
    proof {
        lemma_event_types_distinct();
    }
    let kind = owned(str_member_or(&event, "type", ""));
    if str_eq(kind.as_str(), "session") {
        match string_member(&event, "id") {
            Some(id) => OmpAction::Session(id),
            None => OmpAction::Nothing,
        }
    } else if str_eq(kind.as_str(), "message_start") {
        match usage_from(&event) {
            Some(n) => OmpAction::Usage(n),
            None => OmpAction::Nothing,
        }
    } else if str_eq(kind.as_str(), "message_update") {
        match take_member(event, "assistantMessageEvent") {
            Some(ev) => decide_update(stream, ev),
            None => OmpAction::Skip,
        }
    } else if str_eq(kind.as_str(), "tool_execution_end") {
        match string_member(&event, "toolCallId") {
            Some(id) => {
                let is_error = match get(&event, "isError") {
                    Some(x) => match as_bool(x) {
                        Some(b) => b,
                        None => false,
                    },
                    None => false,
                };
                let texts = result_texts_of(&event);
                OmpAction::FinishTool { id, outcome: tool_outcome(is_error, &texts) }
            },
            None => OmpAction::Nothing,
        }
    } else if str_eq(kind.as_str(), "error") {
        OmpAction::Error(owned(str_member_or(&event, "message", "omp reported an error")))
    } else {
        OmpAction::Nothing
    }
}


// ---------------------------------------------------------------------------
// Applying an action to the message
// ---------------------------------------------------------------------------

/// The stream's open parts never carry the retry row's id.
pub open spec fn stream_ok(s: StreamParts) -> bool {
    &&& (s.open_text matches Some(id) ==> id@ != retry_row_id())
    &&& (s.open_reasoning matches Some(id) ==> id@ != retry_row_id())
}

/// A numbered text or thinking id is not the retry row's id.
proof fn lemma_numbered_ids(n: nat)
    ensures
        part_id("text"@, n) != retry_row_id(),
        part_id("think"@, n) != retry_row_id(),
{
    reveal_strlit("text");
    reveal_strlit("think");
    reveal_strlit("-");
    reveal_strlit("turn-retry");
    assert(part_id("text"@, n)[1] == 'e');
    assert(part_id("think"@, n)[1] == 'h');
    assert(retry_row_id()[1] == 'u');
}

/// A fresh stream has nothing open.
pub fn new_stream() -> (r: StreamParts)
    ensures
        stream_ok(r),
        r.counter == 0,
        r.open_text is None && r.open_reasoning is None,
{
    StreamParts::new()
}

/// A well-kept stream stays well kept, and the deltas it decides on never
/// address the retry row.
pub proof fn lemma_decided_ids(s: StreamParts, e: JsonValue, r: OmpAction, n: StreamParts)
    requires
        stream_ok(s),
        decided(s, e, r),
        moved(s, e, n),
    ensures
        stream_ok(n),
        r matches OmpAction::Delta { id, .. } ==> id@ != retry_row_id(),
{
    lemma_numbered_ids((s.counter + 1) as nat);
}

/// `n` is the part `o` closed with the outcome of its tool call; a part
/// without a tool state is left as it is.
pub open spec fn tool_finished(o: WirePart, n: WirePart, outcome: ToolOutcome) -> bool {
    &&& n.id == o.id
    &&& n.kind == o.kind
    &&& n.text == o.text
    &&& n.tool == o.tool
    &&& n.prompt == o.prompt
    &&& n.children == o.children
    &&& match o.state {
        None => n.state is None,
        Some(os) => n.state matches Some(ns) && (ns.status == outcome.status && ns.output == Some(
            outcome.output,
        ) && ns.error == outcome.error && ns.input == os.input && ns.title == os.title),
    }
}

/// `n` is the message `o` after the action: a delta streams into its part
/// (see [`delta_streamed`]), a tool call's part is upserted and its result
/// closes the top-level part of that id, an error is appended as a row;
/// the retry row is dropped by deltas and tool calls. Other actions leave
/// the message as it is.
pub open spec fn omp_applied(o: Seq<WirePart>, a: OmpAction, n: Seq<WirePart>) -> bool {
    match a {
        OmpAction::Delta { id, kind, delta } => delta_streamed(o, id@, kind@, delta@, n),
        OmpAction::StartTool(p) => upserted(without_id(o, retry_row_id()), p, n),
        OmpAction::FinishTool { id, outcome } => match first_with_id(o, id@) {
            None => n == o,
            Some(i) => {
                &&& n.len() == o.len()
                &&& forall|j: int| 0 <= j < o.len() && j != i ==> n[j] == o[j]
                &&& tool_finished(o[i], n[i], outcome)
            },
        },
        OmpAction::Error(m) => {
            &&& n.len() == o.len() + 1
            &&& n.drop_last() == o
            &&& is_error_row(n.last(), o.len(), m@)
        },
        _ => n == o,
    }
}

/// The action can be applied: a delta never addresses the retry row, and a
/// tool call's part can be rebuilt over the part it replaces.
pub open spec fn omp_action_ok(o: Seq<WirePart>, a: OmpAction) -> bool {
    match a {
        OmpAction::Delta { id, .. } => id@ != retry_row_id(),
        OmpAction::StartTool(p) => !upsert_blocked(without_id(o, retry_row_id()), p),
        _ => true,
    }
}

/// Closes the tool part at `i` with the outcome of its call.
fn finish_at(parts: &mut Vec<WirePart>, i: usize, outcome: ToolOutcome)
    requires
        i < old(parts)@.len(),
    ensures
        final(parts)@.len() == old(parts)@.len(),
        forall|j: int| 0 <= j < old(parts)@.len() && j != i ==> final(parts)@[j] == old(parts)@[j],
        tool_finished(old(parts)@[i as int], final(parts)@[i as int], outcome),
{
    let ghost before = parts@;
    let p = parts.remove(i);
    let WirePart { id, kind, text, tool, state, prompt, children } = p;
    let state = match state {
        Some(s) => {
            let WireToolState { status: _, input, output: _, error: _, title } = s;
            let ToolOutcome { status, output, error } = outcome;
            Some(WireToolState { status, input, output: Some(output), error, title })
        },
        None => None,
    };
    parts.insert(i, WirePart { id, kind, text, tool, state, prompt, children });
    assert forall|j: int| 0 <= j < before.len() && j != i implies parts@[j] == before[j] by {
        if j < i {
            assert(parts@[j] == before.remove(i as int)[j]);
        } else {
            assert(parts@[j] == before.remove(i as int)[j - 1]);
        }
    }
}

/// Applies what an event asked to the assistant message (see
/// [`omp_applied`]).
pub fn apply_omp_action(parts: &mut Vec<WirePart>, action: OmpAction)
    requires
        omp_action_ok(old(parts)@, action),
    ensures
        omp_applied(old(parts)@, action, final(parts)@),
{
    match action {
        OmpAction::Delta { id, kind, delta } => {
            stream_delta(parts, id.as_str(), kind.as_str(), delta.as_str());
        },
        OmpAction::StartTool(p) => {
            upsert_part(parts, p);
        },
        OmpAction::FinishTool { id, outcome } => {
            match find_part_index(parts, id.as_str()) {
                Some(i) => {
                    proof {
                        lemma_first_with_id_bound(parts@, id@);
                    }
                    finish_at(parts, i, outcome);
                },
                None => {},
            }
        },
        OmpAction::Error(m) => {
            push_error(parts, m);
        },
        _ => {},
    }
}

/// Dropping the retry row keeps the first part of every other id, and
/// leaves no part with the retry row's id.
proof fn lemma_kept_first(o: Seq<WirePart>, r: Seq<char>, id: Seq<char>)
    ensures
        id == r ==> first_with_id(without_id(o, r), id) is None,
        id != r ==> match first_with_id(o, id) {
            Some(i) => first_with_id(without_id(o, r), id) matches Some(j) && 0 <= j < without_id(o, r).len()
                && without_id(o, r)[j] == o[i],
            None => first_with_id(without_id(o, r), id) is None,
        },
    decreases o.len(),
{
    if o.len() > 0 {
        let d = o.drop_last();
        lemma_kept_first(d, r, id);
        lemma_first_with_id_bound(d, id);
        let kd = without_id(d, r);
        let k = without_id(o, r);
        let last = o.last();
        assert(last == o[o.len() - 1]);
        assert(first_with_id(o, id) == match first_with_id(d, id) {
            Some(i) => Some(i),
            None => if last.id@ == id {
                Some(o.len() - 1)
            } else {
                None
            },
        });
        if last.id@ == r {
            assert(k =~= kd);
            if id != r {
                match first_with_id(d, id) {
                    Some(i) => {
                        assert(d[i] == o[i]);
                    },
                    None => {},
                }
            }
        } else {
            assert(k =~= kd.push(last));
            assert(k.drop_last() =~= kd);
            assert(k.last() == last);
            lemma_first_with_id_bound(kd, id);
            assert(first_with_id(k, id) == match first_with_id(kd, id) {
                Some(j) => Some(j),
                None => if last.id@ == id {
                    Some(k.len() - 1)
                } else {
                    None
                },
            });
            if id != r {
                match first_with_id(d, id) {
                    Some(i) => {
                        assert(d[i] == o[i]);
                        let j = first_with_id(kd, id).unwrap();
                        assert(k[j] == kd[j]);
                    },
                    None => {
                        if last.id@ == id {
                            assert(k[k.len() - 1] == last);
                        }
                    },
                }
            }
        }
    }
}

/// Whether the incoming input would need target keys set on it that it
/// cannot hold (see [`carry_blocked`]).
fn carry_conflict(inc: &JsonValue, prev: &JsonValue) -> (r: bool)
    ensures
        r == carry_blocked(*inc, *prev),
{
    proof {
        reveal_strlit("runTargetIds");
        reveal_strlit("runTargetIdsAuthoritative");
        reveal_strlit("experimentTargetIds");
        reveal_strlit("experimentTargetIdsAuthoritative");
        reveal_strlit("targetIds");
    }
    let shaped = match inc {
        JsonValue::Object(_) => true,
        JsonValue::Null => true,
        _ => false,
    };
    if shaped {
        return false;
    }
    let has = get(prev, "runTargetIds").is_some() || get(prev, "runTargetIdsAuthoritative").is_some()
        || get(prev, "experimentTargetIds").is_some() || get(
        prev,
        "experimentTargetIdsAuthoritative",
    ).is_some() || get(prev, "targetIds").is_some();
    proof {
        if has {
            if member(*prev, "runTargetIds"@) is Some {
                assert(is_carry_key("runTargetIds"@));
            } else if member(*prev, "runTargetIdsAuthoritative"@) is Some {
                assert(is_carry_key("runTargetIdsAuthoritative"@));
            } else if member(*prev, "experimentTargetIds"@) is Some {
                assert(is_carry_key("experimentTargetIds"@));
            } else if member(*prev, "experimentTargetIdsAuthoritative"@) is Some {
                assert(is_carry_key("experimentTargetIdsAuthoritative"@));
            } else {
                assert(is_carry_key("targetIds"@));
            }
        }
    }
    has
}

/// Whether the action can be applied to the message (see
/// [`omp_action_ok`]); a tool call whose arguments cannot take the targets
/// recorded on the part it replaces cannot.
pub fn omp_action_allowed(parts: &Vec<WirePart>, action: &OmpAction) -> (r: bool)
    ensures
        r == omp_action_ok(parts@, *action),
{
    match action {
        OmpAction::Delta { id, .. } => {
            proof {
                reveal_strlit("turn-retry");
            }
            !str_eq(id.as_str(), "turn-retry")
        },
        OmpAction::StartTool(p) => {
            proof {
                lemma_kept_first(parts@, retry_row_id(), p.id@);
                reveal_strlit("turn-retry");
            }
            if str_eq(p.id.as_str(), "turn-retry") {
                return true;
            }
            match find_part_index(parts, p.id.as_str()) {
                Some(i) => {
                    proof {
                        lemma_first_with_id_bound(parts@, p.id@);
                    }
                    match (&p.state, &parts[i].state) {
                        (Some(ps), Some(es)) => match (&ps.input, &es.input) {
                            (Some(pi), Some(ei)) => !carry_conflict(pi, ei),
                            _ => true,
                        },
                        _ => true,
                    }
                },
                None => true,
            }
        },
        _ => true,
    }
}


/// Consecutive text deltas go to one part: after a text delta, the next
/// text delta addresses the part the first one opened, so their texts join
/// (see `law_deltas_concatenate`).
pub proof fn law_text_deltas_share_their_part(
    s: StreamParts,
    e1: JsonValue,
    e2: JsonValue,
    r1: OmpAction,
    r2: OmpAction,
    s1: StreamParts,
)
    requires
        str_or(e1, "type"@, ""@) == "message_update"@,
        str_or(e2, "type"@, ""@) == "message_update"@,
        member(e1, "assistantMessageEvent"@) matches Some(ev) && str_or(ev, "type"@, ""@) == "text_delta"@,
        member(e2, "assistantMessageEvent"@) matches Some(ev) && str_or(ev, "type"@, ""@) == "text_delta"@,
        decided(s, e1, r1),
        moved(s, e1, s1),
        decided(s1, e2, r2),
    ensures
        r1 matches OmpAction::Delta { id: a, .. } && (r2 matches OmpAction::Delta { id: b, .. } && a@ == b@),
{
    lemma_event_types_distinct();
    lemma_update_types_distinct();
}

} // verus!
