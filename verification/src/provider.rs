//! Model provider logic: stop reasons, token usage, and the accumulation
//! of a streamed model response, event by event.
use vstd::prelude::*;

use crate::skill::{clone_json, keys_distinct};

verus! {

/// Why the model stopped.
#[derive(Debug, Clone, Copy, PartialEq, Eq, Structural)]
pub enum StopReason {
    EndTurn,
    ToolUse,
    MaxTokens,
    StopSequence,
}

/// Token counts of a response.
#[derive(Debug, Clone, Copy, PartialEq, Eq, Structural)]
pub struct Usage {
    pub input_tokens: usize,
    pub output_tokens: usize,
}

/// Token counts as the API reports them (each may be absent).
#[derive(Debug, Clone, Copy, PartialEq, Eq, Structural)]
pub struct TokenUsage {
    pub input_tokens: Option<u32>,
    pub output_tokens: Option<u32>,
}

/// One block of a model response.
#[derive(Debug)]
pub enum ResponseContent {
    Text(String),
    ToolUse { id: String, name: String, input: serde_json::Value },
}

/// A complete model response.
#[derive(Debug)]
pub struct ModelResponse {
    pub id: String,
    pub content: Vec<ResponseContent>,
    pub stop_reason: Option<StopReason>,
    pub usage: Usage,
}

/// An event forwarded to the consumer of a stream.
#[derive(Debug)]
pub enum StreamEvent {
    ContentBlockStart { index: usize, content: ResponseContent },
    TextDelta { index: usize, text: String },
    InputJsonDelta { index: usize, partial_json: String },
    ContentBlockStop { index: usize },
    MessageDone { response: ModelResponse },
}

/// The kind of block a `content_block_start` event opens.
#[derive(Debug)]
pub enum BlockStart {
    Text,
    ToolUse { id: String, name: String },
    /// Any other block (such as a tool result): it is not forwarded.
    Other,
}

/// An event of the API's message stream.
#[derive(Debug)]
pub enum ApiStreamEvent {
    MessageStart { id: String, usage: Option<TokenUsage> },
    ContentBlockStart { index: usize, block: BlockStart },
    TextDelta { index: usize, text: String },
    InputJsonDelta { index: usize, partial_json: String },
    ContentBlockStop { index: usize },
    MessageDelta { stop_reason: Option<String>, usage: Option<TokenUsage> },
    MessageStop,
}

/// The state of a stream being accumulated.
pub struct StreamState {
    message_id: String,
    input_tokens: usize,
    output_tokens: usize,
    stop_reason: Option<StopReason>,
    content_blocks: Vec<ResponseContent>,
    tool_json: Vec<(usize, String)>,
}

// ---------------------------------------------------------------------------
// Views
// ---------------------------------------------------------------------------

/// A response block; the input of a tool use is its JSON value.
pub enum BlockView {
    Text(Seq<char>),
    ToolUse { id: Seq<char>, name: Seq<char>, input: serde_json::Value },
}

impl View for ResponseContent {
    type V = BlockView;

    open spec fn view(&self) -> BlockView {
        match self {
            ResponseContent::Text(t) => BlockView::Text(t@),
            ResponseContent::ToolUse { id, name, input } => BlockView::ToolUse {
                id: id@,
                name: name@,
                input: *input,
            },
        }
    }
}

pub open spec fn blocks_view(s: Seq<ResponseContent>) -> Seq<BlockView> {
    s.map_values(|b: ResponseContent| b@)
}

pub struct ResponseView {
    pub id: Seq<char>,
    pub content: Seq<BlockView>,
    pub stop_reason: Option<StopReason>,
    pub usage: Usage,
}

impl View for ModelResponse {
    type V = ResponseView;

    open spec fn view(&self) -> ResponseView {
        ResponseView {
            id: self.id@,
            content: blocks_view(self.content@),
            stop_reason: self.stop_reason,
            usage: self.usage,
        }
    }
}

pub enum EventView {
    ContentBlockStart { index: usize, content: BlockView },
    TextDelta { index: usize, text: Seq<char> },
    InputJsonDelta { index: usize, partial_json: Seq<char> },
    ContentBlockStop { index: usize },
    MessageDone { response: ResponseView },
}

impl View for StreamEvent {
    type V = EventView;

    open spec fn view(&self) -> EventView {
        match self {
            StreamEvent::ContentBlockStart { index, content } => EventView::ContentBlockStart {
                index: *index,
                content: content@,
            },
            StreamEvent::TextDelta { index, text } => EventView::TextDelta {
                index: *index,
                text: text@,
            },
            StreamEvent::InputJsonDelta { index, partial_json } => EventView::InputJsonDelta {
                index: *index,
                partial_json: partial_json@,
            },
            StreamEvent::ContentBlockStop { index } => EventView::ContentBlockStop { index: *index },
            StreamEvent::MessageDone { response } => EventView::MessageDone { response: response@ },
        }
    }
}

pub enum BlockStartView {
    Text,
    ToolUse { id: Seq<char>, name: Seq<char> },
    Other,
}

pub enum ApiEventView {
    MessageStart { id: Seq<char>, usage: Option<TokenUsage> },
    ContentBlockStart { index: usize, block: BlockStartView },
    TextDelta { index: usize, text: Seq<char> },
    InputJsonDelta { index: usize, partial_json: Seq<char> },
    ContentBlockStop { index: usize },
    MessageDelta { stop_reason: Option<Seq<char>>, usage: Option<TokenUsage> },
    MessageStop,
}

impl View for ApiStreamEvent {
    type V = ApiEventView;

    open spec fn view(&self) -> ApiEventView {
        match self {
            ApiStreamEvent::MessageStart { id, usage } => ApiEventView::MessageStart {
                id: id@,
                usage: *usage,
            },
            ApiStreamEvent::ContentBlockStart { index, block } => ApiEventView::ContentBlockStart {
                index: *index,
                block: match block {
                    BlockStart::Text => BlockStartView::Text,
                    BlockStart::ToolUse { id, name } => BlockStartView::ToolUse {
                        id: id@,
                        name: name@,
                    },
                    BlockStart::Other => BlockStartView::Other,
                },
            },
            ApiStreamEvent::TextDelta { index, text } => ApiEventView::TextDelta {
                index: *index,
                text: text@,
            },
            ApiStreamEvent::InputJsonDelta { index, partial_json } => ApiEventView::InputJsonDelta {
                index: *index,
                partial_json: partial_json@,
            },
            ApiStreamEvent::ContentBlockStop { index } => ApiEventView::ContentBlockStop {
                index: *index,
            },
            ApiStreamEvent::MessageDelta { stop_reason, usage } => ApiEventView::MessageDelta {
                stop_reason: match stop_reason {
                    Some(s) => Some(s@),
                    None => None,
                },
                usage: *usage,
            },
            ApiStreamEvent::MessageStop => ApiEventView::MessageStop,
        }
    }
}

pub struct StreamView {
    pub message_id: Seq<char>,
    pub input_tokens: usize,
    pub output_tokens: usize,
    pub stop_reason: Option<StopReason>,
    pub blocks: Seq<BlockView>,
    pub tool_json: Seq<(usize, Seq<char>)>,
}

pub open spec fn json_view(s: Seq<(usize, String)>) -> Seq<(usize, Seq<char>)> {
    s.map_values(|e: (usize, String)| (e.0, e.1@))
}

impl View for StreamState {
    type V = StreamView;

    closed spec fn view(&self) -> StreamView {
        StreamView {
            message_id: self.message_id@,
            input_tokens: self.input_tokens,
            output_tokens: self.output_tokens,
            stop_reason: self.stop_reason,
            blocks: blocks_view(self.content_blocks@),
            tool_json: json_view(self.tool_json@),
        }
    }
}

// ---------------------------------------------------------------------------
// Specifications
// ---------------------------------------------------------------------------

/// The stop reason that the API's text names; unknown texts mean the end
/// of the turn.
pub open spec fn spec_stop_reason(s: Seq<char>) -> StopReason {
    if s == "tool_use"@ {
        StopReason::ToolUse
    } else if s == "max_tokens"@ {
        StopReason::MaxTokens
    } else if s == "stop_sequence"@ {
        StopReason::StopSequence
    } else {
        StopReason::EndTurn
    }
}

/// A reported count, zero when absent.
pub open spec fn count_or_zero(c: Option<u32>) -> usize {
    match c {
        Some(n) => n as usize,
        None => 0,
    }
}

/// Index of the accumulated tool input of block `index`.
pub open spec fn json_slot(s: Seq<(usize, Seq<char>)>, index: usize) -> Option<int>
    decreases s.len(),
{
    if s.len() == 0 {
        None
    } else {
        match json_slot(s.drop_last(), index) {
            Some(i) => Some(i),
            None => if s.last().0 == index {
                Some(s.len() - 1)
            } else {
                None
            },
        }
    }
}

/// `blocks` grown with empty text blocks until `index` is a position in it.
pub open spec fn pad_blocks(blocks: Seq<BlockView>, index: usize) -> Seq<BlockView> {
    if blocks.len() > index {
        blocks
    } else {
        blocks + Seq::new((index + 1 - blocks.len()) as nat, |i: int| BlockView::Text(Seq::empty()))
    }
}

/// `blocks` where the block at `index`, if a tool use, takes the JSON value
/// of `text` as its input, when `text` is JSON.
pub open spec fn with_parsed_input(blocks: Seq<BlockView>, index: usize, text: Seq<char>) -> Seq<BlockView> {
    if json_parses(text) && index < blocks.len() {
        match blocks[index as int] {
            BlockView::ToolUse { id, name, .. } => blocks.update(
                index as int,
                BlockView::ToolUse { id, name, input: json_value(text) },
            ),
            _ => blocks,
        }
    } else {
        blocks
    }
}

/// The state after one API event, and the event forwarded for it.
pub open spec fn spec_step(s: StreamView, e: ApiEventView) -> (StreamView, Option<EventView>) {
    match e {
        ApiEventView::MessageStart { id, usage } => (
            StreamView {
                message_id: id,
                input_tokens: match usage {
                    Some(u) => count_or_zero(u.input_tokens),
                    None => s.input_tokens,
                },
                ..s
            },
            None,
        ),
        ApiEventView::ContentBlockStart { index, block } => match block {
            BlockStartView::Other => (s, None),
            BlockStartView::Text => {
                let b = BlockView::Text(Seq::empty());
                (
                    StreamView { blocks: pad_blocks(s.blocks, index).update(index as int, b), ..s },
                    Some(EventView::ContentBlockStart { index, content: b }),
                )
            },
            BlockStartView::ToolUse { id, name } => {
                let b = BlockView::ToolUse { id, name, input: json_value("{}"@) };
                let tj = match json_slot(s.tool_json, index) {
                    Some(i) => s.tool_json.update(i, (index, Seq::empty())),
                    None => s.tool_json.push((index, Seq::empty())),
                };
                (
                    StreamView {
                        blocks: pad_blocks(s.blocks, index).update(index as int, b),
                        tool_json: tj,
                        ..s
                    },
                    Some(EventView::ContentBlockStart { index, content: b }),
                )
            },
        },
        ApiEventView::TextDelta { index, text } => {
            let blocks = if index < s.blocks.len() {
                match s.blocks[index as int] {
                    BlockView::Text(t) => s.blocks.update(index as int, BlockView::Text(t + text)),
                    _ => s.blocks,
                }
            } else {
                s.blocks
            };
            (StreamView { blocks, ..s }, Some(EventView::TextDelta { index, text }))
        },
        ApiEventView::InputJsonDelta { index, partial_json } => {
            let tj = match json_slot(s.tool_json, index) {
                Some(i) => s.tool_json.update(i, (index, s.tool_json[i].1 + partial_json)),
                None => s.tool_json,
            };
            (
                StreamView { tool_json: tj, ..s },
                Some(EventView::InputJsonDelta { index, partial_json }),
            )
        },
        ApiEventView::ContentBlockStop { index } => match json_slot(s.tool_json, index) {
            Some(i) => (
                StreamView {
                    tool_json: s.tool_json.remove(i),
                    blocks: with_parsed_input(s.blocks, index, s.tool_json[i].1),
                    ..s
                },
                Some(EventView::ContentBlockStop { index }),
            ),
            None => (s, Some(EventView::ContentBlockStop { index })),
        },
        ApiEventView::MessageDelta { stop_reason, usage } => (
            StreamView {
                stop_reason: match stop_reason {
                    Some(r) => Some(spec_stop_reason(r)),
                    None => None,
                },
                output_tokens: match usage {
                    Some(u) => count_or_zero(u.output_tokens),
                    None => s.output_tokens,
                },
                ..s
            },
            None,
        ),
        ApiEventView::MessageStop => (
            s,
            Some(
                EventView::MessageDone {
                    response: ResponseView {
                        id: s.message_id,
                        content: s.blocks,
                        stop_reason: s.stop_reason,
                        usage: Usage { input_tokens: s.input_tokens, output_tokens: s.output_tokens },
                    },
                },
            ),
        ),
    }
}

/// An event that a state can take: a block index is below `usize::MAX`.
pub open spec fn event_fits(e: ApiEventView) -> bool {
    match e {
        ApiEventView::ContentBlockStart { index, .. } => index < usize::MAX,
        _ => true,
    }
}

// ---------------------------------------------------------------------------
// Outside values
// ---------------------------------------------------------------------------

/// Name for whether `serde_json::from_str::<serde_json::Value>` accepts `s`.
pub uninterp spec fn json_parses(s: Seq<char>) -> bool;

/// Name for the value that `serde_json::from_str::<serde_json::Value>`
/// gives for `s` where it accepts it.
pub uninterp spec fn json_value(s: Seq<char>) -> serde_json::Value;

/// `serde_json::from_str::<serde_json::Value>`: the value that `s` denotes,
/// if it is JSON; whether it is, and which value, are the names
/// `json_parses` and `json_value` of the text.
#[verifier::external_body]
fn parse_json(s: &str) -> (r: Option<serde_json::Value>)
    ensures
        r is Some <==> json_parses(s@),
        r matches Some(v) ==> v == json_value(s@),
{
    serde_json::from_str::<serde_json::Value>(s).ok()
}

/// `Value::Object(Map::new())`: the empty JSON object, the value that the
/// text `{}` denotes (what `serde_json::from_str` builds for it: an object
/// with a new, empty map).
#[verifier::external_body]
fn empty_json_object() -> (r: serde_json::Value)
    ensures
        r == json_value("{}"@),
{
    serde_json::Value::Object(serde_json::Map::new())
}

// ---------------------------------------------------------------------------
// Executable functions
// ---------------------------------------------------------------------------

/// The stop reason that the API's text names (unknown texts: end of turn).
pub fn parse_stop_reason(s: &str) -> (r: StopReason)
    ensures
        r == spec_stop_reason(s@),
{
    if crate::text::str_eq(s, "tool_use") {
        StopReason::ToolUse
    } else if crate::text::str_eq(s, "max_tokens") {
        StopReason::MaxTokens
    } else if crate::text::str_eq(s, "stop_sequence") {
        StopReason::StopSequence
    } else {
        // "end_turn", and anything unknown
        StopReason::EndTurn
    }
}

/// Token usage from the API's counts, an absent count being zero.
pub fn usage_from(u: TokenUsage) -> (r: Usage)
    ensures
        r.input_tokens == count_or_zero(u.input_tokens),
        r.output_tokens == count_or_zero(u.output_tokens),
{
    Usage { input_tokens: count_of(u.input_tokens), output_tokens: count_of(u.output_tokens) }
}

fn count_of(c: Option<u32>) -> (r: usize)
    ensures
        r == count_or_zero(c),
{
    match c {
        Some(n) => n as usize,
        None => 0,
    }
}

impl ResponseContent {
    /// A copy of this block.
    pub fn copy(&self) -> (r: ResponseContent)
        ensures
            r@ == self@,
    {
        match self {
            ResponseContent::Text(t) => ResponseContent::Text(t.clone()),
            ResponseContent::ToolUse { id, name, input } => ResponseContent::ToolUse {
                id: id.clone(),
                name: name.clone(),
                input: clone_json(input),
            },
        }
    }
}

impl StreamState {
    /// The state before any event.
    pub fn new() -> (r: StreamState)
        ensures
            r@.message_id.len() == 0,
            r@.input_tokens == 0,
            r@.output_tokens == 0,
            r@.stop_reason is None,
            r@.blocks.len() == 0,
            r@.tool_json.len() == 0,
    {
        StreamState {
            message_id: String::new(),
            input_tokens: 0,
            output_tokens: 0,
            stop_reason: None,
            content_blocks: Vec::new(),
            tool_json: Vec::new(),
        }
    }

    /// Position of the tool input accumulated for block `index`.
    fn json_position(&self, index: usize) -> (r: Option<usize>)
        ensures
            r matches Some(i) ==> json_slot(self@.tool_json, index) == Some(i as int) && i
                < self@.tool_json.len(),
            r is None ==> json_slot(self@.tool_json, index) is None,
    {
        let ghost tj = self@.tool_json;
        let n = self.tool_json.len();
        for i in 0..n
            invariant
                tj == self@.tool_json,
                n == tj.len(),
                forall|k: int| 0 <= k < i ==> (#[trigger] tj[k]).0 != index,
        {
            assert(tj[i as int].0 == self.tool_json@[i as int].0);
            if self.tool_json[i].0 == index {
                proof {
                    lemma_json_slot_first(tj, index, i as int);
                }
                return Some(i);
            }
        }
        proof {
            lemma_json_slot_none(tj, index);
        }
        None
    }

    /// Takes one API event: updates the accumulated response and returns the
    /// event to forward, if any. A block start grows the block list with
    /// empty text blocks up to its index; a tool use also starts an empty
    /// tool input; at a block's end its tool input, if it parses as JSON,
    /// becomes the input of that tool-use block; the stop event forwards the
    /// whole response.
    pub fn step(&mut self, event: ApiStreamEvent) -> (r: Option<StreamEvent>)
        requires
            event_fits(event@),
        ensures
            final(self)@ == spec_step(old(self)@, event@).0,
            match r {
                Some(ev) => spec_step(old(self)@, event@).1 == Some(ev@),
                None => spec_step(old(self)@, event@).1 is None,
            },
    {
        let ghost s0 = self@;
        let ghost ev = event@;
        match event {
            ApiStreamEvent::MessageStart { id, usage } => {
                self.message_id = id;
                match usage {
                    Some(u) => {
                        self.input_tokens = count_of(u.input_tokens);
                    },
                    None => {},
                }
                None
            },
            ApiStreamEvent::ContentBlockStart { index, block } => {
                let rc = match block {
                    BlockStart::Other => {
                        return None;
                    },
                    BlockStart::Text => ResponseContent::Text(String::new()),
                    BlockStart::ToolUse { id, name } => {
                        let ghost tj = self@.tool_json;
                        match self.json_position(index) {
                            Some(i) => {
                                self.tool_json.set(i, (index, String::new()));
                                assert(json_view(self.tool_json@) =~= tj.update(
                                    i as int,
                                    (index, Seq::empty()),
                                ));
                            },
                            None => {
                                self.tool_json.push((index, String::new()));
                                assert(json_view(self.tool_json@) =~= tj.push(
                                    (index, Seq::empty()),
                                ));
                            },
                        }
                        ResponseContent::ToolUse { id, name, input: empty_json_object() }
                    },
                };
                let ghost b0 = self@.blocks;
                let ghost mid = self@;
                assert(blocks_view(self.content_blocks@).len() == self.content_blocks@.len());
                if self.content_blocks.len() <= index {
                    assert(pad_blocks(b0, index).take(b0.len() as int) =~= b0);
                    while self.content_blocks.len() <= index
                        invariant
                            index < usize::MAX,
                            b0.len() <= index,
                            b0.len() <= self.content_blocks@.len() <= index + 1,
                            blocks_view(self.content_blocks@) == pad_blocks(b0, index).take(
                                self.content_blocks@.len() as int,
                            ),
                            self@.message_id == mid.message_id,
                            self@.input_tokens == mid.input_tokens,
                            self@.output_tokens == mid.output_tokens,
                            self@.stop_reason == mid.stop_reason,
                            self@.tool_json == mid.tool_json,
                        decreases index + 1 - self.content_blocks@.len(),
                    {
                        let ghost before = blocks_view(self.content_blocks@);
                        self.content_blocks.push(ResponseContent::Text(String::new()));
                        assert(blocks_view(self.content_blocks@) =~= before.push(
                            BlockView::Text(Seq::empty()),
                        ));
                        assert(blocks_view(self.content_blocks@) =~= pad_blocks(b0, index).take(
                            self.content_blocks@.len() as int,
                        ));
                    }
                }
                proof {
                    if b0.len() <= index {
                        assert(self.content_blocks@.len() == index + 1);
                        assert(pad_blocks(b0, index).take(index + 1) =~= pad_blocks(b0, index));
                    }
                }
                let ghost padded = blocks_view(self.content_blocks@);
                let copy = rc.copy();
                self.content_blocks.set(index, copy);
                assert(blocks_view(self.content_blocks@) =~= padded.update(index as int, rc@));
                Some(StreamEvent::ContentBlockStart { index, content: rc })
            },
            ApiStreamEvent::TextDelta { index, text } => {
                if index < self.content_blocks.len() {
                    let ghost bs = self@.blocks;
                    let mut slot = ResponseContent::Text(String::new());
                    self.content_blocks.set_and_swap(index, &mut slot);
                    match slot {
                        ResponseContent::Text(t) => {
                            let mut t2 = t;
                            t2.append(text.as_str());
                            self.content_blocks.set(index, ResponseContent::Text(t2));
                            assert(blocks_view(self.content_blocks@) =~= bs.update(
                                index as int,
                                BlockView::Text(t@ + text@),
                            ));
                        },
                        other => {
                            let ghost ov = other@;
                            self.content_blocks.set(index, other);
                            assert(blocks_view(self.content_blocks@) =~= bs.update(index as int, ov));
                            assert(bs.update(index as int, ov) =~= bs);
                        },
                    }
                }
                Some(StreamEvent::TextDelta { index, text })
            },
            ApiStreamEvent::InputJsonDelta { index, partial_json } => {
                match self.json_position(index) {
                    Some(i) => {
                        let ghost tj = self@.tool_json;
                        let mut acc = self.tool_json[i].1.clone();
                        acc.append(partial_json.as_str());
                        self.tool_json.set(i, (index, acc));
                        assert(json_view(self.tool_json@) =~= tj.update(
                            i as int,
                            (index, tj[i as int].1 + partial_json@),
                        ));
                    },
                    None => {},
                }
                Some(StreamEvent::InputJsonDelta { index, partial_json })
            },
            ApiStreamEvent::ContentBlockStop { index } => {
                match self.json_position(index) {
                    Some(i) => {
                        let ghost tj = self@.tool_json;
                        let ghost bs = self@.blocks;
                        assert(tj[i as int].1 == self.tool_json@[i as int].1@);
                        let (_, json_text) = self.tool_json.remove(i);
                        assert(json_view(self.tool_json@) =~= tj.remove(i as int));
                        let ghost text = json_text@;
                        match parse_json(json_text.as_str()) {
                            Some(parsed) => {
                                if index < self.content_blocks.len() {
                                    let mut slot = ResponseContent::Text(String::new());
                                    self.content_blocks.set_and_swap(index, &mut slot);
                                    let ghost sv = slot@;
                                    assert(sv == bs[index as int]);
                                    let restored = match slot {
                                        ResponseContent::ToolUse { id, name, input: _ } => {
                                            ResponseContent::ToolUse { id, name, input: parsed }
                                        },
                                        other => other,
                                    };
                                    self.content_blocks.set(index, restored);
                                    assert(blocks_view(self.content_blocks@) =~= bs.update(
                                        index as int,
                                        restored@,
                                    ));
                                    assert(blocks_view(self.content_blocks@) =~= with_parsed_input(
                                        bs,
                                        index,
                                        text,
                                    ));
                                } else {
                                    assert(with_parsed_input(bs, index, text) == bs);
                                }
                            },
                            None => {
                                assert(with_parsed_input(bs, index, text) == bs);
                            },
                        }
                    },
                    None => {},
                }
                Some(StreamEvent::ContentBlockStop { index })
            },
            ApiStreamEvent::MessageDelta { stop_reason, usage } => {
                self.stop_reason = match stop_reason {
                    Some(r) => Some(parse_stop_reason(r.as_str())),
                    None => None,
                };
                match usage {
                    Some(u) => {
                        self.output_tokens = count_of(u.output_tokens);
                    },
                    None => {},
                }
                None
            },
            ApiStreamEvent::MessageStop => {
                let mut content: Vec<ResponseContent> = Vec::new();
                for i in 0..self.content_blocks.len()
                    invariant
                        blocks_view(content@) == blocks_view(self.content_blocks@).take(i as int),
                {
                    let ghost before = blocks_view(content@);
                    let c = self.content_blocks[i].copy();
                    content.push(c);
                    assert(blocks_view(content@) =~= before.push(self.content_blocks@[i as int]@));
                    assert(blocks_view(content@) =~= blocks_view(self.content_blocks@).take(i + 1));
                }
                assert(blocks_view(self.content_blocks@).take(self.content_blocks@.len() as int)
                    =~= blocks_view(self.content_blocks@));
                let response = ModelResponse {
                    id: self.message_id.clone(),
                    content,
                    stop_reason: self.stop_reason,
                    usage: Usage { input_tokens: self.input_tokens, output_tokens: self.output_tokens },
                };
                Some(StreamEvent::MessageDone { response })
            },
        }
    }
}

// ---------------------------------------------------------------------------
// Laws
// ---------------------------------------------------------------------------

/// What each API event forwards: a text or tool-use block start forwards
/// the block's start, any other block start nothing; a text delta, an input
/// delta and a block end forward themselves; the stop event forwards the
/// whole response; message start and message delta forward nothing.
pub proof fn law_forwarded_items(s: StreamView, e: ApiEventView)
    ensures
        match e {
            ApiEventView::ContentBlockStart { index, block } => match block {
                BlockStartView::Other => spec_step(s, e).1 is None,
                BlockStartView::Text => spec_step(s, e).1 == Some(
                    EventView::ContentBlockStart { index, content: BlockView::Text(Seq::empty()) },
                ),
                BlockStartView::ToolUse { id, name } => spec_step(s, e).1 == Some(
                    EventView::ContentBlockStart {
                        index,
                        content: BlockView::ToolUse { id, name, input: json_value("{}"@) },
                    },
                ),
            },
            ApiEventView::TextDelta { index, text } => spec_step(s, e).1 == Some(
                EventView::TextDelta { index, text },
            ),
            ApiEventView::InputJsonDelta { index, partial_json } => spec_step(s, e).1 == Some(
                EventView::InputJsonDelta { index, partial_json },
            ),
            ApiEventView::ContentBlockStop { index } => spec_step(s, e).1 == Some(
                EventView::ContentBlockStop { index },
            ),
            ApiEventView::MessageStop => spec_step(s, e).1 == Some(
                EventView::MessageDone {
                    response: ResponseView {
                        id: s.message_id,
                        content: s.blocks,
                        stop_reason: s.stop_reason,
                        usage: Usage { input_tokens: s.input_tokens, output_tokens: s.output_tokens },
                    },
                },
            ),
            _ => spec_step(s, e).1 is None,
        },
{
}

/// A message delta's stop reason is read as a complete response reads it:
/// `tool_use`, `max_tokens` and `stop_sequence` name their reasons and any
/// other text means the end of the turn; the response that the stop event
/// forwards carries that reason.
pub proof fn law_stream_stop_reason(s: StreamView, reason: Seq<char>, usage: Option<TokenUsage>)
    ensures
        ({
            let s1 = spec_step(s, ApiEventView::MessageDelta { stop_reason: Some(reason), usage }).0;
            let expected = if reason == seq!['t', 'o', 'o', 'l', '_', 'u', 's', 'e'] {
                StopReason::ToolUse
            } else if reason == seq!['m', 'a', 'x', '_', 't', 'o', 'k', 'e', 'n', 's'] {
                StopReason::MaxTokens
            } else if reason == seq![
                's',
                't',
                'o',
                'p',
                '_',
                's',
                'e',
                'q',
                'u',
                'e',
                'n',
                'c',
                'e',
            ] {
                StopReason::StopSequence
            } else {
                StopReason::EndTurn
            };
            &&& s1.stop_reason == Some(expected)
            &&& spec_step(s1, ApiEventView::MessageStop).1 matches Some(
                EventView::MessageDone { response },
            ) && response.stop_reason == Some(expected)
        }),
{
    reveal_strlit("tool_use");
    reveal_strlit("max_tokens");
    reveal_strlit("stop_sequence");
    assert("tool_use"@ =~= seq!['t', 'o', 'o', 'l', '_', 'u', 's', 'e']);
    assert("max_tokens"@ =~= seq!['m', 'a', 'x', '_', 't', 'o', 'k', 'e', 'n', 's']);
    assert("stop_sequence"@ =~= seq!['s', 't', 'o', 'p', '_', 's', 'e', 'q', 'u', 'e', 'n', 'c', 'e']);
}

/// A text block that a block start opens accumulates its text deltas in
/// order, and the response that the stop event forwards holds it.
pub proof fn law_text_deltas_accumulate(s: StreamView, index: usize, a: Seq<char>, b: Seq<char>)
    requires
        index < usize::MAX,
    ensures
        ({
            let s1 = spec_step(
                s,
                ApiEventView::ContentBlockStart { index, block: BlockStartView::Text },
            ).0;
            let s2 = spec_step(s1, ApiEventView::TextDelta { index, text: a }).0;
            let s3 = spec_step(s2, ApiEventView::TextDelta { index, text: b }).0;
            &&& s3.blocks[index as int] == BlockView::Text(a + b)
            &&& spec_step(s3, ApiEventView::MessageStop).1 matches Some(
                EventView::MessageDone { response },
            ) && response.content[index as int] == BlockView::Text(a + b)
        }),
{
    let s1 = spec_step(s, ApiEventView::ContentBlockStart { index, block: BlockStartView::Text }).0;
    assert(s1.blocks.len() > index);
    assert(s1.blocks[index as int] == BlockView::Text(Seq::empty()));
    assert(Seq::<char>::empty() + a =~= a);
}

/// A tool-use block's input is the JSON value of its input deltas joined in
/// order, once its block ends, where they form JSON; otherwise it stays the
/// empty object. The response that the stop event forwards holds it.
pub proof fn law_tool_input_from_deltas(
    s: StreamView,
    index: usize,
    id: Seq<char>,
    name: Seq<char>,
    a: Seq<char>,
    b: Seq<char>,
)
    requires
        index < usize::MAX,
    ensures
        ({
            let s1 = spec_step(
                s,
                ApiEventView::ContentBlockStart {
                    index,
                    block: BlockStartView::ToolUse { id, name },
                },
            ).0;
            let s2 = spec_step(s1, ApiEventView::InputJsonDelta { index, partial_json: a }).0;
            let s3 = spec_step(s2, ApiEventView::InputJsonDelta { index, partial_json: b }).0;
            let s4 = spec_step(s3, ApiEventView::ContentBlockStop { index }).0;
            let input = if json_parses(a + b) {
                json_value(a + b)
            } else {
                json_value("{}"@)
            };
            &&& s4.blocks[index as int] == BlockView::ToolUse { id, name, input }
            &&& spec_step(s4, ApiEventView::MessageStop).1 matches Some(
                EventView::MessageDone { response },
            ) && response.content[index as int] == BlockView::ToolUse { id, name, input }
        }),
{
    let s1 = spec_step(
        s,
        ApiEventView::ContentBlockStart { index, block: BlockStartView::ToolUse { id, name } },
    ).0;
    let tj = s.tool_json;
    lemma_json_slot(tj, index);
    let j: int = match json_slot(tj, index) {
        Some(i) => i,
        None => tj.len() as int,
    };
    assert(s1.tool_json.len() > j && s1.tool_json[j] == (index, Seq::<char>::empty()));
    assert forall|k: int| 0 <= k < j implies (#[trigger] s1.tool_json[k]).0 != index by {
        assert(s1.tool_json[k] == tj[k]);
    }
    lemma_json_slot_first(s1.tool_json, index, j);
    let s2 = spec_step(s1, ApiEventView::InputJsonDelta { index, partial_json: a }).0;
    assert forall|k: int| 0 <= k < j implies (#[trigger] s2.tool_json[k]).0 != index by {
        assert(s2.tool_json[k] == s1.tool_json[k]);
    }
    lemma_json_slot_first(s2.tool_json, index, j);
    let s3 = spec_step(s2, ApiEventView::InputJsonDelta { index, partial_json: b }).0;
    assert forall|k: int| 0 <= k < j implies (#[trigger] s3.tool_json[k]).0 != index by {
        assert(s3.tool_json[k] == s2.tool_json[k]);
    }
    lemma_json_slot_first(s3.tool_json, index, j);
    assert(s3.tool_json[j].1 =~= a + b);
    assert(s1.blocks.len() > index);
    assert(s3.blocks == s1.blocks);
}

/// Each block has at most one pending tool input: no event makes two
/// entries for the same block index.
pub proof fn law_tool_inputs_one_per_block(s: StreamView, e: ApiEventView)
    requires
        keys_distinct(s.tool_json),
    ensures
        keys_distinct(spec_step(s, e).0.tool_json),
{
    let t = spec_step(s, e).0.tool_json;
    let tj = s.tool_json;
    match e {
        ApiEventView::ContentBlockStart { index, block } => {
            lemma_json_slot(tj, index);
            assert forall|i: int, j: int| 0 <= i < j < t.len() implies (#[trigger] t[i]).0 != (
            #[trigger] t[j]).0 by {
                if j < tj.len() {
                    assert(t[i].0 == tj[i].0 && t[j].0 == tj[j].0);
                } else {
                    assert(t[i] == tj[i]);
                }
            }
        },
        ApiEventView::InputJsonDelta { index, .. } => {
            lemma_json_slot(tj, index);
            assert forall|i: int, j: int| 0 <= i < j < t.len() implies (#[trigger] t[i]).0 != (
            #[trigger] t[j]).0 by {
                assert(t[i].0 == tj[i].0 && t[j].0 == tj[j].0);
            }
        },
        ApiEventView::ContentBlockStop { index } => {
            lemma_json_slot(tj, index);
            if let Some(m) = json_slot(tj, index) {
                assert forall|i: int, j: int| 0 <= i < j < t.len() implies (#[trigger] t[i]).0 != (
                #[trigger] t[j]).0 by {
                    let a = if i < m { i } else { i + 1 };
                    let b = if j < m { j } else { j + 1 };
                    assert(t[i] == tj[a] && t[j] == tj[b]);
                }
            }
        },
        _ => {},
    }
}

proof fn lemma_json_slot(s: Seq<(usize, Seq<char>)>, index: usize)
    ensures
        json_slot(s, index) matches Some(i) ==> 0 <= i < s.len() && s[i].0 == index && forall|k: int|
            0 <= k < i ==> (#[trigger] s[k]).0 != index,
        json_slot(s, index) is None ==> forall|k: int| 0 <= k < s.len() ==> (#[trigger] s[k]).0 != index,
    decreases s.len(),
{
    if s.len() > 0 {
        lemma_json_slot(s.drop_last(), index);
        assert forall|k: int| 0 <= k < s.len() - 1 implies s.drop_last()[k] == s[k] by {}
    }
}

proof fn lemma_json_slot_first(s: Seq<(usize, Seq<char>)>, index: usize, i: int)
    requires
        0 <= i < s.len(),
        s[i].0 == index,
        forall|k: int| 0 <= k < i ==> (#[trigger] s[k]).0 != index,
    ensures
        json_slot(s, index) == Some(i),
    decreases s.len(),
{
    if i < s.len() - 1 {
        lemma_json_slot_first(s.drop_last(), index, i);
    } else {
        lemma_json_slot(s.drop_last(), index);
    }
}

proof fn lemma_json_slot_none(s: Seq<(usize, Seq<char>)>, index: usize)
    requires
        forall|k: int| 0 <= k < s.len() ==> (#[trigger] s[k]).0 != index,
    ensures
        json_slot(s, index) is None,
{
    lemma_json_slot(s, index);
}

} // verus!
