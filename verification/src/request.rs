//! Requests to the model API and its complete (not streamed) responses, as
//! plain values: what the API is sent for a model request, and the model
//! response made of what the API answers.
use vstd::prelude::*;

use crate::skill::clone_json;
use crate::provider::{
    blocks_view, count_or_zero, parse_stop_reason, spec_stop_reason, usage_from,
    BlockView, ModelResponse, ResponseContent, TokenUsage, Usage,
};

verus! {

// ---------------------------------------------------------------------------
// Types
// ---------------------------------------------------------------------------

/// One block of a request message.
#[derive(Debug)]
pub enum RequestContent {
    Text { text: String },
    ToolUse { id: String, name: String, input: serde_json::Value },
    ToolResult { tool_use_id: String, content: String, is_error: Option<bool> },
}

/// A message of a request, with its role (`"user"` or `"assistant"`).
#[derive(Debug)]
pub struct RequestMessage {
    pub role: String,
    pub content: Vec<RequestContent>,
}

/// A tool offered to the model.
#[derive(Debug)]
pub struct ToolDefinition {
    pub name: String,
    pub description: String,
    pub input_schema: serde_json::Value,
}

/// A request to a model.
#[derive(Debug)]
pub struct ModelRequest {
    pub model: String,
    pub messages: Vec<RequestMessage>,
    pub max_tokens: u32,
    pub system: Option<String>,
    pub tools: Option<Vec<ToolDefinition>>,
}

/// The role of a message as the API takes it.
#[derive(Debug, Clone, Copy, PartialEq, Eq, Structural)]
pub enum ApiRole {
    User,
    Assistant,
}

/// A content block as the API takes and gives it.
#[derive(Debug)]
pub enum ApiContent {
    Text(String),
    ToolUse { id: String, name: String, input: serde_json::Value },
    ToolResult { tool_use_id: String, content: Option<String>, is_error: bool },
}

/// A message as the API takes it.
#[derive(Debug)]
pub struct ApiMessage {
    pub role: ApiRole,
    pub content: Vec<ApiContent>,
}

/// A request as the API takes it.
#[derive(Debug)]
pub struct ApiRequest {
    pub model: String,
    pub messages: Vec<ApiMessage>,
    pub max_tokens: i32,
    pub stream: bool,
    pub system: Option<String>,
    pub tools: Option<Vec<ToolDefinition>>,
}

// ---------------------------------------------------------------------------
// Views (a JSON value is seen as itself)
// ---------------------------------------------------------------------------

pub enum ContentView {
    Text(Seq<char>),
    ToolUse { id: Seq<char>, name: Seq<char>, input: serde_json::Value },
    ToolResult { tool_use_id: Seq<char>, content: Seq<char>, is_error: Option<bool> },
}

impl View for RequestContent {
    type V = ContentView;

    open spec fn view(&self) -> ContentView {
        match self {
            RequestContent::Text { text } => ContentView::Text(text@),
            RequestContent::ToolUse { id, name, input } => ContentView::ToolUse {
                id: id@,
                name: name@,
                input: *input,
            },
            RequestContent::ToolResult { tool_use_id, content, is_error } => ContentView::ToolResult {
                tool_use_id: tool_use_id@,
                content: content@,
                is_error: *is_error,
            },
        }
    }
}

pub enum ApiContentView {
    Text(Seq<char>),
    ToolUse { id: Seq<char>, name: Seq<char>, input: serde_json::Value },
    ToolResult { tool_use_id: Seq<char>, content: Option<Seq<char>>, is_error: bool },
}

impl View for ApiContent {
    type V = ApiContentView;

    open spec fn view(&self) -> ApiContentView {
        match self {
            ApiContent::Text(t) => ApiContentView::Text(t@),
            ApiContent::ToolUse { id, name, input } => ApiContentView::ToolUse {
                id: id@,
                name: name@,
                input: *input,
            },
            ApiContent::ToolResult { tool_use_id, content, is_error } => ApiContentView::ToolResult {
                tool_use_id: tool_use_id@,
                content: text_opt(*content),
                is_error: *is_error,
            },
        }
    }
}

/// The text of an optional string.
pub open spec fn text_opt(o: Option<String>) -> Option<Seq<char>> {
    match o {
        Some(s) => Some(s@),
        None => None,
    }
}

pub open spec fn contents_view(s: Seq<RequestContent>) -> Seq<ContentView> {
    s.map_values(|c: RequestContent| c@)
}

pub open spec fn api_contents_view(s: Seq<ApiContent>) -> Seq<ApiContentView> {
    s.map_values(|c: ApiContent| c@)
}

impl View for RequestMessage {
    type V = (Seq<char>, Seq<ContentView>);

    open spec fn view(&self) -> (Seq<char>, Seq<ContentView>) {
        (self.role@, contents_view(self.content@))
    }
}

impl View for ApiMessage {
    type V = (ApiRole, Seq<ApiContentView>);

    open spec fn view(&self) -> (ApiRole, Seq<ApiContentView>) {
        (self.role, api_contents_view(self.content@))
    }
}

/// A tool by its name, description and input schema.
impl View for ToolDefinition {
    type V = (Seq<char>, Seq<char>, serde_json::Value);

    open spec fn view(&self) -> (Seq<char>, Seq<char>, serde_json::Value) {
        (self.name@, self.description@, self.input_schema)
    }
}

pub open spec fn tools_view(t: Option<Vec<ToolDefinition>>) -> Option<Seq<(Seq<char>, Seq<char>, serde_json::Value)>> {
    match t {
        Some(v) => Some(v@.map_values(|d: ToolDefinition| d@)),
        None => None,
    }
}

pub struct RequestView {
    pub model: Seq<char>,
    pub messages: Seq<(Seq<char>, Seq<ContentView>)>,
    pub max_tokens: u32,
    pub system: Option<Seq<char>>,
    pub tools: Option<Seq<(Seq<char>, Seq<char>, serde_json::Value)>>,
}

impl View for ModelRequest {
    type V = RequestView;

    open spec fn view(&self) -> RequestView {
        RequestView {
            model: self.model@,
            messages: self.messages@.map_values(|m: RequestMessage| m@),
            max_tokens: self.max_tokens,
            system: text_opt(self.system),
            tools: tools_view(self.tools),
        }
    }
}

pub struct ApiRequestView {
    pub model: Seq<char>,
    pub messages: Seq<(ApiRole, Seq<ApiContentView>)>,
    pub max_tokens: i32,
    pub stream: bool,
    pub system: Option<Seq<char>>,
    pub tools: Option<Seq<(Seq<char>, Seq<char>, serde_json::Value)>>,
}

impl View for ApiRequest {
    type V = ApiRequestView;

    open spec fn view(&self) -> ApiRequestView {
        ApiRequestView {
            model: self.model@,
            messages: self.messages@.map_values(|m: ApiMessage| m@),
            max_tokens: self.max_tokens,
            stream: self.stream,
            system: text_opt(self.system),
            tools: tools_view(self.tools),
        }
    }
}

// ---------------------------------------------------------------------------
// Specifications
// ---------------------------------------------------------------------------

/// The API role of a message role: `"assistant"`, and the user for any
/// other text.
pub open spec fn api_role(role: Seq<char>) -> ApiRole {
    if role == "assistant"@ {
        ApiRole::Assistant
    } else {
        ApiRole::User
    }
}

/// A request block as the API takes it: a tool result always carries its
/// content, and is an error only where it says so.
pub open spec fn api_content(c: ContentView) -> ApiContentView {
    match c {
        ContentView::Text(t) => ApiContentView::Text(t),
        ContentView::ToolUse { id, name, input } => ApiContentView::ToolUse { id, name, input },
        ContentView::ToolResult { tool_use_id, content, is_error } => ApiContentView::ToolResult {
            tool_use_id,
            content: Some(content),
            is_error: match is_error {
                Some(b) => b,
                None => false,
            },
        },
    }
}

pub open spec fn api_message(m: (Seq<char>, Seq<ContentView>)) -> (ApiRole, Seq<ApiContentView>) {
    (api_role(m.0), m.1.map_values(|c: ContentView| api_content(c)))
}

/// The API request for a model request: every message converted, the
/// token limit taken as the API's 32-bit signed integer.
pub open spec fn api_request(r: RequestView, stream: bool) -> ApiRequestView {
    ApiRequestView {
        model: r.model,
        messages: r.messages.map_values(|m: (Seq<char>, Seq<ContentView>)| api_message(m)),
        max_tokens: r.max_tokens as i32,
        stream,
        system: r.system,
        tools: r.tools,
    }
}

/// The response block of an API block: tool results are dropped.
pub open spec fn response_block(c: ApiContentView) -> Option<BlockView> {
    match c {
        ApiContentView::Text(t) => Some(BlockView::Text(t)),
        ApiContentView::ToolUse { id, name, input } => Some(BlockView::ToolUse { id, name, input }),
        ApiContentView::ToolResult { .. } => None,
    }
}

/// The response blocks of API blocks, in order.
pub open spec fn response_blocks(s: Seq<ApiContentView>) -> Seq<BlockView>
    decreases s.len(),
{
    if s.len() == 0 {
        Seq::empty()
    } else {
        let rest = response_blocks(s.drop_last());
        match response_block(s.last()) {
            Some(b) => rest.push(b),
            None => rest,
        }
    }
}

/// The usage of an answer: each absent count, or an absent usage, is zero.
pub open spec fn answer_usage(u: Option<TokenUsage>) -> Usage {
    match u {
        Some(t) => Usage {
            input_tokens: count_or_zero(t.input_tokens),
            output_tokens: count_or_zero(t.output_tokens),
        },
        None => Usage { input_tokens: 0, output_tokens: 0 },
    }
}

// ---------------------------------------------------------------------------
// Executable functions
// ---------------------------------------------------------------------------

fn copy_text_opt(o: &Option<String>) -> (r: Option<String>)
    ensures
        text_opt(r) == text_opt(*o),
{
    match o {
        Some(s) => Some(s.clone()),
        None => None,
    }
}

/// The API role of a message role.
pub fn role_of(role: &str) -> (r: ApiRole)
    ensures
        r == api_role(role@),
{
    if crate::text::str_eq(role, "assistant") {
        ApiRole::Assistant
    } else {
        ApiRole::User
    }
}

/// A request block as the API takes it.
pub fn api_content_of(c: &RequestContent) -> (r: ApiContent)
    ensures
        r@ == api_content(c@),
{
    match c {
        RequestContent::Text { text } => ApiContent::Text(text.clone()),
        RequestContent::ToolUse { id, name, input } => ApiContent::ToolUse {
            id: id.clone(),
            name: name.clone(),
            input: clone_json(input),
        },
        RequestContent::ToolResult { tool_use_id, content, is_error } => {
            let e: bool = match is_error {
                Some(b) => *b,
                None => false,
            };
            ApiContent::ToolResult {
                tool_use_id: tool_use_id.clone(),
                content: Some(content.clone()),
                is_error: e,
            }
        },
    }
}

/// A request message as the API takes it.
pub fn api_message_of(m: &RequestMessage) -> (r: ApiMessage)
    ensures
        r@ == api_message(m@),
{
    let role = role_of(m.role.as_str());
    let mut content: Vec<ApiContent> = Vec::new();
    for i in 0..m.content.len()
        invariant
            content.len() == i,
            forall|k: int| 0 <= k < i ==> (#[trigger] content@[k])@ == api_content(m.content@[k]@),
    {
        let c = api_content_of(&m.content[i]);
        content.push(c);
    }
    let r = ApiMessage { role, content };
    assert(api_contents_view(r.content@) =~= m@.1.map_values(|c: ContentView| api_content(c)));
    r
}

fn copy_tools(tools: &Vec<ToolDefinition>) -> (r: Vec<ToolDefinition>)
    ensures
        r@.map_values(|d: ToolDefinition| d@) == tools@.map_values(|d: ToolDefinition| d@),
{
    let mut r: Vec<ToolDefinition> = Vec::new();
    for i in 0..tools.len()
        invariant
            r.len() == i,
            forall|k: int| 0 <= k < i ==> (#[trigger] r@[k])@ == tools@[k]@,
    {
        let t = &tools[i];
        r.push(
            ToolDefinition {
                name: t.name.clone(),
                description: t.description.clone(),
                input_schema: clone_json(&t.input_schema),
            },
        );
    }
    assert(r@.map_values(|d: ToolDefinition| d@) =~= tools@.map_values(|d: ToolDefinition| d@));
    r
}

/// The API request for `request`, streamed or not: each message with its
/// role and blocks converted, and the model, the token limit (as a 32-bit
/// signed integer), the system prompt and the tools carried over.
pub fn build_request(request: &ModelRequest, stream: bool) -> (r: ApiRequest)
    ensures
        r@ == api_request(request@, stream),
{
    let mut messages: Vec<ApiMessage> = Vec::new();
    for i in 0..request.messages.len()
        invariant
            messages.len() == i,
            forall|k: int|
                0 <= k < i ==> (#[trigger] messages@[k])@ == api_message(request.messages@[k]@),
    {
        let m = api_message_of(&request.messages[i]);
        messages.push(m);
    }
    let tools = match &request.tools {
        Some(t) => Some(copy_tools(t)),
        None => None,
    };
    let r = ApiRequest {
        model: request.model.clone(),
        messages,
        max_tokens: request.max_tokens as i32,
        stream,
        system: copy_text_opt(&request.system),
        tools,
    };
    assert(r@.messages =~= api_request(request@, stream).messages);
    r
}

/// The response block of an API block: text and tool uses are kept, tool
/// results give none.
pub fn map_content_block(block: ApiContent) -> (r: Option<ResponseContent>)
    ensures
        match r {
            Some(c) => response_block(block@) == Some(c@),
            None => response_block(block@) is None,
        },
{
    match block {
        ApiContent::Text(t) => Some(ResponseContent::Text(t)),
        ApiContent::ToolUse { id, name, input } => Some(ResponseContent::ToolUse { id, name, input }),
        ApiContent::ToolResult { .. } => None,
    }
}

/// The model response made of a complete API answer: its id (empty when
/// absent), its text and tool-use blocks in order, its stop reason, and its
/// token usage (absent counts being zero).
pub fn response_from(
    id: Option<String>,
    content: Option<Vec<ApiContent>>,
    stop_reason: Option<String>,
    usage: Option<TokenUsage>,
) -> (r: ModelResponse)
    ensures
        r@.id == (match text_opt(id) {
            Some(s) => s,
            None => Seq::empty(),
        }),
        r@.content == (match content {
            Some(v) => response_blocks(api_contents_view(v@)),
            None => Seq::empty(),
        }),
        r@.stop_reason == (match text_opt(stop_reason) {
            Some(s) => Some(spec_stop_reason(s)),
            None => None,
        }),
        r@.usage == answer_usage(usage),
{
    let mut blocks: Vec<ResponseContent> = Vec::new();
    match content {
        Some(v) => {
            let ghost all = api_contents_view(v@);
            let mut rest = v;
            let ghost mut k: int = 0;
            while rest.len() > 0
                invariant
                    0 <= k <= all.len(),
                    api_contents_view(rest@) == all.skip(k),
                    blocks_view(blocks@) == response_blocks(all.take(k)),
                decreases rest.len(),
            {
                let ghost before = rest@;
                assert(api_contents_view(before).len() == before.len());
                let b = rest.remove(0);
                proof {
                    assert(k < all.len());
                    assert(all.skip(k)[0] == b@);
                    assert forall|j: int| 0 <= j < rest@.len() implies #[trigger] rest@[j]@ == all[k
                        + 1 + j] by {
                        assert(rest@[j] == before[j + 1]);
                        assert(api_contents_view(before)[j + 1] == all.skip(k)[j + 1]);
                    }
                    assert(all.take(k + 1).drop_last() =~= all.take(k));
                    assert(api_contents_view(rest@) =~= all.skip(k + 1));
                }
                let m = map_content_block(b);
                match m {
                    Some(c) => {
                        blocks.push(c);
                        assert(blocks_view(blocks@) =~= response_blocks(all.take(k)).push(
                            blocks@.last()@,
                        ));
                    },
                    None => {},
                }
                proof {
                    k = k + 1;
                }
            }
            assert(all.take(k) =~= all);
        },
        None => {},
    }
    let stop = match stop_reason {
        Some(s) => Some(parse_stop_reason(s.as_str())),
        None => None,
    };
    let u = match usage {
        Some(t) => usage_from(t),
        None => Usage { input_tokens: 0, output_tokens: 0 },
    };
    let id_text = match id {
        Some(s) => s,
        None => String::new(),
    };
    ModelResponse { id: id_text, content: blocks, stop_reason: stop, usage: u }
}

} // verus!
