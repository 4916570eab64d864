//! Requests to OpenRouter and its streamed answers.
use vstd::prelude::*;
use vstd::string::StringExecFns;
use crate::cost::Usage;
use crate::model::{call_models, definitions, messages, stop, CallModel, Failure, ModelFailure, ModelFailureClass, ModelMessage, ModelRequest, ModelResponse, ModelResult, RequestModel, ResponseModel, ToolCall, ToolDefinition, ToolDefinitionModel};
use crate::text::{blank, concat2, has_prefix, is_blank, join, join_texts, opt_text, split_lines, starts_with, str_eq, strip_prefix, text_lines, texts, trim_start, trimmed_start};
use crate::value::{as_unsigned, field, lemma_model, members, parse_json, parsed_json, values, Json, JsonModel, Member};

verus! {

/// Where completions are asked for.
pub const OPENROUTER_COMPLETIONS_URL: &'static str = "https://openrouter.ai/api/v1/chat/completions";

/// Where requests go.
#[derive(Debug)]
pub struct OpenRouterConfig {
    endpoint: String,
}

impl View for OpenRouterConfig {
    type V = Seq<char>;

    closed spec fn view(&self) -> Seq<char> {
        self.endpoint@
    }
}

impl OpenRouterConfig {
    /// Returns the configuration for production.
    pub fn production() -> (r: OpenRouterConfig)
        ensures
            r@ == OPENROUTER_COMPLETIONS_URL@,
    {
        OpenRouterConfig { endpoint: OPENROUTER_COMPLETIONS_URL.to_owned() }
    }

    /// Returns a configuration for another endpoint.
    pub fn for_test(endpoint: String) -> (r: OpenRouterConfig)
        ensures
            r@ == endpoint@,
    {
        OpenRouterConfig { endpoint }
    }

    /// Returns the endpoint.
    pub fn endpoint(&self) -> (r: &str)
        ensures
            r@ == self@,
    {
        self.endpoint.as_str()
    }
}

/// Returns the authorization header for a key.
pub fn authorization(api_key: Option<&str>) -> (r: ModelResult<String>)
    ensures
        match api_key {
            None => r is Err && r->Err_0@ == (
                ModelFailureClass::Stopped,
                "OPENROUTER_API_KEY is not configured"@,
            ),
            Some(key) => if key@.len() == 0 {
                r is Err && r->Err_0@ == (
                    ModelFailureClass::Stopped,
                    "OPENROUTER_API_KEY is empty"@,
                )
            } else {
                r is Ok && r->Ok_0@ == "Bearer "@ + key@
            },
        },
{
    match api_key {
        None => stop("OPENROUTER_API_KEY is not configured"),
        Some(key) => {
            proof {
                reveal_strlit("");
                assert(key@.len() == 0 ==> key@ =~= ""@);
            }
            if str_eq(key, "") {
                return stop("OPENROUTER_API_KEY is empty");
            }
            Ok(concat2("Bearer ", key))
        },
    }
}

/// What keeps a request from being sent.
pub open spec fn request_error(request: RequestModel) -> Option<Seq<char>> {
    if is_blank(request.model) {
        Some("model ID is empty"@)
    } else if request.messages.len() == 0 {
        Some("model request has no messages"@)
    } else {
        None
    }
}

/// Checks that a request can be sent.
pub fn validate_request(request: &ModelRequest) -> (r: ModelResult<()>)
    ensures
        match request_error(request@) {
            Some(message) => r is Err && r->Err_0@ == (ModelFailureClass::Stopped, message),
            None => r is Ok,
        },
{
    if blank(request.model.as_str()) {
        return stop("model ID is empty");
    }
    if request.messages.len() == 0 {
        return stop("model request has no messages");
    }
    Ok(())
}

/// Returns the failure of a transport error: the request may have been carried out.
pub fn transport_failure(error: &str) -> (r: ModelFailure)
    ensures
        r@ == (ModelFailureClass::Ambiguous, "OpenRouter transport failure: "@ + error@),
{
    ModelFailure::ambiguous(concat2("OpenRouter transport failure: ", error))
}

/// Returns the failure of an HTTP status that reports no success.
pub fn status_failure(status: &str) -> (r: ModelFailure)
    ensures
        r@ == (ModelFailureClass::Stopped, "OpenRouter returned HTTP "@ + status@),
{
    ModelFailure::stopped(concat2("OpenRouter returned HTTP ", status))
}

/// Returns the failure of a stream that cannot be read.
pub fn stream_failure(error: &str) -> (r: ModelFailure)
    ensures
        r@ == (ModelFailureClass::Stopped, "malformed OpenRouter SSE stream: "@ + error@),
{
    ModelFailure::stopped(concat2("malformed OpenRouter SSE stream: ", error))
}

/// The JSON value of a message.
pub open spec fn message_json(message: (Seq<char>, Seq<char>)) -> JsonModel {
    JsonModel::Object(
        seq![("content"@, JsonModel::Text(message.1)), ("role"@, JsonModel::Text(message.0))],
    )
}

/// The JSON value of a tool.
pub open spec fn tool_json(tool: ToolDefinitionModel) -> JsonModel {
    JsonModel::Object(
        seq![
            (
                "function"@,
                JsonModel::Object(
                    seq![
                        ("description"@, JsonModel::Text(tool.description)),
                        ("name"@, JsonModel::Text(tool.name)),
                        ("parameters"@, tool.input_schema),
                    ],
                ),
            ),
            ("type"@, JsonModel::Text("function"@)),
        ],
    )
}

/// The JSON value of a request: streamed, without fallbacks and without context compression.
pub open spec fn request_json(request: RequestModel) -> JsonModel {
    JsonModel::Object(
        seq![
            (
                "messages"@,
                JsonModel::Array(
                    request.messages.map_values(|item: (Seq<char>, Seq<char>)| message_json(item)),
                ),
            ),
            ("model"@, JsonModel::Text(request.model)),
            (
                "plugins"@,
                JsonModel::Array(
                    seq![
                        JsonModel::Object(
                            seq![
                                ("enabled"@, JsonModel::Bool(false)),
                                ("id"@, JsonModel::Text("context-compression"@)),
                            ],
                        ),
                    ],
                ),
            ),
            (
                "provider"@,
                JsonModel::Object(
                    seq![
                        ("allow_fallbacks"@, JsonModel::Bool(false)),
                        ("require_parameters"@, JsonModel::Bool(true)),
                    ],
                ),
            ),
            ("stream"@, JsonModel::Bool(true)),
            (
                "tools"@,
                JsonModel::Array(
                    request.tools.map_values(|item: ToolDefinitionModel| tool_json(item)),
                ),
            ),
        ],
    )
}

fn entry(name: &str, value: Json) -> (r: Member)
    ensures
        r.name@ == name@,
        r.value == value,
{
    Member { name: name.to_owned(), value }
}

fn object2(first: Member, second: Member) -> (r: Json)
    ensures
        r@ == JsonModel::Object(
            seq![(first.name@, first.value@), (second.name@, second.value@)],
        ),
{
    let ghost goal = seq![(first.name@, first.value@), (second.name@, second.value@)];
    let mut list: Vec<Member> = Vec::new();
    list.push(first);
    list.push(second);
    assert(members(list@) =~= goal);
    let value = Json::Object(list);
    proof {
        lemma_model(value);
    }
    value
}

fn message_body(message: &ModelMessage) -> (r: Json)
    ensures
        r@ == message_json(message@),
{
    object2(
        entry("content", Json::Text(message.content.clone())),
        entry("role", Json::Text(message.role.clone())),
    )
}

fn tool_body(tool: &ToolDefinition) -> (r: Json)
    ensures
        r@ == tool_json(tool@),
{
    let mut list: Vec<Member> = Vec::new();
    list.push(entry("description", Json::Text(tool.description.clone())));
    list.push(entry("name", Json::Text(tool.name.clone())));
    list.push(entry("parameters", tool.input_schema.copy()));
    assert(members(list@) =~= seq![
        ("description"@, JsonModel::Text(tool@.description)),
        ("name"@, JsonModel::Text(tool@.name)),
        ("parameters"@, tool@.input_schema),
    ]);
    let function = Json::Object(list);
    proof {
        lemma_model(function);
    }
    object2(entry("function", function), entry("type", Json::Text("function".to_owned())))
}

fn message_bodies(items: &[ModelMessage]) -> (r: Json)
    ensures
        r@ == JsonModel::Array(
            messages(items@).map_values(|item: (Seq<char>, Seq<char>)| message_json(item)),
        ),
{
    let ghost goal = messages(items@).map_values(
        |item: (Seq<char>, Seq<char>)| message_json(item),
    );
    let mut out: Vec<Json> = Vec::new();
    let mut i: usize = 0;
    while i < items.len()
        invariant
            i <= items@.len(),
            out@.len() == i,
            forall|k: int| 0 <= k < i ==> #[trigger] out@[k]@ == message_json(items@[k]@),
        decreases items@.len() - i,
    {
        out.push(message_body(&items[i]));
        i += 1;
    }
    assert(values(out@) =~= goal);
    let value = Json::Array(out);
    proof {
        lemma_model(value);
    }
    value
}

fn tool_bodies(items: &[ToolDefinition]) -> (r: Json)
    ensures
        r@ == JsonModel::Array(
            definitions(items@).map_values(|item: ToolDefinitionModel| tool_json(item)),
        ),
{
    let ghost goal = definitions(items@).map_values(|item: ToolDefinitionModel| tool_json(item));
    let mut out: Vec<Json> = Vec::new();
    let mut i: usize = 0;
    while i < items.len()
        invariant
            i <= items@.len(),
            out@.len() == i,
            forall|k: int| 0 <= k < i ==> #[trigger] out@[k]@ == tool_json(items@[k]@),
        decreases items@.len() - i,
    {
        out.push(tool_body(&items[i]));
        i += 1;
    }
    assert(values(out@) =~= goal);
    let value = Json::Array(out);
    proof {
        lemma_model(value);
    }
    value
}

/// Returns the JSON value of a request.
pub fn request_body(request: &ModelRequest) -> (r: Json)
    ensures
        r@ == request_json(request@),
{
    let plugin = object2(
        entry("enabled", Json::Bool(false)),
        entry("id", Json::Text("context-compression".to_owned())),
    );
    let mut plugins: Vec<Json> = Vec::new();
    plugins.push(plugin);
    let ghost plugin_models = seq![plugin@];
    assert(values(plugins@) =~= plugin_models);
    let plugin_list = Json::Array(plugins);
    proof {
        lemma_model(plugin_list);
    }
    let provider = object2(
        entry("allow_fallbacks", Json::Bool(false)),
        entry("require_parameters", Json::Bool(true)),
    );
    let mut list: Vec<Member> = Vec::new();
    list.push(entry("messages", message_bodies(request.messages.as_slice())));
    list.push(entry("model", Json::Text(request.model.clone())));
    list.push(entry("plugins", plugin_list));
    list.push(entry("provider", provider));
    list.push(entry("stream", Json::Bool(true)));
    list.push(entry("tools", tool_bodies(request.tools.as_slice())));
    assert(members(list@) =~= request_json(request@)->Object_0);
    let value = Json::Object(list);
    proof {
        lemma_model(value);
    }
    value
}

/// The first of two members that is there.
pub open spec fn either(value: JsonModel, first: Seq<char>, second: Seq<char>) -> Option<JsonModel> {
    match field(value, first) {
        Some(found) => Some(found),
        None => field(value, second),
    }
}

/// The unsigned integer that an optional value holds.
pub open spec fn count_of(value: Option<JsonModel>) -> Option<u64> {
    match value {
        Some(found) => as_unsigned(found),
        None => None,
    }
}

/// The usage that a provider reports.
pub open spec fn usage_of(value: JsonModel) -> Result<Usage, Seq<char>> {
    if !(value is Object) {
        Err("OpenRouter usage is not an object"@)
    } else {
        match count_of(either(value, "prompt_tokens"@, "input_tokens"@)) {
            None => Err("OpenRouter usage has no input token count"@),
            Some(input_tokens) => match count_of(
                either(value, "completion_tokens"@, "output_tokens"@),
            ) {
                None => Err("OpenRouter usage has no output token count"@),
                Some(output_tokens) => Ok(
                    Usage { input_tokens: input_tokens, output_tokens: output_tokens },
                ),
            },
        }
    }
}

fn count_in(value: &Json, first: &str, second: &str) -> (r: Option<u64>)
    ensures
        r == count_of(either(value@, first@, second@)),
{
    match value.get(first) {
        Some(found) => found.as_u64(),
        None => match value.get(second) {
            Some(found) => found.as_u64(),
            None => None,
        },
    }
}

fn parse_usage(value: &Json) -> (r: ModelResult<Usage>)
    ensures
        match usage_of(value@) {
            Ok(usage) => r == Ok::<Usage, ModelFailure>(usage),
            Err(message) => r is Err && r->Err_0@ == (ModelFailureClass::Stopped, message),
        },
{
    if !matches!(value, Json::Object(_)) {
        return stop("OpenRouter usage is not an object");
    }
    match count_in(value, "prompt_tokens", "input_tokens") {
        None => stop("OpenRouter usage has no input token count"),
        Some(input_tokens) => match count_in(value, "completion_tokens", "output_tokens") {
            None => stop("OpenRouter usage has no output token count"),
            Some(output_tokens) => Ok(Usage { input_tokens, output_tokens }),
        },
    }
}

/// What has arrived of a call of a tool.
pub struct ToolPart {
    pub index: usize,
    pub id: Option<Seq<char>>,
    pub name: Option<Seq<char>>,
    pub arguments: Seq<char>,
}

/// What has arrived of a choice: its text, and its calls in the order of their indices.
pub struct ChoicePart {
    pub index: usize,
    pub text: Seq<char>,
    pub tools: Seq<ToolPart>,
}

/// What has arrived of an answer: its choices in the order of their indices.
pub struct SseModel {
    pub choices: Seq<ChoicePart>,
    pub usage: Option<Usage>,
    pub done: bool,
}

/// Where a call with an index stands or belongs, from a position on.
pub open spec fn tool_slot(tools: Seq<ToolPart>, index: usize, i: int) -> int
    decreases tools.len() - i,
{
    if i < 0 || i >= tools.len() {
        tools.len() as int
    } else if tools[i].index >= index {
        i
    } else {
        tool_slot(tools, index, i + 1)
    }
}

/// Where a choice with an index stands or belongs, from a position on.
pub open spec fn choice_slot(choices: Seq<ChoicePart>, index: usize, i: int) -> int
    decreases choices.len() - i,
{
    if i < 0 || i >= choices.len() {
        choices.len() as int
    } else if choices[i].index >= index {
        i
    } else {
        choice_slot(choices, index, i + 1)
    }
}

/// The text of an optional member: nothing where the member is absent.
pub open spec fn text_member(value: JsonModel, name: Seq<char>) -> Result<Option<Seq<char>>, ()> {
    match field(value, name) {
        None => Ok(None),
        Some(JsonModel::Text(text)) => Ok(Some(text)),
        Some(_) => Err(()),
    }
}

fn get_text(value: &Json, name: &str) -> (r: Result<Option<String>, ()>)
    ensures
        match r {
            Ok(text) => text_member(value@, name@) == Ok::<Option<Seq<char>>, ()>(opt_text(text)),
            Err(_) => text_member(value@, name@) is Err,
        },
{
    match value.get(name) {
        None => Ok(None),
        Some(Json::Text(text)) => Ok(Some(text.clone())),
        Some(_) => Err(()),
    }
}

/// A call with the id, the name and the arguments of a delta.
pub open spec fn tool_with(part: ToolPart, call: JsonModel) -> Result<ToolPart, Seq<char>> {
    match text_member(call, "id"@) {
        Err(_) => Err("OpenRouter tool call ID is not text"@),
        Ok(id) => {
            let named = ToolPart {
                id: if id is Some {
                    id
                } else {
                    part.id
                },
                ..part
            };
            match field(call, "function"@) {
                None => Ok(named),
                Some(function) => function_with(named, function),
            }
        },
    }
}

/// A call with the name and the arguments of a function delta.
pub open spec fn function_with(part: ToolPart, function: JsonModel) -> Result<ToolPart, Seq<char>> {
    if !(function is Object) {
        Err("OpenRouter function delta is not an object"@)
    } else {
        match text_member(function, "name"@) {
            Err(_) => Err("OpenRouter tool name is not text"@),
            Ok(name) => match text_member(function, "arguments"@) {
                Err(_) => Err("OpenRouter tool arguments are not text"@),
                Ok(arguments) => Ok(
                    ToolPart {
                        name: match name {
                            Some(more) => Some(
                                match part.name {
                                    Some(text) => text + more,
                                    None => more,
                                },
                            ),
                            None => part.name,
                        },
                        arguments: match arguments {
                            Some(more) => part.arguments + more,
                            None => part.arguments,
                        },
                        ..part
                    },
                ),
            },
        }
    }
}

/// The calls after a delta of one call.
pub open spec fn tools_after(tools: Seq<ToolPart>, call: JsonModel) -> Result<
    Seq<ToolPart>,
    Seq<char>,
> {
    if !(call is Object) {
        Err("OpenRouter tool call is not an object"@)
    } else {
        match count_of(field(call, "index"@)) {
            None => Err("OpenRouter tool call has no index"@),
            Some(number) => if number > usize::MAX {
                Err("OpenRouter tool index is too large"@)
            } else {
                let index = number as usize;
                let p = tool_slot(tools, index, 0);
                if 0 <= p < tools.len() && tools[p].index == index {
                    match tool_with(tools[p], call) {
                        Ok(part) => Ok(tools.update(p, part)),
                        Err(message) => Err(message),
                    }
                } else {
                    match tool_with(empty_tool(index), call) {
                        Ok(part) => Ok(tools.insert(p, part)),
                        Err(message) => Err(message),
                    }
                }
            },
        }
    }
}

/// A call of which nothing has arrived.
pub open spec fn empty_tool(index: usize) -> ToolPart {
    ToolPart { index: index, id: None, name: None, arguments: Seq::empty() }
}

/// The calls after the deltas of a list, from a position on.
pub open spec fn tools_after_all(tools: Seq<ToolPart>, calls: Seq<JsonModel>, i: int) -> Result<
    Seq<ToolPart>,
    Seq<char>,
>
    decreases calls.len() - i,
{
    if i < 0 || i >= calls.len() {
        Ok(tools)
    } else {
        match tools_after(tools, calls[i]) {
            Ok(next) => tools_after_all(next, calls, i + 1),
            Err(message) => Err(message),
        }
    }
}

/// A choice with the content and the calls of a delta.
pub open spec fn choice_with(part: ChoicePart, delta: JsonModel) -> Result<ChoicePart, Seq<char>> {
    match field(delta, "content"@) {
        None => choice_calls(part, delta),
        Some(JsonModel::Null) => choice_calls(part, delta),
        Some(JsonModel::Text(text)) => choice_calls(
            ChoicePart { text: part.text + text, ..part },
            delta,
        ),
        Some(_) => Err("OpenRouter content delta is not text"@),
    }
}

/// A choice with the calls of a delta.
pub open spec fn choice_calls(part: ChoicePart, delta: JsonModel) -> Result<ChoicePart, Seq<char>> {
    match field(delta, "tool_calls"@) {
        None => Ok(part),
        Some(JsonModel::Array(calls)) => match tools_after_all(part.tools, calls, 0) {
            Ok(tools) => Ok(ChoicePart { tools: tools, ..part }),
            Err(message) => Err(message),
        },
        Some(_) => Err("OpenRouter tool_calls delta is not an array"@),
    }
}

/// A choice of which nothing has arrived.
pub open spec fn empty_choice(index: usize) -> ChoicePart {
    ChoicePart { index: index, text: Seq::empty(), tools: Seq::empty() }
}

/// The choices after a delta of one choice.
pub open spec fn choices_after(choices: Seq<ChoicePart>, choice: JsonModel) -> Result<
    Seq<ChoicePart>,
    Seq<char>,
> {
    if !(choice is Object) {
        Err("OpenRouter choice is not an object"@)
    } else {
        match count_of(field(choice, "index"@)) {
            None => Err("OpenRouter choice has no index"@),
            Some(number) => if number > usize::MAX {
                Err("OpenRouter choice index is too large"@)
            } else {
                match field(choice, "delta"@) {
                    Some(JsonModel::Object(list)) => {
                        let delta = JsonModel::Object(list);
                        let index = number as usize;
                        let p = choice_slot(choices, index, 0);
                        if 0 <= p < choices.len() && choices[p].index == index {
                            match choice_with(choices[p], delta) {
                                Ok(part) => Ok(choices.update(p, part)),
                                Err(message) => Err(message),
                            }
                        } else {
                            match choice_with(empty_choice(index), delta) {
                                Ok(part) => Ok(choices.insert(p, part)),
                                Err(message) => Err(message),
                            }
                        }
                    },
                    _ => Err("OpenRouter choice has no delta"@),
                }
            },
        }
    }
}

/// The choices after the deltas of a list, from a position on.
pub open spec fn choices_after_all(
    choices: Seq<ChoicePart>,
    list: Seq<JsonModel>,
    i: int,
) -> Result<Seq<ChoicePart>, Seq<char>>
    decreases list.len() - i,
{
    if i < 0 || i >= list.len() {
        Ok(choices)
    } else {
        match choices_after(choices, list[i]) {
            Ok(next) => choices_after_all(next, list, i + 1),
            Err(message) => Err(message),
        }
    }
}

/// What has arrived after a payload.
pub open spec fn after_payload(state: SseModel, payload: JsonModel) -> Result<SseModel, Seq<char>> {
    match field(payload, "usage"@) {
        None => after_choices(state, payload),
        Some(value) => match usage_of(value) {
            Ok(usage) => after_choices(SseModel { usage: Some(usage), ..state }, payload),
            Err(message) => Err(message),
        },
    }
}

/// What has arrived after the choices of a payload.
pub open spec fn after_choices(state: SseModel, payload: JsonModel) -> Result<SseModel, Seq<char>> {
    match field(payload, "choices"@) {
        Some(JsonModel::Array(list)) => if list.len() == 0 && state.usage is None {
            Err("OpenRouter SSE payload has empty choices"@)
        } else {
            match choices_after_all(state.choices, list, 0) {
                Ok(choices) => Ok(SseModel { choices: choices, ..state }),
                Err(message) => Err(message),
            }
        },
        _ => Err("OpenRouter SSE payload has no choices"@),
    }
}

/// What has arrived after an event, given its payload where the data are a JSON document.
pub open spec fn after_event(
    state: SseModel,
    event: Seq<char>,
    data: Seq<char>,
    payload: Option<JsonModel>,
) -> Result<SseModel, Seq<char>> {
    if state.done {
        Err("received SSE data after [DONE]"@)
    } else if event == "error"@ {
        Err("OpenRouter sent an SSE error event"@)
    } else if data == "[DONE]"@ {
        Ok(SseModel { done: true, ..state })
    } else {
        match payload {
            None => Err("malformed OpenRouter SSE payload"@),
            Some(value) => after_payload(state, value),
        }
    }
}

/// What has arrived of a call of a tool.
#[derive(Debug)]
pub struct ToolAccumulator {
    index: usize,
    id: Option<String>,
    name: Option<String>,
    arguments: String,
}

impl View for ToolAccumulator {
    type V = ToolPart;

    closed spec fn view(&self) -> ToolPart {
        ToolPart {
            index: self.index,
            id: opt_text(self.id),
            name: opt_text(self.name),
            arguments: self.arguments@,
        }
    }
}

/// What has arrived of a choice.
#[derive(Debug)]
pub struct ChoiceAccumulator {
    index: usize,
    text: String,
    tools: Vec<ToolAccumulator>,
}

spec fn tool_parts(items: Seq<ToolAccumulator>) -> Seq<ToolPart> {
    items.map_values(|item: ToolAccumulator| item@)
}

impl View for ChoiceAccumulator {
    type V = ChoicePart;

    closed spec fn view(&self) -> ChoicePart {
        ChoicePart { index: self.index, text: self.text@, tools: tool_parts(self.tools@) }
    }
}

spec fn choice_parts(items: Seq<ChoiceAccumulator>) -> Seq<ChoicePart> {
    items.map_values(|item: ChoiceAccumulator| item@)
}

/// What has arrived of an answer.
#[derive(Debug)]
pub struct SseAccumulator {
    choices: Vec<ChoiceAccumulator>,
    usage: Option<Usage>,
    done: bool,
}

impl View for SseAccumulator {
    type V = SseModel;

    closed spec fn view(&self) -> SseModel {
        SseModel { choices: choice_parts(self.choices@), usage: self.usage, done: self.done }
    }
}

fn feed_function(tool: ToolAccumulator, function: &Json) -> (r: Result<ToolAccumulator, &'static str>)
    ensures
        match r {
            Ok(part) => function_with(tool@, function@) == Ok::<ToolPart, Seq<char>>(part@),
            Err(message) => function_with(tool@, function@) == Err::<ToolPart, Seq<char>>(message@),
        },
{
    if !matches!(function, Json::Object(_)) {
        return Err("OpenRouter function delta is not an object");
    }
    let mut tool = tool;
    match get_text(function, "name") {
        Err(_) => {
            return Err("OpenRouter tool name is not text");
        },
        Ok(None) => {},
        Ok(Some(more)) => {
            let name = match tool.name {
                Some(text) => concat2(text.as_str(), more.as_str()),
                None => more,
            };
            tool.name = Some(name);
        },
    }
    match get_text(function, "arguments") {
        Err(_) => {
            return Err("OpenRouter tool arguments are not text");
        },
        Ok(None) => {},
        Ok(Some(more)) => {
            tool.arguments.append(more.as_str());
        },
    }
    Ok(tool)
}

fn feed_call(tool: ToolAccumulator, call: &Json) -> (r: Result<ToolAccumulator, &'static str>)
    ensures
        match r {
            Ok(part) => tool_with(tool@, call@) == Ok::<ToolPart, Seq<char>>(part@),
            Err(message) => tool_with(tool@, call@) == Err::<ToolPart, Seq<char>>(message@),
        },
{
    let mut tool = tool;
    match get_text(call, "id") {
        Err(_) => {
            return Err("OpenRouter tool call ID is not text");
        },
        Ok(None) => {},
        Ok(Some(id)) => {
            tool.id = Some(id);
        },
    }
    match call.get("function") {
        None => Ok(tool),
        Some(function) => feed_function(tool, function),
    }
}

fn count_member(value: &Json, name: &str) -> (r: Option<u64>)
    ensures
        r == count_of(field(value@, name@)),
{
    match value.get(name) {
        Some(found) => found.as_u64(),
        None => None,
    }
}

fn feed_tool(tools: Vec<ToolAccumulator>, call: &Json) -> (r: Result<
    Vec<ToolAccumulator>,
    &'static str,
>)
    ensures
        match r {
            Ok(next) => tools_after(tool_parts(tools@), call@) == Ok::<Seq<ToolPart>, Seq<char>>(
                tool_parts(next@),
            ),
            Err(message) => tools_after(tool_parts(tools@), call@) == Err::<
                Seq<ToolPart>,
                Seq<char>,
            >(message@),
        },
{
    if !matches!(call, Json::Object(_)) {
        return Err("OpenRouter tool call is not an object");
    }
    let number: u64 = match count_member(call, "index") {
        None => {
            return Err("OpenRouter tool call has no index");
        },
        Some(number) => number,
    };
    if number > usize::MAX as u64 {
        return Err("OpenRouter tool index is too large");
    }
    let index: usize = number as usize;
    let ghost all = tool_parts(tools@);
    let mut tools = tools;
    let mut p: usize = 0;
    while p < tools.len() && tools[p].index < index
        invariant
            p <= tools@.len(),
            all == tool_parts(tools@),
            tool_slot(all, index, 0) == tool_slot(all, index, p as int),
        decreases tools@.len() - p,
    {
        assert(all[p as int] == tools@[p as int]@);
        p += 1;
    }
    if p < tools.len() {
        assert(all[p as int] == tools@[p as int]@);
    }
    assert(tool_slot(all, index, 0) == p);
    if p < tools.len() && tools[p].index == index {
        let current = tools.remove(p);
        let part = feed_call(current, call)?;
        let ghost item = part@;
        tools.insert(p, part);
        assert(tool_parts(tools@) =~= all.update(p as int, item));
    } else {
        let part = feed_call(
            ToolAccumulator { index, id: None, name: None, arguments: String::new() },
            call,
        )?;
        let ghost item = part@;
        tools.insert(p, part);
        assert(tool_parts(tools@) =~= all.insert(p as int, item));
    }
    Ok(tools)
}

fn feed_tools(tools: Vec<ToolAccumulator>, calls: &[Json]) -> (r: Result<
    Vec<ToolAccumulator>,
    &'static str,
>)
    ensures
        match r {
            Ok(next) => tools_after_all(tool_parts(tools@), values(calls@), 0) == Ok::<
                Seq<ToolPart>,
                Seq<char>,
            >(tool_parts(next@)),
            Err(message) => tools_after_all(tool_parts(tools@), values(calls@), 0) == Err::<
                Seq<ToolPart>,
                Seq<char>,
            >(message@),
        },
{
    let ghost goal = tools_after_all(tool_parts(tools@), values(calls@), 0);
    let mut current = tools;
    let mut i: usize = 0;
    while i < calls.len()
        invariant
            i <= calls@.len(),
            goal == tools_after_all(tool_parts(tools@), values(calls@), 0),
            goal == tools_after_all(tool_parts(current@), values(calls@), i as int),
        decreases calls@.len() - i,
    {
        assert(values(calls@)[i as int] == calls@[i as int]@);
        current = feed_tool(current, &calls[i])?;
        i += 1;
    }
    Ok(current)
}

fn feed_delta(choice: ChoiceAccumulator, delta: &Json) -> (r: Result<
    ChoiceAccumulator,
    &'static str,
>)
    ensures
        match r {
            Ok(part) => choice_with(choice@, delta@) == Ok::<ChoicePart, Seq<char>>(part@),
            Err(message) => choice_with(choice@, delta@) == Err::<ChoicePart, Seq<char>>(message@),
        },
{
    let ChoiceAccumulator { index, text, tools } = choice;
    let mut text = text;
    match delta.get("content") {
        None => {},
        Some(Json::Null) => {},
        Some(Json::Text(more)) => {
            text.append(more.as_str());
        },
        Some(_) => {
            return Err("OpenRouter content delta is not text");
        },
    }
    match delta.get("tool_calls") {
        None => Ok(ChoiceAccumulator { index, text, tools }),
        Some(value) => {
            proof {
                lemma_model(*value);
            }
            match value {
                Json::Array(calls) => {
                    let next = feed_tools(tools, calls.as_slice())?;
                    Ok(ChoiceAccumulator { index, text, tools: next })
                },
                _ => Err("OpenRouter tool_calls delta is not an array"),
            }
        },
    }
}

fn feed_choice(choices: Vec<ChoiceAccumulator>, choice: &Json) -> (r: Result<
    Vec<ChoiceAccumulator>,
    &'static str,
>)
    ensures
        match r {
            Ok(next) => choices_after(choice_parts(choices@), choice@) == Ok::<
                Seq<ChoicePart>,
                Seq<char>,
            >(choice_parts(next@)),
            Err(message) => choices_after(choice_parts(choices@), choice@) == Err::<
                Seq<ChoicePart>,
                Seq<char>,
            >(message@),
        },
{
    if !matches!(choice, Json::Object(_)) {
        return Err("OpenRouter choice is not an object");
    }
    let number: u64 = match count_member(choice, "index") {
        None => {
            return Err("OpenRouter choice has no index");
        },
        Some(number) => number,
    };
    if number > usize::MAX as u64 {
        return Err("OpenRouter choice index is too large");
    }
    let index: usize = number as usize;
    let delta = match choice.get("delta") {
        None => {
            return Err("OpenRouter choice has no delta");
        },
        Some(delta) => delta,
    };
    proof {
        lemma_model(*delta);
    }
    if !matches!(delta, Json::Object(_)) {
        return Err("OpenRouter choice has no delta");
    }
    let ghost all = choice_parts(choices@);
    let mut choices = choices;
    let mut p: usize = 0;
    while p < choices.len() && choices[p].index < index
        invariant
            p <= choices@.len(),
            all == choice_parts(choices@),
            choice_slot(all, index, 0) == choice_slot(all, index, p as int),
        decreases choices@.len() - p,
    {
        assert(all[p as int] == choices@[p as int]@);
        p += 1;
    }
    if p < choices.len() {
        assert(all[p as int] == choices@[p as int]@);
    }
    assert(choice_slot(all, index, 0) == p);
    if p < choices.len() && choices[p].index == index {
        let current = choices.remove(p);
        let part = feed_delta(current, delta)?;
        let ghost item = part@;
        choices.insert(p, part);
        assert(choice_parts(choices@) =~= all.update(p as int, item));
    } else {
        let fresh = ChoiceAccumulator { index, text: String::new(), tools: Vec::new() };
        assert(fresh@.tools =~= Seq::empty());
        let part = feed_delta(fresh, delta)?;
        let ghost item = part@;
        choices.insert(p, part);
        assert(choice_parts(choices@) =~= all.insert(p as int, item));
    }
    Ok(choices)
}

fn feed_choices(choices: Vec<ChoiceAccumulator>, list: &[Json]) -> (r: Result<
    Vec<ChoiceAccumulator>,
    &'static str,
>)
    ensures
        match r {
            Ok(next) => choices_after_all(choice_parts(choices@), values(list@), 0) == Ok::<
                Seq<ChoicePart>,
                Seq<char>,
            >(choice_parts(next@)),
            Err(message) => choices_after_all(choice_parts(choices@), values(list@), 0) == Err::<
                Seq<ChoicePart>,
                Seq<char>,
            >(message@),
        },
{
    let ghost goal = choices_after_all(choice_parts(choices@), values(list@), 0);
    let mut current = choices;
    let mut i: usize = 0;
    while i < list.len()
        invariant
            i <= list@.len(),
            goal == choices_after_all(choice_parts(choices@), values(list@), 0),
            goal == choices_after_all(choice_parts(current@), values(list@), i as int),
        decreases list@.len() - i,
    {
        assert(values(list@)[i as int] == list@[i as int]@);
        current = feed_choice(current, &list[i])?;
        i += 1;
    }
    Ok(current)
}

/// The first calls of a list, or what is missing from the first incomplete one, given the value
/// that the arguments of each call denote.
pub open spec fn calls_of(
    tools: Seq<ToolPart>,
    arguments: Seq<Option<JsonModel>>,
    i: int,
) -> Result<Seq<CallModel>, Seq<char>>
    decreases i,
{
    if i <= 0 {
        Ok(Seq::empty())
    } else {
        match calls_of(tools, arguments, i - 1) {
            Err(message) => Err(message),
            Ok(before) => match (tools[i - 1].name, arguments[i - 1]) {
                (None, _) => Err("OpenRouter tool call has no name"@),
                (Some(_), None) => Err("OpenRouter tool call arguments are invalid JSON"@),
                (Some(name), Some(value)) => Ok(
                    before.push(
                        CallModel { id: tools[i - 1].id, name: name, arguments: value },
                    ),
                ),
            },
        }
    }
}

/// The texts of the arguments of the calls of choice zero.
pub open spec fn argument_texts(state: SseModel) -> Seq<Seq<char>> {
    let p = choice_slot(state.choices, 0, 0);
    if 0 <= p < state.choices.len() && state.choices[p].index == 0 {
        state.choices[p].tools.map_values(|part: ToolPart| part.arguments)
    } else {
        Seq::empty()
    }
}

/// The answer of a stream that ended, given the value that the arguments of each call denote.
pub open spec fn answer_of(state: SseModel, arguments: Seq<Option<JsonModel>>) -> Result<
    ResponseModel,
    Failure,
> {
    let p = choice_slot(state.choices, 0, 0);
    if !state.done {
        Err((ModelFailureClass::Ambiguous, "OpenRouter stream ended before [DONE]"@))
    } else if !(0 <= p < state.choices.len() && state.choices[p].index == 0) {
        Err((ModelFailureClass::Stopped, "OpenRouter completion has no choice zero"@))
    } else {
        let choice = state.choices[p];
        match calls_of(choice.tools, arguments, choice.tools.len() as int) {
            Err(message) => Err((ModelFailureClass::Stopped, message)),
            Ok(calls) => if choice.text.len() == 0 && calls.len() == 0 {
                Err((ModelFailureClass::Stopped, "OpenRouter completion is empty"@))
            } else {
                Ok(ResponseModel { text: choice.text, tool_calls: calls, usage: state.usage })
            },
        }
    }
}

/// The answer of a stream that ended.
pub open spec fn finished(state: SseModel) -> Result<ResponseModel, Failure> {
    answer_of(state, argument_texts(state).map_values(|text: Seq<char>| parsed_json(text)))
}

/// The view of an optional value.
pub open spec fn opt_value(value: Option<Json>) -> Option<JsonModel> {
    match value {
        Some(json) => Some(json@),
        None => None,
    }
}

/// The views of optional values.
pub open spec fn opt_values(items: Seq<Option<Json>>) -> Seq<Option<JsonModel>> {
    items.map_values(|item: Option<Json>| opt_value(item))
}

fn collect_calls(tools: &[ToolAccumulator], arguments: Vec<Option<Json>>) -> (r: Result<
    Vec<ToolCall>,
    &'static str,
>)
    requires
        arguments@.len() == tools@.len(),
    ensures
        match r {
            Ok(calls) => calls_of(
                tool_parts(tools@),
                opt_values(arguments@),
                tools@.len() as int,
            ) == Ok::<Seq<CallModel>, Seq<char>>(call_models(calls@)),
            Err(message) => calls_of(
                tool_parts(tools@),
                opt_values(arguments@),
                tools@.len() as int,
            ) == Err::<Seq<CallModel>, Seq<char>>(message@),
        },
{
    let ghost parts = tool_parts(tools@);
    let ghost given = opt_values(arguments@);
    let mut calls: Vec<ToolCall> = Vec::new();
    let mut i: usize = 0;
    assert(call_models(calls@) =~= Seq::<CallModel>::empty());
    while i < tools.len()
        invariant
            i <= tools@.len(),
            arguments@.len() == tools@.len(),
            parts == tool_parts(tools@),
            given == opt_values(arguments@),
            calls_of(parts, given, i as int) == Ok::<Seq<CallModel>, Seq<char>>(
                call_models(calls@),
            ),
        decreases tools@.len() - i,
    {
        assert(parts[i as int] == tools@[i as int]@);
        assert(given[i as int] == opt_value(arguments@[i as int]));
        match (&tools[i].name, &arguments[i]) {
            (None, _) => {
                proof {
                    lemma_calls_stop(parts, given, i + 1, tools@.len() as int);
                }
                return Err("OpenRouter tool call has no name");
            },
            (Some(_), None) => {
                proof {
                    lemma_calls_stop(parts, given, i + 1, tools@.len() as int);
                }
                return Err("OpenRouter tool call arguments are invalid JSON");
            },
            (Some(name), Some(value)) => {
                let id = match &tools[i].id {
                    Some(id) => Some(id.clone()),
                    None => None,
                };
                let ghost before = call_models(calls@);
                let call = ToolCall { id, name: name.clone(), arguments: value.copy() };
                let ghost item = call@;
                calls.push(call);
                assert(call_models(calls@) =~= before.push(item));
            },
        }
        i += 1;
    }
    Ok(calls)
}

proof fn lemma_calls_stop(tools: Seq<ToolPart>, arguments: Seq<Option<JsonModel>>, i: int, n: int)
    requires
        0 <= i <= n,
        calls_of(tools, arguments, i) is Err,
    ensures
        calls_of(tools, arguments, n) == calls_of(tools, arguments, i),
    decreases n - i,
{
    if i < n {
        lemma_calls_stop(tools, arguments, i, n - 1);
    }
}

impl SseAccumulator {
    /// Starts with nothing.
    pub fn new() -> (r: SseAccumulator)
        ensures
            r@ == (SseModel { choices: Seq::empty(), usage: None, done: false }),
    {
        let state = SseAccumulator { choices: Vec::new(), usage: None, done: false };
        assert(state@.choices =~= Seq::empty());
        state
    }

    /// Returns whether the stream has announced its end.
    pub fn done(&self) -> (r: bool)
        ensures
            r == self@.done,
    {
        self.done
    }

    /// Takes in an event, given its payload where the data are a JSON document.
    pub fn feed_parsed(self, event: &str, data: &str, payload: Option<Json>) -> (r: ModelResult<
        SseAccumulator,
    >)
        ensures
            match after_event(self@, event@, data@, opt_value(payload)) {
                Ok(state) => r is Ok && r->Ok_0@ == state,
                Err(message) => r is Err && r->Err_0@ == (ModelFailureClass::Stopped, message),
            },
    {
        let SseAccumulator { choices, usage, done } = self;
        if done {
            return stop("received SSE data after [DONE]");
        }
        if str_eq(event, "error") {
            return stop("OpenRouter sent an SSE error event");
        }
        if str_eq(data, "[DONE]") {
            return Ok(SseAccumulator { choices, usage, done: true });
        }
        let payload = match payload {
            None => {
                return stop("malformed OpenRouter SSE payload");
            },
            Some(payload) => payload,
        };
        let usage = match payload.get("usage") {
            None => usage,
            Some(value) => match parse_usage(value) {
                Ok(usage) => Some(usage),
                Err(failure) => {
                    return Err(failure);
                },
            },
        };
        match payload.get("choices") {
            None => stop("OpenRouter SSE payload has no choices"),
            Some(value) => {
                proof {
                    lemma_model(*value);
                }
                match value {
                    Json::Array(list) => {
                        if list.len() == 0 && usage.is_none() {
                            return stop("OpenRouter SSE payload has empty choices");
                        }
                        match feed_choices(choices, list.as_slice()) {
                            Ok(choices) => Ok(SseAccumulator { choices, usage, done: false }),
                            Err(message) => stop(message),
                        }
                    },
                    _ => stop("OpenRouter SSE payload has no choices"),
                }
            },
        }
    }

    /// Takes in an event.
    pub fn feed(self, event: &str, data: &str) -> (r: ModelResult<SseAccumulator>)
        ensures
            match after_event(self@, event@, data@, parsed_json(data@)) {
                Ok(state) => r is Ok && r->Ok_0@ == state,
                Err(message) => r is Err && r->Err_0@ == (ModelFailureClass::Stopped, message),
            },
    {
        self.feed_parsed(event, data, parse_json(data))
    }

    fn choice_zero(&self) -> (r: Option<usize>)
        ensures
            ({
                let p = choice_slot(self@.choices, 0, 0);
                match r {
                    Some(i) => i == p && i < self.choices@.len() && self@.choices[p].index == 0,
                    None => !(0 <= p < self@.choices.len() && self@.choices[p].index == 0),
                }
            }),
            self@.choices.len() == self.choices@.len(),
    {
        if self.choices.len() > 0 {
            assert(self@.choices[0] == self.choices@[0]@);
            if self.choices[0].index == 0 {
                return Some(0);
            }
        }
        None
    }

    /// Returns the texts of the arguments of the calls that the answer holds.
    pub fn arguments(&self) -> (r: Vec<String>)
        ensures
            texts(r@) == argument_texts(self@),
    {
        let ghost goal = argument_texts(self@);
        let mut out: Vec<String> = Vec::new();
        match self.choice_zero() {
            None => {
                assert(texts(out@) =~= goal);
                out
            },
            Some(p) => {
                let tools = &self.choices[p].tools;
                assert(self@.choices[p as int] == self.choices@[p as int]@);
                let mut i: usize = 0;
                while i < tools.len()
                    invariant
                        i <= tools@.len(),
                        out@.len() == i,
                        forall|k: int|
                            0 <= k < i ==> #[trigger] out@[k]@ == tools@[k].arguments@,
                    decreases tools@.len() - i,
                {
                    out.push(tools[i].arguments.clone());
                    i += 1;
                }
                assert(texts(out@) =~= goal);
                out
            },
        }
    }

    /// Returns the answer of a stream that ended, given the value that the arguments of each call
    /// denote.
    pub fn finish_parsed(self, arguments: Vec<Option<Json>>) -> (r: ModelResult<ModelResponse>)
        requires
            arguments@.len() == argument_texts(self@).len(),
        ensures
            match answer_of(self@, opt_values(arguments@)) {
                Ok(response) => r is Ok && r->Ok_0@ == response,
                Err(failure) => r is Err && r->Err_0@ == failure,
            },
    {
        if !self.done {
            return Err(
                ModelFailure::ambiguous("OpenRouter stream ended before [DONE]".to_owned()),
            );
        }
        match self.choice_zero() {
            None => stop("OpenRouter completion has no choice zero"),
            Some(p) => {
                let choice = &self.choices[p];
                assert(self@.choices[p as int] == choice@);
                match collect_calls(choice.tools.as_slice(), arguments) {
                    Err(message) => stop(message),
                    Ok(tool_calls) => {
                        proof {
                            reveal_strlit("");
                            assert(choice.text@.len() == 0 ==> choice.text@ =~= ""@);
                        }
                        if str_eq(choice.text.as_str(), "") && tool_calls.len() == 0 {
                            return stop("OpenRouter completion is empty");
                        }
                        Ok(
                            ModelResponse {
                                text: choice.text.clone(),
                                tool_calls,
                                usage: self.usage,
                            },
                        )
                    },
                }
            },
        }
    }

    /// Returns the answer of a stream that ended.
    pub fn finish(self) -> (r: ModelResult<ModelResponse>)
        ensures
            match finished(self@) {
                Ok(response) => r is Ok && r->Ok_0@ == response,
                Err(failure) => r is Err && r->Err_0@ == failure,
            },
    {
        let texts_given = self.arguments();
        let ghost goal = argument_texts(self@).map_values(|text: Seq<char>| parsed_json(text));
        let mut parsed: Vec<Option<Json>> = Vec::new();
        let mut i: usize = 0;
        while i < texts_given.len()
            invariant
                i <= texts_given@.len(),
                parsed@.len() == i,
                forall|k: int|
                    0 <= k < i ==> opt_value(#[trigger] parsed@[k]) == parsed_json(
                        texts_given@[k]@,
                    ),
            decreases texts_given@.len() - i,
        {
            parsed.push(parse_json(texts_given[i].as_str()));
            i += 1;
        }
        assert(argument_texts(self@) == texts(texts_given@));
        assert(opt_values(parsed@) =~= goal);
        self.finish_parsed(parsed)
    }
}

/// What has arrived after the lines of a stream, from a position on, with an event and the data
/// lines that wait for their end.
pub open spec fn after_lines(
    lines: Seq<Seq<char>>,
    i: int,
    state: SseModel,
    event: Seq<char>,
    data: Seq<Seq<char>>,
) -> Result<SseModel, Seq<char>>
    decreases lines.len() - i,
{
    if i < 0 || i >= lines.len() {
        dispatched(state, event, data)
    } else if lines[i].len() == 0 {
        match dispatched(state, event, data) {
            Ok(next) => after_lines(lines, i + 1, next, Seq::empty(), Seq::empty()),
            Err(message) => Err(message),
        }
    } else if has_prefix(lines[i], "event:"@) {
        after_lines(lines, i + 1, state, trim_start(lines[i].skip("event:"@.len() as int)), data)
    } else if has_prefix(lines[i], "data:"@) {
        after_lines(
            lines,
            i + 1,
            state,
            event,
            data.push(trim_start(lines[i].skip("data:"@.len() as int))),
        )
    } else if has_prefix(lines[i], ":"@) {
        after_lines(lines, i + 1, state, event, data)
    } else {
        Err("malformed SSE field"@)
    }
}

/// What has arrived after a waiting event, where there is one.
pub open spec fn dispatched(state: SseModel, event: Seq<char>, data: Seq<Seq<char>>) -> Result<
    SseModel,
    Seq<char>,
> {
    if data.len() > 0 || event.len() > 0 {
        after_event(state, event, join(data, "\n"@), parsed_json(join(data, "\n"@)))
    } else {
        Ok(state)
    }
}

/// The answer that a recorded stream holds.
pub open spec fn stream_answer(events: Seq<char>) -> Result<ResponseModel, Failure> {
    match after_lines(
        text_lines(events),
        0,
        SseModel { choices: Seq::empty(), usage: None, done: false },
        Seq::empty(),
        Seq::empty(),
    ) {
        Ok(state) => finished(state),
        Err(message) => Err((ModelFailureClass::Stopped, message)),
    }
}

fn dispatch(accumulator: SseAccumulator, event: &str, data: &[String]) -> (r: ModelResult<
    SseAccumulator,
>)
    ensures
        match dispatched(accumulator@, event@, texts(data@)) {
            Ok(state) => r is Ok && r->Ok_0@ == state,
            Err(message) => r is Err && r->Err_0@ == (ModelFailureClass::Stopped, message),
        },
{
    proof {
        reveal_strlit("");
        assert(event@.len() == 0 ==> event@ =~= ""@);
    }
    if data.len() > 0 || !str_eq(event, "") {
        accumulator.feed(event, join_texts(data, "\n").as_str())
    } else {
        Ok(accumulator)
    }
}

/// Reads the answer of a recorded stream.
pub fn parse_sse_events(events: &str) -> (r: ModelResult<ModelResponse>)
    ensures
        match stream_answer(events@) {
            Ok(response) => r is Ok && r->Ok_0@ == response,
            Err(failure) => r is Err && r->Err_0@ == failure,
        },
{
    let lines = split_lines(events);
    let ghost all = text_lines(events@);
    let mut accumulator = SseAccumulator::new();
    let mut event = String::new();
    let mut data: Vec<String> = Vec::new();
    let mut i: usize = 0;
    let ghost goal = after_lines(all, 0, accumulator@, Seq::empty(), Seq::empty());
    assert(texts(data@) =~= Seq::<Seq<char>>::empty());
    while i < lines.len()
        invariant
            i <= lines@.len(),
            all == texts(lines@),
            all == text_lines(events@),
            goal == after_lines(
                text_lines(events@),
                0,
                SseModel { choices: Seq::empty(), usage: None, done: false },
                Seq::empty(),
                Seq::empty(),
            ),
            goal == after_lines(all, i as int, accumulator@, event@, texts(data@)),
        decreases lines@.len() - i,
    {
        let line = lines[i].as_str();
        assert(all[i as int] == line@);
        proof {
            reveal_strlit("");
            assert(line@.len() == 0 ==> line@ =~= ""@);
        }
        if str_eq(line, "") {
            match dispatch(accumulator, event.as_str(), data.as_slice()) {
                Ok(next) => {
                    accumulator = next;
                },
                Err(failure) => {
                    return Err(failure);
                },
            }
            event = String::new();
            data = Vec::new();
            assert(texts(data@) =~= Seq::<Seq<char>>::empty());
        } else if let Some(value) = strip_prefix(line, "event:") {
            event = trimmed_start(value.as_str());
        } else if let Some(value) = strip_prefix(line, "data:") {
            let ghost before = texts(data@);
            let text = trimmed_start(value.as_str());
            let ghost item = text@;
            data.push(text);
            assert(texts(data@) =~= before.push(item));
        } else if !starts_with(line, ":") {
            return stop("malformed SSE field");
        }
        i += 1;
    }
    match dispatch(accumulator, event.as_str(), data.as_slice()) {
        Ok(next) => next.finish(),
        Err(failure) => Err(failure),
    }
}

/// Every request turns provider fallbacks and context compression off.
pub proof fn requests_stay_with_their_provider(request: RequestModel)
    ensures
        field(request_json(request), "provider"@) is Some,
        field(field(request_json(request), "provider"@)->Some_0, "allow_fallbacks"@) == Some(
            JsonModel::Bool(false),
        ),
        field(request_json(request), "plugins"@) matches Some(JsonModel::Array(plugins))
            && plugins.len() == 1 && field(plugins[0], "enabled"@) == Some(JsonModel::Bool(false)),
{
    reveal_strlit("messages");
    reveal_strlit("model");
    reveal_strlit("plugins");
    reveal_strlit("provider");
    reveal_strlit("allow_fallbacks");
    reveal_strlit("enabled");
    let list = request_json(request)->Object_0;
    assert(list[0].0 == "messages"@ && list[1].0 == "model"@ && list[2].0 == "plugins"@);
    assert("messages"@[0] == 'm' && "plugins"@[1] == 'l' && "provider"@[1] == 'r');
    assert("model"@.len() == 5);
    reveal_with_fuel(crate::value::member_from, 6);
    assert(crate::value::member_from(list, "plugins"@, 0) == 2);
    assert(crate::value::member_from(list, "provider"@, 0) == 3);
}

/// A stream that did not announce its end leaves it unknown whether the request was carried out,
/// and no other end of a stream does.
pub proof fn only_a_cut_stream_is_ambiguous(state: SseModel, arguments: Seq<Option<JsonModel>>)
    ensures
        (answer_of(state, arguments) matches Err((ModelFailureClass::Ambiguous, _))) == !state.done,
{
}

} // verus!
