//! Requests to language models and their answers.
use std::collections::VecDeque;
use vstd::prelude::*;
use crate::cost::Usage;
use crate::schema::{conforms, validates_schema};
use crate::text::{concat2, opt_text, str_eq, texts};
use crate::value::{lemma_model, members, values, Json, JsonModel, Member};

verus! {

/// The model that is asked where none is chosen.
pub const DEFAULT_MODEL: &'static str = "deepseek/deepseek-v4-pro-0813";

/// How a request failed.
#[derive(Clone, Copy, Debug, PartialEq, Eq, Structural)]
pub enum ModelFailureClass {
    /// The request was not carried out, or its answer is of no use.
    Stopped,
    /// It is unknown whether the request was carried out.
    Ambiguous,
}

/// A failed request.
#[derive(Debug)]
pub struct ModelFailure {
    class: ModelFailureClass,
    message: String,
}

/// Class and message of a failure.
pub type Failure = (ModelFailureClass, Seq<char>);

impl View for ModelFailure {
    type V = Failure;

    closed spec fn view(&self) -> Failure {
        (self.class, self.message@)
    }
}

impl ModelFailure {
    /// Builds the failure of a request that stopped.
    pub fn stopped(message: String) -> (r: ModelFailure)
        ensures
            r@ == (ModelFailureClass::Stopped, message@),
    {
        ModelFailure { class: ModelFailureClass::Stopped, message }
    }

    /// Builds the failure of a request that may have been carried out.
    pub fn ambiguous(message: String) -> (r: ModelFailure)
        ensures
            r@ == (ModelFailureClass::Ambiguous, message@),
    {
        ModelFailure { class: ModelFailureClass::Ambiguous, message }
    }

    /// Returns how the request failed.
    pub fn class(&self) -> (r: ModelFailureClass)
        ensures
            r == self@.0,
    {
        self.class
    }

    /// Returns the message.
    pub fn to_text(&self) -> (r: String)
        ensures
            r@ == self@.1,
    {
        self.message.clone()
    }
}

/// The result of a request.
pub type ModelResult<T> = Result<T, ModelFailure>;

/// Returns the failure of a request that stopped.
pub(crate) fn stop<T>(message: &str) -> (r: ModelResult<T>)
    ensures
        r is Err,
        r->Err_0@ == (ModelFailureClass::Stopped, message@),
{
    Err(ModelFailure::stopped(message.to_owned()))
}

/// A message to a model.
#[derive(Debug)]
pub struct ModelMessage {
    /// Who speaks.
    pub role: String,
    /// Text.
    pub content: String,
}

impl View for ModelMessage {
    type V = (Seq<char>, Seq<char>);

    open spec fn view(&self) -> (Seq<char>, Seq<char>) {
        (self.role@, self.content@)
    }
}

/// The views of messages.
pub open spec fn messages(items: Seq<ModelMessage>) -> Seq<(Seq<char>, Seq<char>)> {
    items.map_values(|item: ModelMessage| item@)
}

impl ModelMessage {
    /// Builds a message of the user.
    pub fn user(content: String) -> (r: ModelMessage)
        ensures
            r@ == ("user"@, content@),
    {
        ModelMessage { role: "user".to_owned(), content }
    }
}

/// A tool that a model may call.
#[derive(Debug)]
pub struct ToolDefinition {
    /// Name.
    pub name: String,
    /// Description.
    pub description: String,
    /// Schema of the arguments.
    pub input_schema: Json,
}

/// A tool definition by the views of its fields.
pub struct ToolDefinitionModel {
    pub name: Seq<char>,
    pub description: Seq<char>,
    pub input_schema: JsonModel,
}

impl View for ToolDefinition {
    type V = ToolDefinitionModel;

    open spec fn view(&self) -> ToolDefinitionModel {
        ToolDefinitionModel {
            name: self.name@,
            description: self.description@,
            input_schema: self.input_schema@,
        }
    }
}

/// The views of tool definitions.
pub open spec fn definitions(items: Seq<ToolDefinition>) -> Seq<ToolDefinitionModel> {
    items.map_values(|item: ToolDefinition| item@)
}

/// The schema of an object with declared members only.
pub open spec fn object_schema(properties: JsonModel, required: Seq<Seq<char>>) -> JsonModel {
    JsonModel::Object(
        seq![
            ("additionalProperties"@, JsonModel::Bool(false)),
            ("properties"@, properties),
            (
                "required"@,
                JsonModel::Array(required.map_values(|name: Seq<char>| JsonModel::Text(name))),
            ),
            ("type"@, JsonModel::Text("object"@)),
        ],
    )
}

fn text_array(items: &[String]) -> (r: Json)
    ensures
        r@ == JsonModel::Array(
            texts(items@).map_values(|name: Seq<char>| JsonModel::Text(name)),
        ),
{
    let ghost goal = texts(items@).map_values(|name: Seq<char>| JsonModel::Text(name));
    let mut out: Vec<Json> = Vec::new();
    let mut i: usize = 0;
    while i < items.len()
        invariant
            i <= items@.len(),
            out@.len() == i,
            forall|k: int| 0 <= k < i ==> #[trigger] out@[k]@ == JsonModel::Text(items@[k]@),
        decreases items@.len() - i,
    {
        out.push(Json::Text(items[i].clone()));
        i += 1;
    }
    assert(values(out@) =~= goal);
    let value = Json::Array(out);
    proof {
        lemma_model(value);
    }
    value
}

impl ToolDefinition {
    /// Builds a tool whose arguments are an object with declared members only.
    pub fn object(
        name: String,
        description: String,
        properties: Json,
        required: &[String],
    ) -> (r: ToolDefinition)
        ensures
            r@ == (ToolDefinitionModel {
                name: name@,
                description: description@,
                input_schema: object_schema(properties@, texts(required@)),
            }),
    {
        let ghost goal = object_schema(properties@, texts(required@));
        let mut list: Vec<Member> = Vec::new();
        list.push(Member { name: "additionalProperties".to_owned(), value: Json::Bool(false) });
        list.push(Member { name: "properties".to_owned(), value: properties });
        list.push(Member { name: "required".to_owned(), value: text_array(required) });
        list.push(Member { name: "type".to_owned(), value: Json::Text("object".to_owned()) });
        assert(members(list@) =~= goal->Object_0);
        let input_schema = Json::Object(list);
        proof {
            lemma_model(input_schema);
        }
        ToolDefinition { name, description, input_schema }
    }
}

/// A call of a tool that a model asks for.
#[derive(Debug)]
pub struct ToolCall {
    /// Identifier of the call.
    pub id: Option<String>,
    /// Name of the tool.
    pub name: String,
    /// Arguments.
    pub arguments: Json,
}

/// A call of a tool by the views of its fields.
pub struct CallModel {
    pub id: Option<Seq<char>>,
    pub name: Seq<char>,
    pub arguments: JsonModel,
}

impl View for ToolCall {
    type V = CallModel;

    open spec fn view(&self) -> CallModel {
        CallModel { id: opt_text(self.id), name: self.name@, arguments: self.arguments@ }
    }
}

/// The views of calls of tools.
pub open spec fn call_models(items: Seq<ToolCall>) -> Seq<CallModel> {
    items.map_values(|item: ToolCall| item@)
}

/// An answer of a model.
#[derive(Debug)]
pub struct ModelResponse {
    /// Text.
    pub text: String,
    /// Calls of tools.
    pub tool_calls: Vec<ToolCall>,
    /// Tokens that the request used, where the provider reports them.
    pub usage: Option<Usage>,
}

/// An answer by the views of its fields.
pub struct ResponseModel {
    pub text: Seq<char>,
    pub tool_calls: Seq<CallModel>,
    pub usage: Option<Usage>,
}

impl View for ModelResponse {
    type V = ResponseModel;

    open spec fn view(&self) -> ResponseModel {
        ResponseModel {
            text: self.text@,
            tool_calls: call_models(self.tool_calls@),
            usage: self.usage,
        }
    }
}

/// A request to a model.
#[derive(Debug)]
pub struct ModelRequest {
    /// Role that asks.
    pub role: String,
    /// Model.
    pub model: String,
    /// Messages.
    pub messages: Vec<ModelMessage>,
    /// Tools that the model may call.
    pub tools: Vec<ToolDefinition>,
}

/// A request by the views of its fields.
pub struct RequestModel {
    pub role: Seq<char>,
    pub model: Seq<char>,
    pub messages: Seq<(Seq<char>, Seq<char>)>,
    pub tools: Seq<ToolDefinitionModel>,
}

impl View for ModelRequest {
    type V = RequestModel;

    open spec fn view(&self) -> RequestModel {
        RequestModel {
            role: self.role@,
            model: self.model@,
            messages: messages(self.messages@),
            tools: definitions(self.tools@),
        }
    }
}

/// Position of the first tool with a name, from a position on; the number of tools where none has
/// it.
pub open spec fn tool_from(tools: Seq<ToolDefinitionModel>, name: Seq<char>, i: int) -> int
    decreases tools.len() - i,
{
    if i < 0 || i >= tools.len() {
        tools.len() as int
    } else if tools[i].name == name {
        i
    } else {
        tool_from(tools, name, i + 1)
    }
}

/// What is wrong with a call of a tool.
pub open spec fn call_error(tools: Seq<ToolDefinitionModel>, call: CallModel) -> Option<Seq<char>> {
    let i = tool_from(tools, call.name, 0);
    if !(0 <= i < tools.len()) {
        Some("model requested unknown tool "@ + call.name)
    } else if !conforms(tools[i].input_schema, call.arguments) {
        Some("model supplied invalid arguments for tool "@ + call.name)
    } else {
        None
    }
}

/// What is wrong with the first bad call of a tool, from a position on.
pub open spec fn calls_error(
    tools: Seq<ToolDefinitionModel>,
    calls: Seq<CallModel>,
    i: int,
) -> Option<Seq<char>>
    decreases calls.len() - i,
{
    if i < 0 || i >= calls.len() {
        None
    } else {
        match call_error(tools, calls[i]) {
            Some(message) => Some(message),
            None => calls_error(tools, calls, i + 1),
        }
    }
}

impl ModelRequest {
    /// Builds a request to the default model.
    pub fn new(role: String, messages: Vec<ModelMessage>, tools: Vec<ToolDefinition>) -> (r:
        ModelRequest)
        ensures
            r.role == role,
            r.model@ == DEFAULT_MODEL@,
            r.messages == messages,
            r.tools == tools,
    {
        ModelRequest { role, model: DEFAULT_MODEL.to_owned(), messages, tools }
    }

    /// Chooses another model.
    pub fn with_model(self, model: String) -> (r: ModelRequest)
        ensures
            r == (ModelRequest { model: model, ..self }),
    {
        ModelRequest { role: self.role, model, messages: self.messages, tools: self.tools }
    }

    fn find_tool(&self, name: &str) -> (r: Option<&ToolDefinition>)
        ensures
            ({
                let i = tool_from(self@.tools, name@, 0);
                match r {
                    Some(tool) => 0 <= i < self@.tools.len() && self@.tools[i] == tool@,
                    None => i == self@.tools.len(),
                }
            }),
    {
        let ghost all = self@.tools;
        let mut i: usize = 0;
        while i < self.tools.len()
            invariant
                i <= self.tools@.len(),
                all == self@.tools,
                tool_from(all, name@, 0) == tool_from(all, name@, i as int),
            decreases self.tools@.len() - i,
        {
            assert(all[i as int] == self.tools@[i as int]@);
            if str_eq(self.tools[i].name.as_str(), name) {
                return Some(&self.tools[i]);
            }
            i += 1;
        }
        None
    }

    /// Checks that the calls name offered tools and that their arguments meet the schemas.
    pub fn validate_tool_calls(&self, calls: &[ToolCall]) -> (r: ModelResult<()>)
        ensures
            match calls_error(self@.tools, call_models(calls@), 0) {
                Some(message) => r is Err && r->Err_0@ == (ModelFailureClass::Stopped, message),
                None => r is Ok,
            },
    {
        let mut i: usize = 0;
        while i < calls.len()
            invariant
                i <= calls@.len(),
                calls_error(self@.tools, call_models(calls@), 0) == calls_error(
                    self@.tools,
                    call_models(calls@),
                    i as int,
                ),
            decreases calls@.len() - i,
        {
            let call = &calls[i];
            assert(call_models(calls@)[i as int] == call@);
            match self.find_tool(call.name.as_str()) {
                None => {
                    return stop(
                        concat2("model requested unknown tool ", call.name.as_str()).as_str(),
                    );
                },
                Some(tool) => {
                    if !validates_schema(&tool.input_schema, &call.arguments) {
                        return stop(
                            concat2(
                                "model supplied invalid arguments for tool ",
                                call.name.as_str(),
                            ).as_str(),
                        );
                    }
                },
            }
            i += 1;
        }
        Ok(())
    }
}

/// A model whose answers were written down beforehand.
#[derive(Debug)]
pub struct ScriptedModel {
    responses: VecDeque<ModelResult<ModelResponse>>,
}

impl ScriptedModel {
    /// The answers that are left.
    pub closed spec fn remaining(&self) -> Seq<ModelResult<ModelResponse>> {
        self.responses@
    }

    /// Builds a model from its answers.
    pub fn new(responses: VecDeque<ModelResult<ModelResponse>>) -> (r: ScriptedModel)
        ensures
            r.remaining() == responses@,
    {
        ScriptedModel { responses }
    }

    /// Hands out the next answer, where its calls of tools are valid.
    pub fn complete(&mut self, request: &ModelRequest) -> (r: ModelResult<ModelResponse>)
        ensures
            if old(self).remaining().len() == 0 {
                &&& final(self).remaining() == old(self).remaining()
                &&& r is Err
                &&& r->Err_0@ == (
                    ModelFailureClass::Stopped,
                    "scripted model has no remaining response"@,
                )
            } else {
                &&& final(self).remaining() == old(self).remaining().skip(1)
                &&& match old(self).remaining()[0] {
                    Err(failure) => r == Err::<ModelResponse, ModelFailure>(failure),
                    Ok(response) => match calls_error(request@.tools, response@.tool_calls, 0) {
                        Some(message) => r is Err && r->Err_0@ == (
                            ModelFailureClass::Stopped,
                            message,
                        ),
                        None => r == Ok::<ModelResponse, ModelFailure>(response),
                    },
                }
            },
    {
        match self.responses.pop_front() {
            None => stop("scripted model has no remaining response"),
            Some(Err(failure)) => Err(failure),
            Some(Ok(response)) => {
                match request.validate_tool_calls(response.tool_calls.as_slice()) {
                    Ok(()) => Ok(response),
                    Err(failure) => Err(failure),
                }
            },
        }
    }
}

} // verus!
