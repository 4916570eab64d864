use std::collections::VecDeque;

use phemius::cost::Usage;
use phemius::model::{
    ModelFailure, ModelFailureClass, ModelMessage, ModelRequest, ModelResponse, ModelResult,
    ScriptedModel, ToolCall, ToolDefinition, DEFAULT_MODEL,
};
use phemius::openrouter::{
    authorization, parse_sse_events, request_body, status_failure, stream_failure,
    transport_failure, validate_request, OpenRouterConfig, SseAccumulator,
};
use phemius::value::{parse_json, Json};

fn json(text: &str) -> Json {
    parse_json(text).unwrap()
}

fn tool() -> ToolDefinition {
    ToolDefinition::object(
        "read".into(),
        "reads".into(),
        json("{\"path\":{\"type\":\"string\"}}"),
        &["path".to_string()],
    )
}

fn request(tools: Vec<ToolDefinition>) -> ModelRequest {
    ModelRequest::new("writer".into(), vec![ModelMessage::user("hello".into())], tools)
}

fn call(name: &str, arguments: &str) -> ToolCall {
    ToolCall { id: None, name: name.into(), arguments: json(arguments) }
}

fn text(response: &str) -> ModelResult<ModelResponse> {
    Ok(ModelResponse { text: response.into(), tool_calls: Vec::new(), usage: None })
}

fn chunk(body: &str) -> String {
    format!("data: {{\"choices\":[{{\"index\":0,\"delta\":{body}}}]}}\n\n")
}

fn failure(stream: &str) -> (ModelFailureClass, String) {
    let error = parse_sse_events(stream).unwrap_err();
    (error.class(), error.to_text())
}

#[test]
fn requests_name_the_default_model() {
    let made = request(Vec::new());
    assert_eq!(made.model, DEFAULT_MODEL);
    assert_eq!(made.model, "deepseek/deepseek-v4-pro-0813");
    assert_eq!(made.messages[0].role, "user");
    assert_eq!(made.with_model("other".into()).model, "other");
}

#[test]
fn tool_calls_meet_their_schema() {
    let made = request(vec![tool()]);
    assert!(made.validate_tool_calls(&[call("read", "{\"path\":\"a\"}")]).is_ok());
    assert_eq!(
        made.validate_tool_calls(&[call("write", "{}")]).unwrap_err().to_text(),
        "model requested unknown tool write"
    );
    let bad = made.validate_tool_calls(&[call("read", "{\"path\":1}")]).unwrap_err();
    assert_eq!(bad.to_text(), "model supplied invalid arguments for tool read");
    assert_eq!(bad.class(), ModelFailureClass::Stopped);
    assert!(made.validate_tool_calls(&[call("read", "{\"path\":\"a\",\"x\":1}")]).is_err());
}

#[test]
fn scripted_model_answers_in_order() {
    let mut queue = VecDeque::new();
    queue.push_back(text("one"));
    queue.push_back(Err(ModelFailure::ambiguous("lost".into())));
    queue.push_back(Ok(ModelResponse {
        text: String::new(),
        tool_calls: vec![call("read", "{}")],
        usage: None,
    }));
    let mut model = ScriptedModel::new(queue);
    let made = request(vec![tool()]);
    assert_eq!(model.complete(&made).unwrap().text, "one");
    assert_eq!(model.complete(&made).unwrap_err().class(), ModelFailureClass::Ambiguous);
    assert!(model.complete(&made).is_err());
    assert_eq!(
        model.complete(&made).unwrap_err().to_text(),
        "scripted model has no remaining response"
    );
}

#[test]
fn request_body_turns_fallbacks_off() {
    let body = request_body(&request(vec![tool()]));
    assert!(matches!(body.get("stream"), Some(Json::Bool(true))));
    let provider = body.get("provider").unwrap();
    assert!(matches!(provider.get("allow_fallbacks"), Some(Json::Bool(false))));
    assert!(matches!(provider.get("require_parameters"), Some(Json::Bool(true))));
    let Some(Json::Array(plugins)) = body.get("plugins") else { panic!("plugins") };
    assert!(matches!(plugins[0].get("enabled"), Some(Json::Bool(false))));
    assert!(body.same(&json(
        "{\"model\":\"deepseek/deepseek-v4-pro-0813\",\"messages\":[{\"role\":\"user\",\"content\":\"hello\"}],\"tools\":[{\"type\":\"function\",\"function\":{\"name\":\"read\",\"description\":\"reads\",\"parameters\":{\"type\":\"object\",\"properties\":{\"path\":{\"type\":\"string\"}},\"required\":[\"path\"],\"additionalProperties\":false}}}],\"stream\":true,\"provider\":{\"allow_fallbacks\":false,\"require_parameters\":true},\"plugins\":[{\"id\":\"context-compression\",\"enabled\":false}]}"
    )));
}

#[test]
fn requests_need_a_model_messages_and_a_key() {
    assert!(validate_request(&request(Vec::new())).is_ok());
    assert_eq!(
        validate_request(&request(Vec::new()).with_model(" ".into())).unwrap_err().to_text(),
        "model ID is empty"
    );
    let empty = ModelRequest::new("writer".into(), Vec::new(), Vec::new());
    assert_eq!(
        validate_request(&empty).unwrap_err().to_text(),
        "model request has no messages"
    );
    assert_eq!(authorization(Some("k")).unwrap(), "Bearer k");
    assert_eq!(authorization(Some("")).unwrap_err().to_text(), "OPENROUTER_API_KEY is empty");
    assert_eq!(
        authorization(None).unwrap_err().to_text(),
        "OPENROUTER_API_KEY is not configured"
    );
    assert_eq!(
        OpenRouterConfig::production().endpoint(),
        "https://openrouter.ai/api/v1/chat/completions"
    );
    assert_eq!(OpenRouterConfig::for_test("http://x".into()).endpoint(), "http://x");
    assert_eq!(transport_failure("t").class(), ModelFailureClass::Ambiguous);
    assert_eq!(status_failure("500").to_text(), "OpenRouter returned HTTP 500");
    assert_eq!(stream_failure("s").class(), ModelFailureClass::Stopped);
}

#[test]
fn streams_are_put_together() {
    let stream = format!(
        ": comment\n\n{}{}{}{}data: [DONE]\n\n",
        chunk("{\"content\":\"Hel\"}"),
        chunk("{\"content\":\"lo\",\"tool_calls\":[{\"index\":1,\"id\":\"b\",\"function\":{\"name\":\"second\",\"arguments\":\"[]\"}}]}"),
        chunk("{\"content\":null,\"tool_calls\":[{\"index\":0,\"function\":{\"name\":\"fir\",\"arguments\":\"{\\\"a\\\"\"}},{\"index\":0,\"id\":\"a\",\"function\":{\"name\":\"st\",\"arguments\":\":1}\"}}]}"),
        "event: message\ndata: {\"choices\":[],\"usage\":{\"prompt_tokens\":5,\"completion_tokens\":7}}\n\n",
    );
    let response = parse_sse_events(&stream).unwrap();
    assert_eq!(response.text, "Hello");
    assert_eq!(response.usage, Some(Usage::new(5, 7)));
    assert_eq!(response.tool_calls.len(), 2);
    assert_eq!(response.tool_calls[0].name, "first");
    assert_eq!(response.tool_calls[0].id, Some("a".to_string()));
    assert_eq!(response.tool_calls[0].arguments.get("a").unwrap().as_u64(), Some(1));
    assert_eq!(response.tool_calls[1].name, "second");
}

#[test]
fn broken_streams_stop() {
    let done = "data: [DONE]\n\n";
    let stopped = ModelFailureClass::Stopped;
    assert_eq!(
        failure(&chunk("{\"content\":\"x\"}")),
        (ModelFailureClass::Ambiguous, "OpenRouter stream ended before [DONE]".into())
    );
    assert_eq!(failure(done), (stopped, "OpenRouter completion has no choice zero".into()));
    assert_eq!(failure("nonsense\n"), (stopped, "malformed SSE field".into()));
    assert_eq!(failure("data: {\n\n"), (stopped, "malformed OpenRouter SSE payload".into()));
    assert_eq!(
        failure("event: error\ndata: {}\n\n"),
        (stopped, "OpenRouter sent an SSE error event".into())
    );
    assert_eq!(
        failure(&format!("{done}{done}")),
        (stopped, "received SSE data after [DONE]".into())
    );
    assert_eq!(failure("data: {}\n\n"), (stopped, "OpenRouter SSE payload has no choices".into()));
    assert_eq!(
        failure("data: {\"choices\":[]}\n\n"),
        (stopped, "OpenRouter SSE payload has empty choices".into())
    );
    assert_eq!(
        failure("data: {\"choices\":[1]}\n\n"),
        (stopped, "OpenRouter choice is not an object".into())
    );
    assert_eq!(
        failure("data: {\"choices\":[{}]}\n\n"),
        (stopped, "OpenRouter choice has no index".into())
    );
    assert_eq!(
        failure("data: {\"choices\":[{\"index\":0}]}\n\n"),
        (stopped, "OpenRouter choice has no delta".into())
    );
    assert_eq!(
        failure(&chunk("{\"content\":1}")),
        (stopped, "OpenRouter content delta is not text".into())
    );
    assert_eq!(
        failure(&chunk("{\"tool_calls\":1}")),
        (stopped, "OpenRouter tool_calls delta is not an array".into())
    );
    assert_eq!(
        failure(&chunk("{\"tool_calls\":[1]}")),
        (stopped, "OpenRouter tool call is not an object".into())
    );
    assert_eq!(
        failure(&chunk("{\"tool_calls\":[{}]}")),
        (stopped, "OpenRouter tool call has no index".into())
    );
    assert_eq!(
        failure(&chunk("{\"tool_calls\":[{\"index\":0,\"id\":1}]}")),
        (stopped, "OpenRouter tool call ID is not text".into())
    );
    assert_eq!(
        failure(&chunk("{\"tool_calls\":[{\"index\":0,\"function\":1}]}")),
        (stopped, "OpenRouter function delta is not an object".into())
    );
    assert_eq!(
        failure(&chunk("{\"tool_calls\":[{\"index\":0,\"function\":{\"name\":1}}]}")),
        (stopped, "OpenRouter tool name is not text".into())
    );
    assert_eq!(
        failure(&chunk("{\"tool_calls\":[{\"index\":0,\"function\":{\"arguments\":1}}]}")),
        (stopped, "OpenRouter tool arguments are not text".into())
    );
    assert_eq!(
        failure(&format!("{}{done}", chunk("{}"))),
        (stopped, "OpenRouter completion is empty".into())
    );
    assert_eq!(
        failure(&format!("{}{done}", chunk("{\"tool_calls\":[{\"index\":0}]}"))),
        (stopped, "OpenRouter tool call has no name".into())
    );
    assert_eq!(
        failure(&format!(
            "{}{done}",
            chunk("{\"tool_calls\":[{\"index\":0,\"function\":{\"name\":\"a\",\"arguments\":\"{\"}}]}")
        )),
        (stopped, "OpenRouter tool call arguments are invalid JSON".into())
    );
    assert_eq!(
        failure("data: {\"usage\":1,\"choices\":[]}\n\n"),
        (stopped, "OpenRouter usage is not an object".into())
    );
    assert_eq!(
        failure("data: {\"usage\":{},\"choices\":[]}\n\n"),
        (stopped, "OpenRouter usage has no input token count".into())
    );
    assert_eq!(
        failure("data: {\"usage\":{\"input_tokens\":1},\"choices\":[]}\n\n"),
        (stopped, "OpenRouter usage has no output token count".into())
    );
}

#[test]
fn events_are_taken_in_one_by_one() {
    let state = SseAccumulator::new();
    assert!(!state.done());
    let state = state
        .feed_parsed(
            "",
            "x",
            Some(json("{\"choices\":[{\"index\":0,\"delta\":{\"content\":\"a\"}}]}")),
        )
        .unwrap();
    assert!(state.arguments().is_empty());
    let state = state.feed("", "[DONE]").unwrap();
    assert!(state.done());
    assert_eq!(state.finish_parsed(Vec::new()).unwrap().text, "a");
}
