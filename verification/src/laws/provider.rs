//! What is asked of a provider of models, and how its answer is put together.
use vstd::prelude::*;
use crate::model::RequestModel;
use crate::model::{call_error, calls_error, tool_from, CallModel, ToolDefinitionModel};
use crate::openrouter::{after_event, after_lines, answer_of, calls_of, choice_slot, choice_with, dispatched, function_with, request_error, request_json, usage_of, ChoicePart, SseModel, ToolPart};
use crate::schema::conforms;
use crate::text::{has_prefix, is_blank, trim_start};
use crate::value::{as_unsigned, field, member_from, JsonModel};

verus! {

/// A request carries the model and the messages that were asked for, in their order and each under
/// the role that speaks, offers the tools, and asks for the answer as a stream.
pub proof fn request_carries_model_and_messages(request: RequestModel, i: int)
    ensures
        field(request_json(request), "model"@) == Some(JsonModel::Text(request.model)),
        field(request_json(request), "stream"@) == Some(JsonModel::Bool(true)),
        field(request_json(request), "messages"@) matches Some(JsonModel::Array(list))
            && list.len() == request.messages.len() && (0 <= i < list.len() ==> field(
            list[i],
            "role"@,
        ) == Some(JsonModel::Text(request.messages[i].0)) && field(list[i], "content"@) == Some(
            JsonModel::Text(request.messages[i].1),
        )),
        field(request_json(request), "tools"@) matches Some(JsonModel::Array(list)) && list.len()
            == request.tools.len(),
{
    reveal_strlit("messages");
    reveal_strlit("model");
    reveal_strlit("plugins");
    reveal_strlit("provider");
    reveal_strlit("stream");
    reveal_strlit("tools");
    reveal_strlit("role");
    reveal_strlit("content");
    let list = request_json(request)->Object_0;
    assert(list[0].0 == "messages"@ && list[1].0 == "model"@ && list[2].0 == "plugins"@ && list[3].0
        == "provider"@ && list[4].0 == "stream"@ && list[5].0 == "tools"@);
    assert("messages"@.len() == 8 && "model"@.len() == 5 && "plugins"@.len() == 7
        && "provider"@.len() == 8 && "stream"@.len() == 6 && "tools"@.len() == 5);
    assert("model"@[0] == 'm' && "tools"@[0] == 't');
    reveal_with_fuel(member_from, 7);
    assert(member_from(list, "messages"@, 0) == 0);
    assert(member_from(list, "model"@, 0) == 1);
    assert(member_from(list, "stream"@, 0) == 4);
    assert(member_from(list, "tools"@, 0) == 5);
    if 0 <= i < request.messages.len() {
        let item = crate::openrouter::message_json(request.messages[i])->Object_0;
        assert("role"@.len() == 4 && "content"@.len() == 7);
        assert(member_from(item, "content"@, 0) == 0);
        assert(member_from(item, "role"@, 0) == 1);
    }
}

/// A request needs a model and a message.
pub proof fn request_needs_model_and_message(request: RequestModel)
    ensures
        request_error(request) is None <==> !is_blank(request.model) && request.messages.len() > 0,
{
}

/// Text that arrives is put behind what arrived before.
pub proof fn arriving_text_is_appended(part: ChoicePart, delta: JsonModel, more: Seq<char>)
    requires
        field(delta, "content"@) == Some(JsonModel::Text(more)),
        field(delta, "tool_calls"@) is None,
    ensures
        choice_with(part, delta) matches Ok(next) && next.text == part.text + more && next.index
            == part.index && next.tools == part.tools,
{
}

/// Arguments of a call that arrive are put behind those that arrived before, and so is its name.
pub proof fn arriving_arguments_are_appended(
    part: ToolPart,
    function: JsonModel,
    more: Seq<char>,
    name: Seq<char>,
)
    requires
        function is Object,
        field(function, "arguments"@) == Some(JsonModel::Text(more)),
        field(function, "name"@) == Some(JsonModel::Text(name)),
    ensures
        function_with(part, function) matches Ok(next) && next.arguments == part.arguments + more
            && next.id == part.id && next.index == part.index && next.name == Some(
            match part.name {
                Some(text) => text + name,
                None => name,
            },
        ),
{
}

/// Nothing is taken in behind the end of a stream, nor what the provider calls an error, nor what is
/// not JSON; the end is taken in as such.
pub proof fn stream_ends_once(
    state: SseModel,
    event: Seq<char>,
    data: Seq<char>,
    payload: Option<JsonModel>,
)
    ensures
        state.done ==> after_event(state, event, data, payload) is Err,
        event == "error"@ ==> after_event(state, event, data, payload) is Err,
        !state.done && event != "error"@ && data == "[DONE]"@ ==> (after_event(
            state,
            event,
            data,
            payload,
        ) matches Ok(next) && next.done && next.choices == state.choices && next.usage
            == state.usage),
        data != "[DONE]"@ && payload is None ==> after_event(state, event, data, payload) is Err,
{
}

proof fn lemma_calls(tools: Seq<ToolPart>, arguments: Seq<Option<JsonModel>>, n: int, k: int)
    requires
        calls_of(tools, arguments, n) is Ok,
        0 <= n,
    ensures
        calls_of(tools, arguments, n)->Ok_0.len() == n,
        0 <= k < n ==> tools[k].name is Some && arguments[k] is Some && calls_of(
            tools,
            arguments,
            n,
        )->Ok_0[k].id == tools[k].id && Some(calls_of(tools, arguments, n)->Ok_0[k].name)
            == tools[k].name && Some(calls_of(tools, arguments, n)->Ok_0[k].arguments)
            == arguments[k],
    decreases n,
{
    if n > 0 {
        lemma_calls(tools, arguments, n - 1, k);
    }
}

/// An answer is what arrived for the first choice of a stream that ended: its text and its calls,
/// in their order, with the tokens that were reported. It is not empty.
pub proof fn answer_is_the_first_choice(
    state: SseModel,
    arguments: Seq<Option<JsonModel>>,
    k: int,
)
    ensures
        answer_of(state, arguments) matches Ok(answer) ==> {
            let p = choice_slot(state.choices, 0, 0);
            &&& state.done
            &&& 0 <= p < state.choices.len() && state.choices[p].index == 0
            &&& answer.text == state.choices[p].text
            &&& answer.usage == state.usage
            &&& answer.tool_calls.len() == state.choices[p].tools.len()
            &&& answer.text.len() > 0 || answer.tool_calls.len() > 0
            &&& 0 <= k < answer.tool_calls.len() ==> answer.tool_calls[k].id
                == state.choices[p].tools[k].id && Some(answer.tool_calls[k].name)
                == state.choices[p].tools[k].name && Some(answer.tool_calls[k].arguments)
                == arguments[k]
        },
{
    if let Ok(answer) = answer_of(state, arguments) {
        let p = choice_slot(state.choices, 0, 0);
        let tools = state.choices[p].tools;
        lemma_calls(tools, arguments, tools.len() as int, k);
    }
}

/// Tokens are counted under either pair of names, and both counts are needed.
pub proof fn usage_has_both_counts(value: JsonModel, input: JsonModel, output: JsonModel)
    requires
        value is Object,
        field(value, "prompt_tokens"@) == Some(input) || (field(value, "prompt_tokens"@) is None
            && field(value, "input_tokens"@) == Some(input)),
        field(value, "completion_tokens"@) == Some(output) || (field(value, "completion_tokens"@)
            is None && field(value, "output_tokens"@) == Some(output)),
    ensures
        usage_of(value) is Ok <==> as_unsigned(input) is Some && as_unsigned(output) is Some,
        usage_of(value) matches Ok(usage) ==> Some(usage.input_tokens) == as_unsigned(input) && Some(
            usage.output_tokens,
        ) == as_unsigned(output),
{
}

/// A stream is read line by line: a line of data is added to the event at hand, a comment adds
/// nothing, an empty line closes the event, and a line of another form refuses the stream.
pub proof fn stream_is_read_by_lines(
    lines: Seq<Seq<char>>,
    i: int,
    state: SseModel,
    event: Seq<char>,
    data: Seq<Seq<char>>,
    rest: Seq<char>,
)
    requires
        0 <= i < lines.len(),
    ensures
        lines[i] == seq!['d', 'a', 't', 'a', ':'] + rest ==> after_lines(lines, i, state, event, data)
            == after_lines(lines, i + 1, state, event, data.push(trim_start(rest))),
        lines[i] == seq!['e', 'v', 'e', 'n', 't', ':'] + rest ==> after_lines(
            lines,
            i,
            state,
            event,
            data,
        ) == after_lines(lines, i + 1, state, trim_start(rest), data),
        lines[i] == seq![':'] + rest ==> after_lines(lines, i, state, event, data) == after_lines(
            lines,
            i + 1,
            state,
            event,
            data,
        ),
        lines[i].len() == 0 && (dispatched(state, event, data) matches Ok(next)) ==> after_lines(
            lines,
            i,
            state,
            event,
            data,
        ) == after_lines(
            lines,
            i + 1,
            dispatched(state, event, data)->Ok_0,
            Seq::empty(),
            Seq::empty(),
        ),
        lines[i].len() > 0 && lines[i][0] != 'd' && lines[i][0] != 'e' && lines[i][0] != ':'
            ==> after_lines(lines, i, state, event, data) is Err,
{
    reveal_strlit("data:");
    reveal_strlit("event:");
    reveal_strlit(":");
    let line = lines[i];
    let d = seq!['d', 'a', 't', 'a', ':'];
    let e = seq!['e', 'v', 'e', 'n', 't', ':'];
    assert("data:"@ =~= d);
    assert("event:"@ =~= e);
    assert(":"@ =~= seq![':']);
    if line == d + rest {
        assert(line.take(5) =~= d);
        assert(line[0] == 'd');
        assert(line.skip(5) =~= rest);
        if has_prefix(line, e) {
            assert(line.take(6)[0] == e[0]);
        }
    } else if line == e + rest {
        assert(line.take(6) =~= e);
        assert(line.skip(6) =~= rest);
    } else if line == seq![':'] + rest {
        assert(line.take(1) =~= seq![':']);
        assert(line[0] == ':');
        if has_prefix(line, e) {
            assert(line.take(6)[0] == e[0]);
        }
        if has_prefix(line, d) {
            assert(line.take(5)[0] == d[0]);
        }
    }
    if line.len() > 0 && line[0] != 'd' && line[0] != 'e' && line[0] != ':' {
        if has_prefix(line, e) {
            assert(line.take(6)[0] == e[0]);
        }
        if has_prefix(line, d) {
            assert(line.take(5)[0] == d[0]);
        }
        if has_prefix(line, seq![':']) {
            assert(line.take(1)[0] == ':');
        }
    }
}

proof fn lemma_tool(tools: Seq<ToolDefinitionModel>, name: Seq<char>, i: int)
    requires
        0 <= i <= tools.len(),
    ensures
        i <= tool_from(tools, name, i) <= tools.len(),
        tool_from(tools, name, i) < tools.len() ==> tools[tool_from(tools, name, i)].name == name,
        tool_from(tools, name, i) == tools.len() ==> forall|k: int|
            i <= k < tools.len() ==> (#[trigger] tools[k]).name != name,
    decreases tools.len() - i,
{
    if i < tools.len() && tools[i].name != name {
        lemma_tool(tools, name, i + 1);
    }
}

proof fn lemma_call(tools: Seq<ToolDefinitionModel>, calls: Seq<CallModel>, from: int, i: int)
    requires
        0 <= from <= i < calls.len(),
        calls_error(tools, calls, from) is None,
    ensures
        call_error(tools, calls[i]) is None,
    decreases i - from,
{
    if from < i {
        lemma_call(tools, calls, from + 1, i);
    }
}

/// Calls of a model are carried out only where each is of a tool that was offered, with arguments
/// that the schema of the tool accepts.
pub proof fn only_offered_tools_are_called(
    tools: Seq<ToolDefinitionModel>,
    calls: Seq<CallModel>,
    i: int,
)
    requires
        calls_error(tools, calls, 0) is None,
        0 <= i < calls.len(),
    ensures
        exists|t: int|
            0 <= t < tools.len() && (#[trigger] tools[t]).name == calls[i].name && conforms(
                tools[t].input_schema,
                calls[i].arguments,
            ),
{
    lemma_call(tools, calls, 0, i);
    lemma_tool(tools, calls[i].name, 0);
    let t = tool_from(tools, calls[i].name, 0);
    assert(tools[t].name == calls[i].name);
}

/// A call of a tool that was not offered is refused.
pub proof fn unknown_tool_is_refused(tools: Seq<ToolDefinitionModel>, call: CallModel)
    requires
        forall|t: int| 0 <= t < tools.len() ==> (#[trigger] tools[t]).name != call.name,
    ensures
        call_error(tools, call) is Some,
{
    lemma_tool(tools, call.name, 0);
}

} // verus!
