//! What the language model is sent.

use vstd::prelude::*;

use crate::agent::ToolCall;
use crate::agent_run::{AgentRun, ToolResponse, Turn};
use crate::analyze::{SYSTEM_PROMPT, TITLE_PROMPT, TITLE_ROLE, TRANSCRIBE_PROMPT};
use crate::analyze::{suggestion_prompt, suggestion_text, title_prompt};
use crate::json::{
    array_value, copy, documents, json_of, object_value, text_value, with_member, Json,
};

verus! {

/// An object with one member.
pub open spec fn object1(key: Seq<char>, m: Json) -> Json {
    Json::Object(Map::empty().insert(key, m))
}

/// An object with two members.
pub open spec fn object2(k1: Seq<char>, m1: Json, k2: Seq<char>, m2: Json) -> Json {
    Json::Object(Map::empty().insert(k1, m1).insert(k2, m2))
}

/// An object with three members.
pub open spec fn object3(
    k1: Seq<char>,
    m1: Json,
    k2: Seq<char>,
    m2: Json,
    k3: Seq<char>,
    m3: Json,
) -> Json {
    Json::Object(Map::empty().insert(k1, m1).insert(k2, m2).insert(k3, m3))
}

fn make_object1(key: &str, m: serde_json::Value) -> (r: serde_json::Value)
    ensures
        json_of(r) == object1(key@, json_of(m)),
{
    with_member(object_value(), key, m)
}

fn make_object2(k1: &str, m1: serde_json::Value, k2: &str, m2: serde_json::Value) -> (r:
    serde_json::Value)
    ensures
        json_of(r) == object2(k1@, json_of(m1), k2@, json_of(m2)),
{
    with_member(with_member(object_value(), k1, m1), k2, m2)
}

fn make_object3(
    k1: &str,
    m1: serde_json::Value,
    k2: &str,
    m2: serde_json::Value,
    k3: &str,
    m3: serde_json::Value,
) -> (r: serde_json::Value)
    ensures
        json_of(r) == object3(k1@, json_of(m1), k2@, json_of(m2), k3@, json_of(m3)),
{
    with_member(with_member(with_member(object_value(), k1, m1), k2, m2), k3, m3)
}

fn make_array1(element: serde_json::Value) -> (r: serde_json::Value)
    ensures
        json_of(r) == Json::Array(seq![json_of(element)]),
{
    let mut elements: Vec<serde_json::Value> = Vec::new();
    elements.push(element);
    assert(documents(elements@) =~= seq![json_of(element)]);
    array_value(elements)
}

fn make_array2(first: serde_json::Value, second: serde_json::Value) -> (r: serde_json::Value)
    ensures
        json_of(r) == Json::Array(seq![json_of(first), json_of(second)]),
{
    let mut elements: Vec<serde_json::Value> = Vec::new();
    elements.push(first);
    elements.push(second);
    assert(documents(elements@) =~= seq![json_of(first), json_of(second)]);
    array_value(elements)
}

/// A part that is text.
pub open spec fn text_part(text: Seq<char>) -> Json {
    object1("text"@, Json::Text(text))
}

/// Parts that are one text.
pub open spec fn text_parts(text: Seq<char>) -> Json {
    Json::Array(seq![text_part(text)])
}

/// The parts that someone contributes to a conversation.
pub open spec fn contribution(role: Seq<char>, parts: Json) -> Json {
    object2("role"@, Json::Text(role), "parts"@, parts)
}

/// A conversation that a user opens with one text.
pub open spec fn question(text: Seq<char>) -> Json {
    Json::Array(seq![contribution("user"@, text_parts(text))])
}

/// What the model is told of its task.
pub open spec fn instruction(text: Seq<char>) -> Json {
    object1("parts"@, text_parts(text))
}

fn make_text_parts(text: &str) -> (r: serde_json::Value)
    ensures
        json_of(r) == text_parts(text@),
{
    make_array1(make_object1("text", text_value(text)))
}

fn make_contribution(role: &str, parts: serde_json::Value) -> (r: serde_json::Value)
    ensures
        json_of(r) == contribution(role@, json_of(parts)),
{
    make_object2("role", text_value(role), "parts", parts)
}

fn make_question(text: &str) -> (r: serde_json::Value)
    ensures
        json_of(r) == question(text@),
{
    make_array1(make_contribution("user", make_text_parts(text)))
}

fn make_instruction(text: &str) -> (r: serde_json::Value)
    ensures
        json_of(r) == instruction(text@),
{
    make_object1("parts", make_text_parts(text))
}

/// A parameter of a tool.
pub open spec fn parameter(description: Seq<char>) -> Json {
    object2("type"@, Json::Text("string"@), "description"@, Json::Text(description))
}

/// A tool with two required parameters, of which the second is its rationale.
pub open spec fn tool(
    name: Seq<char>,
    description: Seq<char>,
    argument: Seq<char>,
    argument_description: Seq<char>,
) -> Json {
    object3(
        "name"@,
        Json::Text(name),
        "description"@,
        Json::Text(description),
        "parameters"@,
        object3(
            "type"@,
            Json::Text("object"@),
            "properties"@,
            object2(
                argument,
                parameter(argument_description),
                "rationale"@,
                parameter("Short reason this helps the user now."@),
            ),
            "required"@,
            Json::Array(seq![Json::Text(argument), Json::Text("rationale"@)]),
        ),
    )
}

/// What the model is told of the shell.
pub const RUN_COMMAND_DESCRIPTION: &'static str =
    "Run a shell command on the user's machine and return its output. Requires user approval unless allowed. Prefer read-only commands.";

/// What the model is told of searching.
pub const WEB_SEARCH_DESCRIPTION: &'static str =
    "Search the web for current information and return a grounded summary with sources.";

/// The tools that the model may call.
pub open spec fn declared_tools() -> Json {
    Json::Array(
        seq![
            object1(
                "functionDeclarations"@,
                Json::Array(
                    seq![
                        tool(
                            "run_command"@,
                            RUN_COMMAND_DESCRIPTION@,
                            "command"@,
                            "The exact shell command to run."@,
                        ),
                        tool(
                            "web_search"@,
                            WEB_SEARCH_DESCRIPTION@,
                            "query"@,
                            "The search query."@,
                        ),
                    ],
                ),
            ),
        ],
    )
}

fn make_parameter(description: &str) -> (r: serde_json::Value)
    ensures
        json_of(r) == parameter(description@),
{
    make_object2("type", text_value("string"), "description", text_value(description))
}

fn make_tool(name: &str, description: &str, argument: &str, argument_description: &str) -> (r:
    serde_json::Value)
    ensures
        json_of(r) == tool(name@, description@, argument@, argument_description@),
{
    let properties: serde_json::Value = make_object2(
        argument,
        make_parameter(argument_description),
        "rationale",
        make_parameter("Short reason this helps the user now."),
    );
    let required: serde_json::Value = make_array2(text_value(argument), text_value("rationale"));
    let parameters: serde_json::Value = make_object3(
        "type",
        text_value("object"),
        "properties",
        properties,
        "required",
        required,
    );
    make_object3(
        "name",
        text_value(name),
        "description",
        text_value(description),
        "parameters",
        parameters,
    )
}

/// The tools that the model may call: the shell, and searching the web.
pub fn tool_declarations() -> (r: serde_json::Value)
    ensures
        json_of(r) == declared_tools(),
{
    let run_command: serde_json::Value = make_tool(
        "run_command",
        RUN_COMMAND_DESCRIPTION,
        "command",
        "The exact shell command to run.",
    );
    let web_search: serde_json::Value = make_tool(
        "web_search",
        WEB_SEARCH_DESCRIPTION,
        "query",
        "The search query.",
    );
    make_array1(make_object1("functionDeclarations", make_array2(run_command, web_search)))
}

/// The result of a call, as a part.
pub open spec fn response_part(response: ToolResponse) -> Json {
    object1(
        "functionResponse"@,
        object3(
            "name"@,
            Json::Text(response.name@),
            "id"@,
            Json::Text(response.id@),
            "response"@,
            object2(
                "status"@,
                Json::Text(response.status@),
                "output"@,
                Json::Text(response.output@),
            ),
        ),
    )
}

/// A turn of the conversation: the calls of the model are echoed as they came,
/// and their results are told by the user.
pub open spec fn turn_sent(turn: Turn) -> Json {
    match turn {
        Turn::User(text) => contribution("user"@, text_parts(text@)),
        Turn::Calls(calls) => contribution(
            "model"@,
            Json::Array(calls@.map_values(|c: ToolCall| json_of(c.part))),
        ),
        Turn::Responses(responses) => contribution(
            "user"@,
            Json::Array(responses@.map_values(|r: ToolResponse| response_part(r))),
        ),
    }
}

fn make_calls(calls: &Vec<ToolCall>) -> (r: serde_json::Value)
    ensures
        json_of(r) == Json::Array(calls@.map_values(|c: ToolCall| json_of(c.part))),
{
    let ghost wanted = calls@.map_values(|c: ToolCall| json_of(c.part));
    let mut parts: Vec<serde_json::Value> = Vec::new();
    let mut i: usize = 0;
    assert(documents(parts@) =~= wanted.take(0));
    while i < calls.len()
        invariant
            i <= calls@.len(),
            wanted == calls@.map_values(|c: ToolCall| json_of(c.part)),
            documents(parts@) == wanted.take(i as int),
        decreases calls@.len() - i,
    {
        let ghost before = documents(parts@);
        let part: serde_json::Value = copy(&calls[i].part);
        assert(wanted[i as int] == json_of(part));
        parts.push(part);
        assert(documents(parts@) =~= before.push(json_of(part)));
        i = i + 1;
        assert(documents(parts@) =~= wanted.take(i as int));
    }
    assert(wanted.take(wanted.len() as int) =~= wanted);
    array_value(parts)
}

fn make_response(response: &ToolResponse) -> (r: serde_json::Value)
    ensures
        json_of(r) == response_part(*response),
{
    let result: serde_json::Value = make_object2(
        "status",
        text_value(response.status.as_str()),
        "output",
        text_value(response.output.as_str()),
    );
    make_object1(
        "functionResponse",
        make_object3(
            "name",
            text_value(response.name.as_str()),
            "id",
            text_value(response.id.as_str()),
            "response",
            result,
        ),
    )
}

fn make_responses(responses: &Vec<ToolResponse>) -> (r: serde_json::Value)
    ensures
        json_of(r) == Json::Array(responses@.map_values(|r: ToolResponse| response_part(r))),
{
    let ghost wanted = responses@.map_values(|r: ToolResponse| response_part(r));
    let mut parts: Vec<serde_json::Value> = Vec::new();
    let mut i: usize = 0;
    assert(documents(parts@) =~= wanted.take(0));
    while i < responses.len()
        invariant
            i <= responses@.len(),
            wanted == responses@.map_values(|r: ToolResponse| response_part(r)),
            documents(parts@) == wanted.take(i as int),
        decreases responses@.len() - i,
    {
        let ghost before = documents(parts@);
        let part: serde_json::Value = make_response(&responses[i]);
        assert(wanted[i as int] == json_of(part));
        parts.push(part);
        assert(documents(parts@) =~= before.push(json_of(part)));
        i = i + 1;
        assert(documents(parts@) =~= wanted.take(i as int));
    }
    assert(wanted.take(wanted.len() as int) =~= wanted);
    array_value(parts)
}

fn make_turn(turn: &Turn) -> (r: serde_json::Value)
    ensures
        json_of(r) == turn_sent(*turn),
{
    match turn {
        Turn::User(text) => make_contribution("user", make_text_parts(text.as_str())),
        Turn::Calls(calls) => make_contribution("model", make_calls(calls)),
        Turn::Responses(responses) => make_contribution("user", make_responses(responses)),
    }
}

/// What a run sends the model: its instruction, the conversation, and the tools,
/// which the model may call or not.
pub open spec fn run_sent(system: Seq<char>, turns: Seq<Turn>) -> Json {
    Json::Object(
        Map::empty().insert("systemInstruction"@, instruction(system)).insert(
            "contents"@,
            Json::Array(turns.map_values(|t: Turn| turn_sent(t))),
        ).insert("tools"@, declared_tools()).insert(
            "toolConfig"@,
            object1("functionCallingConfig"@, object1("mode"@, Json::Text("AUTO"@))),
        ),
    )
}

/// What a run sends the model.
pub fn agent_request(system: &str, run: &AgentRun) -> (r: serde_json::Value)
    ensures
        json_of(r) == run_sent(system@, run.turns@),
{
    let ghost wanted = run.turns@.map_values(|t: Turn| turn_sent(t));
    let mut contents: Vec<serde_json::Value> = Vec::new();
    let mut i: usize = 0;
    assert(documents(contents@) =~= wanted.take(0));
    while i < run.turns.len()
        invariant
            i <= run.turns@.len(),
            wanted == run.turns@.map_values(|t: Turn| turn_sent(t)),
            documents(contents@) == wanted.take(i as int),
        decreases run.turns@.len() - i,
    {
        let ghost before = documents(contents@);
        let turn: serde_json::Value = make_turn(&run.turns[i]);
        assert(wanted[i as int] == json_of(turn));
        contents.push(turn);
        assert(documents(contents@) =~= before.push(json_of(turn)));
        i = i + 1;
        assert(documents(contents@) =~= wanted.take(i as int));
    }
    assert(wanted.take(wanted.len() as int) =~= wanted);
    let mode: serde_json::Value = make_object1("mode", text_value("AUTO"));
    let body: serde_json::Value = with_member(
        object_value(),
        "systemInstruction",
        make_instruction(system),
    );
    let body: serde_json::Value = with_member(body, "contents", array_value(contents));
    let body: serde_json::Value = with_member(body, "tools", tool_declarations());
    with_member(body, "toolConfig", make_object1("functionCallingConfig", mode))
}

/// What is sent to search the web: the query, and the tool that grounds the
/// answer.
pub fn search_request(query: &str) -> (r: serde_json::Value)
    ensures
        json_of(r) == object2(
            "contents"@,
            question(query@),
            "tools"@,
            Json::Array(seq![object1("google_search"@, Json::Object(Map::empty()))]),
        ),
{
    let tools: serde_json::Value = make_array1(make_object1("google_search", object_value()));
    make_object2("contents", make_question(query), "tools", tools)
}

/// The form that questions are asked for in: an object with a list of strings.
pub open spec fn question_schema() -> Json {
    object3(
        "type"@,
        Json::Text("OBJECT"@),
        "properties"@,
        object1(
            "questions"@,
            object2(
                "type"@,
                Json::Text("ARRAY"@),
                "items"@,
                object1("type"@, Json::Text("STRING"@)),
            ),
        ),
        "required"@,
        Json::Array(seq![Json::Text("questions"@)]),
    )
}

/// What is sent to have questions suggested.
pub fn suggestions_request(transcript: &str, notes: &str) -> (r: serde_json::Value)
    ensures
        json_of(r) == object3(
            "systemInstruction"@,
            instruction(SYSTEM_PROMPT@),
            "contents"@,
            question(suggestion_text(transcript@, notes@)),
            "generationConfig"@,
            object2(
                "responseMimeType"@,
                Json::Text("application/json"@),
                "responseSchema"@,
                question_schema(),
            ),
        ),
{
    let items: serde_json::Value = make_object1("type", text_value("STRING"));
    let list: serde_json::Value = make_object2("type", text_value("ARRAY"), "items", items);
    let schema: serde_json::Value = make_object3(
        "type",
        text_value("OBJECT"),
        "properties",
        make_object1("questions", list),
        "required",
        make_array1(text_value("questions")),
    );
    let config: serde_json::Value = make_object2(
        "responseMimeType",
        text_value("application/json"),
        "responseSchema",
        schema,
    );
    let prompt: String = suggestion_prompt(transcript, notes);
    make_object3(
        "systemInstruction",
        make_instruction(SYSTEM_PROMPT),
        "contents",
        make_question(prompt.as_str()),
        "generationConfig",
        config,
    )
}

/// What is sent to have a meeting named.
pub fn title_request(context: &str) -> (r: serde_json::Value)
    ensures
        json_of(r) == object3(
            "systemInstruction"@,
            instruction(TITLE_ROLE@),
            "contents"@,
            question(TITLE_PROMPT@ + context@),
            "generationConfig"@,
            object1("responseMimeType"@, Json::Text("text/plain"@)),
        ),
{
    let prompt: String = title_prompt(context);
    let config: serde_json::Value = make_object1("responseMimeType", text_value("text/plain"));
    make_object3(
        "systemInstruction",
        make_instruction(TITLE_ROLE),
        "contents",
        make_question(prompt.as_str()),
        "generationConfig",
        config,
    )
}

/// What is sent to have an uploaded recording transcribed, but for the
/// temperature of the model.
pub fn transcribe_request(file_uri: &str) -> (r: serde_json::Value)
    ensures
        json_of(r) == object1(
            "contents"@,
            Json::Array(
                seq![
                    contribution(
                        "user"@,
                        Json::Array(
                            seq![
                                text_part(TRANSCRIBE_PROMPT@),
                                object1(
                                    "fileData"@,
                                    object2(
                                        "mimeType"@,
                                        Json::Text("audio/wav"@),
                                        "fileUri"@,
                                        Json::Text(file_uri@),
                                    ),
                                ),
                            ],
                        ),
                    ),
                ],
            ),
        ),
{
    let file: serde_json::Value = make_object2(
        "mimeType",
        text_value("audio/wav"),
        "fileUri",
        text_value(file_uri),
    );
    let parts: serde_json::Value = make_array2(
        make_object1("text", text_value(TRANSCRIBE_PROMPT)),
        make_object1("fileData", file),
    );
    make_object1("contents", make_array1(make_contribution("user", parts)))
}

/// What is sent to open an upload.
pub fn upload_request() -> (r: serde_json::Value)
    ensures
        json_of(r) == object1(
            "file"@,
            object1("display_name"@, Json::Text("meeting-audio"@)),
        ),
{
    make_object1("file", make_object1("display_name", text_value("meeting-audio")))
}

/// Whatever a run has come to, what it sends holds every turn of its
/// conversation, in order, and offers the same tools.
pub proof fn law_whole_conversation_is_sent(system: Seq<char>, turns: Seq<Turn>, i: int)
    requires
        0 <= i < turns.len(),
    ensures
        run_sent(system, turns).member("contents"@) matches Some(contents) && contents.element(i)
            == Some(turn_sent(turns[i])),
        run_sent(system, turns).member("tools"@) == Some(declared_tools()),
{
    reveal_strlit("contents");
    reveal_strlit("tools");
    reveal_strlit("toolConfig");
    assert("contents"@ != "tools"@) by {
        assert("contents"@.len() == 8 && "tools"@.len() == 5);
    }
    assert("contents"@ != "toolConfig"@) by {
        assert("contents"@.len() == 8 && "toolConfig"@.len() == 10);
    }
    assert("tools"@ != "toolConfig"@) by {
        assert("tools"@.len() == 5 && "toolConfig"@.len() == 10);
    }
    assert(turns.map_values(|t: Turn| turn_sent(t))[i] == turn_sent(turns[i]));
}

proof fn lemma_role_and_parts()
    ensures
        "role"@ != "parts"@,
{
    reveal_strlit("role");
    reveal_strlit("parts");
    assert("role"@.len() == 4 && "parts"@.len() == 5);
}

/// A question is sent as one contribution of the user, with the text as it is;
/// so is what the model is told of its task.
pub proof fn law_a_question_is_sent_as_it_is(text: Seq<char>)
    ensures
        question(text).elements() is Some,
        question(text).elements()->0.len() == 1,
        ({
            let said = question(text).elements()->0[0];
            &&& said.text_at("role"@) == Some("user"@)
            &&& said.member("parts"@) is Some
            &&& said.member("parts"@)->0.elements() is Some
            &&& said.member("parts"@)->0.elements()->0.len() == 1
            &&& said.member("parts"@)->0.elements()->0[0].text_at("text"@) == Some(text)
        }),
        ({
            let told = instruction(text).member("parts"@);
            &&& told is Some
            &&& told->0.elements() is Some
            &&& told->0.elements()->0.len() == 1
            &&& told->0.elements()->0[0].text_at("text"@) == Some(text)
        }),
{
    lemma_role_and_parts();
}

/// What the user brings is sent as the user's text.
pub proof fn law_the_users_turn_is_sent(text: String)
    ensures
        ({
            let sent = turn_sent(Turn::User(text));
            &&& sent.text_at("role"@) == Some("user"@)
            &&& sent.member("parts"@) is Some
            &&& sent.member("parts"@)->0.elements() is Some
            &&& sent.member("parts"@)->0.elements()->0.len() == 1
            &&& sent.member("parts"@)->0.elements()->0[0].text_at("text"@) == Some(text@)
        }),
{
    lemma_role_and_parts();
}

/// The calls of the model are sent back to it as they came, each and in order.
pub proof fn law_calls_are_echoed(calls: Vec<ToolCall>, k: int)
    ensures
        ({
            let sent = turn_sent(Turn::Calls(calls));
            &&& sent.text_at("role"@) == Some("model"@)
            &&& sent.member("parts"@) is Some
            &&& sent.member("parts"@)->0.elements() is Some
            &&& sent.member("parts"@)->0.elements()->0.len() == calls@.len()
            &&& 0 <= k < calls@.len() ==> sent.member("parts"@)->0.elements()->0[k] == json_of(
                calls@[k].part,
            )
        }),
{
    lemma_role_and_parts();
}

/// The result of every call is told under the call's name and id, with its
/// status and its whole output, in order.
pub proof fn law_results_are_told(responses: Vec<ToolResponse>, k: int)
    ensures
        ({
            let sent = turn_sent(Turn::Responses(responses));
            &&& sent.text_at("role"@) == Some("user"@)
            &&& sent.member("parts"@) is Some
            &&& sent.member("parts"@)->0.elements() is Some
            &&& sent.member("parts"@)->0.elements()->0.len() == responses@.len()
            &&& 0 <= k < responses@.len() ==> {
                let told = sent.member("parts"@)->0.elements()->0[k].member("functionResponse"@);
                &&& told is Some
                &&& told->0.text_at("name"@) == Some(responses@[k].name@)
                &&& told->0.text_at("id"@) == Some(responses@[k].id@)
                &&& told->0.member("response"@) is Some
                &&& told->0.member("response"@)->0.text_at("status"@) == Some(responses@[k].status@)
                &&& told->0.member("response"@)->0.text_at("output"@) == Some(responses@[k].output@)
            }
        }),
{
    lemma_role_and_parts();
    reveal_strlit("name");
    reveal_strlit("id");
    reveal_strlit("response");
    reveal_strlit("status");
    reveal_strlit("output");
    assert("name"@.len() == 4 && "id"@.len() == 2 && "response"@.len() == 8);
    assert("status"@[0] == 's' && "output"@[0] == 'o');
    if 0 <= k < responses@.len() {
        let sent = turn_sent(Turn::Responses(responses));
        assert(sent.member("parts"@)->0.elements()->0[k] == response_part(responses@[k]));
    }
}

/// A run sends its instruction as it is, and every turn of the conversation but
/// no other.
pub proof fn law_a_run_sends_its_instruction(system: Seq<char>, turns: Seq<Turn>)
    ensures
        run_sent(system, turns).member("systemInstruction"@) == Some(instruction(system)),
        run_sent(system, turns).member("contents"@) is Some,
        run_sent(system, turns).member("contents"@)->0.elements() is Some,
        run_sent(system, turns).member("contents"@)->0.elements()->0.len() == turns.len(),
{
    reveal_strlit("systemInstruction");
    reveal_strlit("contents");
    reveal_strlit("tools");
    reveal_strlit("toolConfig");
    assert("systemInstruction"@.len() == 17 && "contents"@.len() == 8);
    assert("tools"@.len() == 5 && "toolConfig"@.len() == 10);
}

/// A tool is declared under its name, with what it is for, and asks for its
/// argument and for a reason.
pub proof fn law_a_tool_is_declared(
    name: Seq<char>,
    description: Seq<char>,
    argument: Seq<char>,
    argument_description: Seq<char>,
)
    requires
        argument != "rationale"@,
    ensures
        ({
            let declared = tool(name, description, argument, argument_description);
            let parameters = declared.member("parameters"@);
            &&& declared.text_at("name"@) == Some(name)
            &&& declared.text_at("description"@) == Some(description)
            &&& parameters is Some
            &&& parameters->0.member("required"@) is Some
            &&& parameters->0.member("required"@)->0.elements() == Some(
                seq![Json::Text(argument), Json::Text("rationale"@)],
            )
            &&& parameters->0.member("properties"@) is Some
            &&& parameters->0.member("properties"@)->0.member(argument) is Some
            &&& parameters->0.member("properties"@)->0.member(argument)->0.text_at("description"@)
                == Some(argument_description)
            &&& parameters->0.member("properties"@)->0.member("rationale"@) is Some
        }),
{
    reveal_strlit("name");
    reveal_strlit("type");
    reveal_strlit("description");
    reveal_strlit("parameters");
    reveal_strlit("properties");
    reveal_strlit("required");
    assert("name"@.len() == 4 && "description"@.len() == 11 && "parameters"@.len() == 10);
    assert("type"@.len() == 4 && "properties"@.len() == 10 && "required"@.len() == 8);
}

} // verus!
