//! Requests of the Chat Completions protocol.
use vstd::prelude::*;

use crate::error::{ErrorModel, ProxyError};
use crate::json::codec;
use crate::json::{self, Fields, Json, JsonModel};
use crate::text;
use crate::transform::{content, options, request};

verus! {

/// A message of a role with a content.
pub open spec fn plain_message(role: Seq<char>, content: JsonModel) -> Map<Seq<char>, JsonModel> {
    Map::empty().insert("role"@, JsonModel::Text(role)).insert("content"@, content)
}

fn make_message(role: &str, content: Json) -> (r: Fields)
    ensures
        r@ == plain_message(role@, content@),
{
    Fields::new().with("role", Json::text(role)).with("content", content)
}

/// What the blocks of a message come to: parts of its content, with the texts
/// among them, calls of tools, results of tools, and thoughts.
pub struct PartsModel {
    pub content: Seq<JsonModel>,
    pub texts: Seq<Seq<char>>,
    pub has_image: bool,
    pub calls: Seq<JsonModel>,
    pub results: Seq<JsonModel>,
    pub thoughts: Seq<Seq<char>>,
}

/// A text as a part of a content.
pub open spec fn text_part(text: Seq<char>) -> JsonModel {
    JsonModel::Object(
        Map::empty().insert("type"@, JsonModel::Text("text"@)).insert(
            "text"@,
            JsonModel::Text(text),
        ),
    )
}

/// An image as a part of a content.
pub open spec fn image_part(url: Seq<char>) -> JsonModel {
    JsonModel::Object(
        Map::empty().insert("type"@, JsonModel::Text("image_url"@)).insert(
            "image_url"@,
            JsonModel::Object(Map::empty().insert("url"@, JsonModel::Text(url))),
        ),
    )
}

/// A `tool_use` block as a tool call, its input written as JSON text.
pub open spec fn tool_call(block: JsonModel) -> JsonModel {
    JsonModel::Object(
        Map::empty().insert("id"@, JsonModel::Text(request::block_text(block, "id"@))).insert(
            "type"@,
            JsonModel::Text("function"@),
        ).insert(
            "function"@,
            JsonModel::Object(
                Map::empty().insert(
                    "name"@,
                    JsonModel::Text(request::block_text(block, "name"@)),
                ).insert(
                    "arguments"@,
                    JsonModel::Text(codec::json_text(request::input_of(block))),
                ),
            ),
        ),
    )
}

/// A `tool_result` block as a message of its own.
pub open spec fn tool_message(block: JsonModel) -> JsonModel {
    JsonModel::Object(
        Map::empty().insert("role"@, JsonModel::Text("tool"@)).insert(
            "tool_call_id"@,
            JsonModel::Text(request::block_text(block, "tool_use_id"@)),
        ).insert(
            "content"@,
            JsonModel::Text(content::result_text(block.field("content"@))),
        ),
    )
}

impl PartsModel {
    pub open spec fn empty() -> PartsModel {
        PartsModel {
            content: Seq::empty(),
            texts: Seq::empty(),
            has_image: false,
            calls: Seq::empty(),
            results: Seq::empty(),
            thoughts: Seq::empty(),
        }
    }

    /// The parts with what one more block adds to them.
    pub open spec fn with_block(self, block: JsonModel) -> PartsModel {
        let kind = request::block_text(block, "type"@);
        if kind == "text"@ {
            match block.text_field("text"@) {
                Some(text) => PartsModel {
                    content: self.content.push(text_part(text)),
                    texts: self.texts.push(text),
                    ..self
                },
                None => self,
            }
        } else if kind == "image"@ {
            match content::image_url(block) {
                Some(url) => PartsModel {
                    content: self.content.push(image_part(url)),
                    has_image: true,
                    ..self
                },
                None => self,
            }
        } else if kind == "tool_use"@ {
            PartsModel { calls: self.calls.push(tool_call(block)), ..self }
        } else if kind == "tool_result"@ {
            PartsModel { results: self.results.push(tool_message(block)), ..self }
        } else if kind == "thinking"@ {
            match block.text_field("thinking"@) {
                Some(text) => PartsModel { thoughts: self.thoughts.push(text), ..self },
                None => self,
            }
        } else {
            self
        }
    }

    /// The parts as the content of one message: one text where all are texts.
    pub open spec fn message_content(self) -> JsonModel {
        if self.content.len() == 0 {
            JsonModel::Null
        } else if !self.has_image {
            JsonModel::Text(text::joined(self.texts, ""@))
        } else {
            JsonModel::Array(self.content)
        }
    }

    /// Whether there is a message besides the results of tools.
    pub open spec fn has_message(self, role: Seq<char>) -> bool {
        self.content.len() > 0 || self.calls.len() > 0 || role == "assistant"@
    }

    /// The message besides the results of tools.
    pub open spec fn message(self, role: Seq<char>) -> JsonModel {
        let base = plain_message(role, self.message_content());
        let with_calls = if self.calls.len() > 0 {
            base.insert("tool_calls"@, JsonModel::Array(self.calls))
        } else {
            base
        };
        JsonModel::Object(
            if self.thoughts.len() > 0 {
                with_calls.insert(
                    "reasoning_content"@,
                    JsonModel::Text(text::joined(self.thoughts, "\n"@)),
                )
            } else {
                with_calls
            },
        )
    }

    /// The messages that the parts come to: the results of tools stand first,
    /// each by itself.
    pub open spec fn messages(self, role: Seq<char>) -> Seq<JsonModel> {
        if self.has_message(role) {
            self.results.push(self.message(role))
        } else {
            self.results
        }
    }
}

/// What a list of blocks comes to.
pub open spec fn parts_of(blocks: Seq<JsonModel>) -> PartsModel
    decreases blocks.len(),
{
    if blocks.len() == 0 {
        PartsModel::empty()
    } else {
        parts_of(blocks.drop_last()).with_block(blocks.last())
    }
}

/// One message of Anthropic as messages of the Chat protocol.
pub open spec fn chat_message(message: JsonModel) -> Seq<JsonModel> {
    let role = request::role_of(message);
    match message.field("content"@) {
        Some(JsonModel::Text(text)) => seq![
            JsonModel::Object(plain_message(role, JsonModel::Text(text))),
        ],
        Some(JsonModel::Array(blocks)) => parts_of(blocks).messages(role),
        _ => seq![JsonModel::Object(plain_message(role, JsonModel::Null))],
    }
}

/// The messages of Anthropic as messages of the Chat protocol, in their order.
pub open spec fn chat_messages(messages: Seq<JsonModel>) -> Seq<JsonModel>
    decreases messages.len(),
{
    if messages.len() == 0 {
        Seq::<JsonModel>::empty()
    } else {
        chat_messages(messages.drop_last()) + chat_message(messages.last())
    }
}

/// What the blocks of a message come to.
struct Parts {
    content: Vec<Json>,
    texts: Vec<String>,
    has_image: bool,
    calls: Vec<Json>,
    results: Vec<Json>,
    thoughts: Vec<String>,
}

impl View for Parts {
    type V = PartsModel;

    closed spec fn view(&self) -> PartsModel {
        PartsModel {
            content: json::models(self.content@),
            texts: text::texts(self.texts@),
            has_image: self.has_image,
            calls: json::models(self.calls@),
            results: json::models(self.results@),
            thoughts: text::texts(self.thoughts@),
        }
    }
}

fn make_text_part(text: &str) -> (r: Json)
    ensures
        r@ == text_part(text@),
{
    Json::Object(Fields::new().with("type", Json::text("text")).with("text", Json::text(text)))
}

fn make_image_part(url: &str) -> (r: Json)
    ensures
        r@ == image_part(url@),
{
    Json::Object(
        Fields::new().with("type", Json::text("image_url")).with(
            "image_url",
            Json::Object(Fields::new().with("url", Json::text(url))),
        ),
    )
}

fn make_tool_call(block: &Json) -> (r: Json)
    ensures
        r@ == tool_call(block@),
{
    let arguments = codec::to_text(&request::tool_input(block));
    let function = Fields::new().with(
        "name",
        Json::text(block.text_field("name").unwrap_or("")),
    ).with("arguments", Json::Text(arguments));
    Json::Object(
        Fields::new().with("id", Json::text(block.text_field("id").unwrap_or(""))).with(
            "type",
            Json::text("function"),
        ).with("function", Json::Object(function)),
    )
}

fn make_tool_message(block: &Json) -> (r: Json)
    ensures
        r@ == tool_message(block@),
{
    Json::Object(
        Fields::new().with("role", Json::text("tool")).with(
            "tool_call_id",
            Json::text(block.text_field("tool_use_id").unwrap_or("")),
        ).with("content", Json::Text(content::tool_result_text(block.get("content")))),
    )
}

impl Parts {
    fn new() -> (r: Parts)
        ensures
            r@ == PartsModel::empty(),
    {
        let r = Parts {
            content: Vec::new(),
            texts: Vec::new(),
            has_image: false,
            calls: Vec::new(),
            results: Vec::new(),
            thoughts: Vec::new(),
        };
        assert(r@.content =~= Seq::<JsonModel>::empty());
        assert(r@.texts =~= Seq::<Seq<char>>::empty());
        assert(r@.calls =~= Seq::<JsonModel>::empty());
        assert(r@.results =~= Seq::<JsonModel>::empty());
        assert(r@.thoughts =~= Seq::<Seq<char>>::empty());
        r
    }

    fn take_block(&mut self, block: &Json)
        ensures
            final(self)@ == old(self)@.with_block(block@),
    {
        let kind = block.text_field("type").unwrap_or("");
        if text::same_text(kind, "text") {
            if let Some(text) = block.text_field("text") {
                let part = make_text_part(text);
                let owned = text.to_owned();
                proof {
                    json::lemma_models_push(self.content@, part);
                    text::lemma_texts_push(self.texts@, owned);
                }
                self.content.push(part);
                self.texts.push(owned);
            }
        } else if text::same_text(kind, "image") {
            if let Some(url) = content::anthropic_image_url(block) {
                let part = make_image_part(url.as_str());
                proof {
                    json::lemma_models_push(self.content@, part);
                }
                self.content.push(part);
                self.has_image = true;
            }
        } else if text::same_text(kind, "tool_use") {
            let call = make_tool_call(block);
            proof {
                json::lemma_models_push(self.calls@, call);
            }
            self.calls.push(call);
        } else if text::same_text(kind, "tool_result") {
            let result = make_tool_message(block);
            proof {
                json::lemma_models_push(self.results@, result);
            }
            self.results.push(result);
        } else if text::same_text(kind, "thinking") {
            if let Some(text) = block.text_field("thinking") {
                let owned = text.to_owned();
                proof {
                    text::lemma_texts_push(self.thoughts@, owned);
                }
                self.thoughts.push(owned);
            }
        }
    }
}

impl Parts {
    fn into_content(content: Vec<Json>, texts: &Vec<String>, has_image: bool) -> (r: Json)
        ensures
            r@ == (PartsModel {
                content: json::models(content@),
                texts: text::texts(texts@),
                has_image,
                ..PartsModel::empty()
            }).message_content(),
    {
        if content.is_empty() {
            Json::Null
        } else if !has_image {
            Json::Text(text::join(texts, ""))
        } else {
            Json::Array(content)
        }
    }

    fn into_messages(self, role: &str, output: &mut Vec<Json>)
        ensures
            json::models(final(output)@) == json::models(old(output)@) + self@.messages(role@),
    {
        let Parts { content, texts, has_image, calls, mut results, thoughts } = self;
        let ghost before = output@;
        let has_message: bool = !content.is_empty() || !calls.is_empty() || text::same_text(
            role,
            "assistant",
        );
        output.append(&mut results);
        assert(json::models(output@) =~= json::models(before) + self@.results);
        if has_message {
            let mut converted = make_message(
                role,
                Parts::into_content(content, &texts, has_image),
            );
            if !calls.is_empty() {
                let _ = converted.insert("tool_calls", Json::Array(calls));
            }
            if !thoughts.is_empty() {
                let _ = converted.insert(
                    "reasoning_content",
                    Json::Text(text::join(&thoughts, "\n")),
                );
            }
            let message = Json::Object(converted);
            proof {
                json::lemma_models_push(output@, message);
            }
            output.push(message);
            assert(json::models(output@) =~= json::models(before) + self@.messages(role@));
        }
    }
}

/// Puts the messages that one message of Anthropic comes to behind `output`.
pub fn convert_anthropic_message_to_chat(message: &Json, output: &mut Vec<Json>)
    ensures
        json::models(final(output)@) == json::models(old(output)@) + chat_message(message@),
{
    let role = message.text_field("role").unwrap_or("user");
    let ghost before = output@;
    match message.get("content") {
        Some(Json::Text(text)) => {
            let converted = Json::Object(make_message(role, Json::Text(text.clone())));
            proof {
                json::lemma_models_push(output@, converted);
            }
            output.push(converted);
            assert(json::models(output@) =~= json::models(before) + chat_message(message@));
        },
        Some(Json::Array(blocks)) => {
            let mut parts = Parts::new();
            let mut i: usize = 0;
            let ghost all = json::models(blocks@);
            assert(all.take(0) =~= Seq::<JsonModel>::empty());
            while i < blocks.len()
                invariant
                    i <= blocks.len(),
                    all == json::models(blocks@),
                    parts@ == parts_of(all.take(i as int)),
                decreases blocks.len() - i,
            {
                assert(all.take(i + 1).drop_last() =~= all.take(i as int));
                assert(all.take(i + 1).last() == blocks@[i as int]@);
                parts.take_block(&blocks[i]);
                i = i + 1;
            }
            assert(all.take(all.len() as int) =~= all);
            parts.into_messages(role, output);
        },
        _ => {
            let converted = Json::Object(make_message(role, Json::Null));
            proof {
                json::lemma_models_push(output@, converted);
            }
            output.push(converted);
            assert(json::models(output@) =~= json::models(before) + chat_message(message@));
        },
    }
}

/// A tool of Anthropic as a tool of the Chat protocol.
pub open spec fn chat_tool(tool: JsonModel) -> JsonModel {
    let name = match tool.field("name"@) {
        Some(name) => name,
        None => JsonModel::Null,
    };
    let function = request::put(
        Map::empty().insert("name"@, name).insert("parameters"@, request::parameters_of(tool)),
        "description"@,
        tool.field("description"@),
    );
    JsonModel::Object(
        Map::empty().insert("type"@, JsonModel::Text("function"@)).insert(
            "function"@,
            JsonModel::Object(function),
        ),
    )
}

/// The tools of Anthropic that have a name as tools of the Chat protocol.
pub open spec fn chat_tools(tools: Seq<JsonModel>) -> Seq<JsonModel>
    decreases tools.len(),
{
    if tools.len() == 0 {
        Seq::<JsonModel>::empty()
    } else {
        let before = chat_tools(tools.drop_last());
        if tools.last().text_field("name"@) is Some {
            before.push(chat_tool(tools.last()))
        } else {
            before
        }
    }
}

fn make_chat_tool(tool: &Json, name: &str) -> (r: Json)
    requires
        tool@.text_field("name"@) == Some(name@),
    ensures
        r@ == chat_tool(tool@),
{
    let mut function = Fields::new().with("name", Json::text(name)).with(
        "parameters",
        request::tool_parameters(tool),
    );
    request::copy(&mut function, tool, "description", "description");
    Json::Object(
        Fields::new().with("type", Json::text("function")).with(
            "function",
            Json::Object(function),
        ),
    )
}

fn make_chat_tools(tools: &Vec<Json>) -> (r: Vec<Json>)
    ensures
        json::models(r@) == chat_tools(json::models(tools@)),
{
    let mut out: Vec<Json> = Vec::new();
    let mut i: usize = 0;
    let ghost all = json::models(tools@);
    assert(json::models(out@) =~= chat_tools(all.take(0)));
    while i < tools.len()
        invariant
            i <= tools.len(),
            all == json::models(tools@),
            json::models(out@) == chat_tools(all.take(i as int)),
        decreases tools.len() - i,
    {
        assert(all.take(i + 1).drop_last() =~= all.take(i as int));
        assert(all.take(i + 1).last() == tools@[i as int]@);
        if let Some(name) = tools[i].text_field("name") {
            let tool = make_chat_tool(&tools[i], name);
            proof {
                json::lemma_models_push(out@, tool);
            }
            out.push(tool);
        }
        i = i + 1;
    }
    assert(all.take(all.len() as int) =~= all);
    out
}

/// The messages of a request of the Chat protocol: the text of the system, if
/// there is any, and the converted messages.
pub open spec fn all_chat_messages(body: JsonModel) -> Seq<JsonModel> {
    let first = if request::system_text(body).len() > 0 {
        seq![
            JsonModel::Object(
                plain_message("system"@, JsonModel::Text(request::system_text(body))),
            ),
        ]
    } else {
        Seq::<JsonModel>::empty()
    };
    first + chat_messages(crate::transform::system::messages_of(body))
}

/// The name of the field that limits the length of an answer.
pub open spec fn limit_key(body: JsonModel) -> Seq<char> {
    if options::o_series(request::model_of(body)) {
        "max_completion_tokens"@
    } else {
        "max_tokens"@
    }
}

/// The effort of reasoning, where the model reasons and the request asks for it.
pub open spec fn effort_asked(body: JsonModel) -> Option<Seq<char>> {
    if options::reasons(request::model_of(body)) {
        options::effort(body)
    } else {
        None
    }
}

/// The tools of a request, where there are any.
pub open spec fn tools_asked(body: JsonModel) -> Option<JsonModel> {
    match body.array_field("tools"@) {
        Some(tools) => if chat_tools(tools).len() > 0 {
            Some(JsonModel::Array(chat_tools(tools)))
        } else {
            None
        },
        None => None,
    }
}

/// A request of Anthropic as a request of the Chat protocol, field by field.
pub open spec fn chat_fields(body: JsonModel) -> Map<Seq<char>, JsonModel> {
    let m = request::put(Map::empty(), "model"@, body.field("model"@));
    let m = m.insert("messages"@, JsonModel::Array(all_chat_messages(body)));
    let m = request::put(m, limit_key(body), body.field("max_tokens"@));
    let m = request::put(m, "temperature"@, body.field("temperature"@));
    let m = request::put(m, "top_p"@, body.field("top_p"@));
    let m = request::put(m, "stream"@, body.field("stream"@));
    let m = request::put(m, "stop"@, body.field("stop_sequences"@));
    let m = if body.bool_field("stream"@) == Some(true) {
        m.insert(
            "stream_options"@,
            JsonModel::Object(Map::empty().insert("include_usage"@, JsonModel::Bool(true))),
        )
    } else {
        m
    };
    let m = match effort_asked(body) {
        Some(effort) => m.insert("reasoning_effort"@, JsonModel::Text(effort)),
        None => m,
    };
    let m = request::put(m, "tools"@, tools_asked(body));
    let m = match body.field("tool_choice"@) {
        Some(choice) => request::put(
            m.insert("tool_choice"@, options::chat_choice(choice)),
            "parallel_tool_calls"@,
            request::parallel_calls(choice),
        ),
        None => m,
    };
    request::put(m, "user"@, body.nested("metadata"@, "user_id"@))
}

/// What the conversion of a request to the Chat protocol gives.
pub open spec fn chat_request(body: JsonModel) -> Result<JsonModel, ErrorModel> {
    match request::refusal(body) {
        Some(error) => Err(error),
        None => Ok(JsonModel::Object(chat_fields(body))),
    }
}

fn convert_messages(body: &Json, messages: &Vec<Json>) -> (r: Vec<Json>)
    requires
        body@.array_field("messages"@) == Some(json::models(messages@)),
    ensures
        json::models(r@) == all_chat_messages(body@),
{
    let mut out: Vec<Json> = Vec::new();
    assert(json::models(out@) =~= Seq::<JsonModel>::empty());
    if let Some(system) = body.get("system") {
        let said = content::text_from_content(system);
        if !said.as_str().is_empty() {
            let message = Json::Object(make_message("system", Json::Text(said)));
            proof {
                json::lemma_models_push(out@, message);
            }
            out.push(message);
            assert(json::models(out@) =~= seq![message@]);
        }
    }
    let ghost first = json::models(out@);
    let ghost all = json::models(messages@);
    let mut i: usize = 0;
    assert(first + chat_messages(all.take(0)) =~= first);
    while i < messages.len()
        invariant
            i <= messages.len(),
            all == json::models(messages@),
            json::models(out@) == first + chat_messages(all.take(i as int)),
        decreases messages.len() - i,
    {
        let ghost before = chat_messages(all.take(i as int));
        assert(all.take(i + 1).drop_last() =~= all.take(i as int));
        assert(all.take(i + 1).last() == messages@[i as int]@);
        convert_anthropic_message_to_chat(&messages[i], &mut out);
        assert(first + before + chat_message(messages@[i as int]@) =~= first + (before
            + chat_message(messages@[i as int]@)));
        i = i + 1;
    }
    assert(all.take(all.len() as int) =~= all);
    out
}

/// Converts a request of Anthropic to a request of the Chat protocol.
pub fn anthropic_to_chat(body: &Json) -> (r: Result<Json, ProxyError>)
    ensures
        request::converted(r) == chat_request(body@),
{
    if let Err(error) = request::validate_anthropic_request(body) {
        return Err(error);
    }
    let messages = body.array_field("messages").expect("validated messages");
    let model = body.text_field("model").unwrap_or("");
    let mut out = Fields::new();
    request::copy(&mut out, body, "model", "model");
    let _ = out.insert("messages", Json::Array(convert_messages(body, messages)));
    if options::is_o_series(model) {
        request::copy(&mut out, body, "max_tokens", "max_completion_tokens");
    } else {
        request::copy(&mut out, body, "max_tokens", "max_tokens");
    }
    request::copy(&mut out, body, "temperature", "temperature");
    request::copy(&mut out, body, "top_p", "top_p");
    request::copy(&mut out, body, "stream", "stream");
    request::copy(&mut out, body, "stop_sequences", "stop");
    if let Some(true) = body.bool_field("stream") {
        let _ = out.insert(
            "stream_options",
            Json::Object(Fields::new().with("include_usage", Json::Bool(true))),
        );
    }
    if options::supports_reasoning(model) {
        if let Some(effort) = options::reasoning_effort(body) {
            let _ = out.insert("reasoning_effort", Json::text(effort));
        }
    }
    if let Some(tools) = body.array_field("tools") {
        let converted = make_chat_tools(tools);
        if !converted.is_empty() {
            let _ = out.insert("tools", Json::Array(converted));
        }
    }
    if let Some(choice) = body.get("tool_choice") {
        let _ = out.insert("tool_choice", options::chat_tool_choice(choice));
        request::set_some(
            &mut out,
            "parallel_tool_calls",
            request::parallel_tool_calls(choice),
        );
    }
    if let Some(user) = body.nested("metadata", "user_id") {
        let _ = out.insert("user", user.clone());
    }
    Ok(Json::Object(out))
}

}
