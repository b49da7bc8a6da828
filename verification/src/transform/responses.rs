//! Requests of the Responses protocol.
use vstd::prelude::*;

use crate::error::{ErrorModel, ProxyError};
use crate::json::codec;
use crate::json::{self, Fields, Json, JsonModel};
use crate::text;
use crate::transform::{chat, content, options, request, system};

verus! {

/// The kind of a text part: what the assistant put out, or what was put in.
pub open spec fn text_kind(role: Seq<char>) -> Seq<char> {
    if role == "assistant"@ {
        "output_text"@
    } else {
        "input_text"@
    }
}

fn find_text_kind(role: &str) -> (r: &'static str)
    ensures
        r@ == text_kind(role@),
{
    if text::same_text(role, "assistant") {
        "output_text"
    } else {
        "input_text"
    }
}

/// A text as a part of a message.
pub open spec fn text_part(role: Seq<char>, text: Seq<char>) -> JsonModel {
    JsonModel::Object(
        Map::empty().insert("type"@, JsonModel::Text(text_kind(role))).insert(
            "text"@,
            JsonModel::Text(text),
        ),
    )
}

fn make_text_part(role: &str, text: &str) -> (r: Json)
    ensures
        r@ == text_part(role@, text@),
{
    Json::Object(
        Fields::new().with("type", Json::text(find_text_kind(role))).with(
            "text",
            Json::text(text),
        ),
    )
}

/// An image as a part of a message.
pub open spec fn image_part(url: Seq<char>) -> JsonModel {
    JsonModel::Object(
        Map::empty().insert("type"@, JsonModel::Text("input_image"@)).insert(
            "image_url"@,
            JsonModel::Text(url),
        ),
    )
}

fn make_image_part(url: &str) -> (r: Json)
    ensures
        r@ == image_part(url@),
{
    Json::Object(
        Fields::new().with("type", Json::text("input_image")).with("image_url", Json::text(url)),
    )
}

/// A `tool_use` block as an item of its own, its input written as JSON text.
pub open spec fn call_item(block: JsonModel) -> JsonModel {
    JsonModel::Object(
        Map::empty().insert("type"@, JsonModel::Text("function_call"@)).insert(
            "call_id"@,
            JsonModel::Text(request::block_text(block, "id"@)),
        ).insert("name"@, JsonModel::Text(request::block_text(block, "name"@))).insert(
            "arguments"@,
            JsonModel::Text(codec::json_text(request::input_of(block))),
        ),
    )
}

fn make_call_item(block: &Json) -> (r: Json)
    ensures
        r@ == call_item(block@),
{
    let arguments = codec::to_text(&request::tool_input(block));
    Json::Object(
        Fields::new().with("type", Json::text("function_call")).with(
            "call_id",
            Json::text(block.text_field("id").unwrap_or("")),
        ).with("name", Json::text(block.text_field("name").unwrap_or(""))).with(
            "arguments",
            Json::Text(arguments),
        ),
    )
}

/// A `tool_result` block as an item of its own.
pub open spec fn result_item(block: JsonModel) -> JsonModel {
    JsonModel::Object(
        Map::empty().insert("type"@, JsonModel::Text("function_call_output"@)).insert(
            "call_id"@,
            JsonModel::Text(request::block_text(block, "tool_use_id"@)),
        ).insert(
            "output"@,
            JsonModel::Text(content::result_text(block.field("content"@))),
        ),
    )
}

fn make_result_item(block: &Json) -> (r: Json)
    ensures
        r@ == result_item(block@),
{
    Json::Object(
        Fields::new().with("type", Json::text("function_call_output")).with(
            "call_id",
            Json::text(block.text_field("tool_use_id").unwrap_or("")),
        ).with("output", Json::Text(content::tool_result_text(block.get("content")))),
    )
}

/// Items, and the parts of a message that is still being gathered.
pub struct ItemsModel {
    pub parts: Seq<JsonModel>,
    pub items: Seq<JsonModel>,
}

impl ItemsModel {
    pub open spec fn empty() -> ItemsModel {
        ItemsModel { parts: Seq::empty(), items: Seq::empty() }
    }

    /// The gathered parts become a message, where there are any.
    pub open spec fn flushed(self, role: Seq<char>) -> ItemsModel {
        if self.parts.len() > 0 {
            ItemsModel {
                parts: Seq::empty(),
                items: self.items.push(
                    JsonModel::Object(chat::plain_message(role, JsonModel::Array(self.parts))),
                ),
            }
        } else {
            self
        }
    }

    pub open spec fn with_part(self, part: Option<JsonModel>) -> ItemsModel {
        match part {
            Some(json) => ItemsModel { parts: self.parts.push(json), ..self },
            None => self,
        }
    }

    pub open spec fn with_item(self, item: JsonModel) -> ItemsModel {
        ItemsModel { items: self.items.push(item), ..self }
    }

    /// The items with what one more block of a message adds to them. A call or
    /// a result of a tool ends the message before it.
    pub open spec fn with_block(self, role: Seq<char>, block: JsonModel) -> ItemsModel {
        let kind = request::block_text(block, "type"@);
        if kind == "text"@ {
            self.with_part(
                match block.text_field("text"@) {
                    Some(text) => Some(text_part(role, text)),
                    None => None,
                },
            )
        } else if kind == "image"@ {
            self.with_part(
                match content::image_url(block) {
                    Some(url) => Some(image_part(url)),
                    None => None,
                },
            )
        } else if kind == "document"@ {
            self.with_part(content::document_part(block))
        } else if kind == "tool_use"@ {
            self.flushed(role).with_item(call_item(block))
        } else if kind == "tool_result"@ {
            self.flushed(role).with_item(result_item(block))
        } else {
            self
        }
    }
}

/// What the blocks of a message come to.
pub open spec fn items_of(role: Seq<char>, blocks: Seq<JsonModel>) -> ItemsModel
    decreases blocks.len(),
{
    if blocks.len() == 0 {
        ItemsModel::empty()
    } else {
        items_of(role, blocks.drop_last()).with_block(role, blocks.last())
    }
}

/// One message of Anthropic as items of the Responses protocol.
pub open spec fn message_items(message: JsonModel) -> Seq<JsonModel> {
    let role = request::role_of(message);
    match message.field("content"@) {
        Some(JsonModel::Text(text)) => seq![
            JsonModel::Object(
                chat::plain_message(role, JsonModel::Array(seq![text_part(role, text)])),
            ),
        ],
        Some(JsonModel::Array(blocks)) => items_of(role, blocks).flushed(role).items,
        _ => seq![JsonModel::Object(Map::empty().insert("role"@, JsonModel::Text(role)))],
    }
}

/// The messages of Anthropic as items of the Responses protocol, in their order.
pub open spec fn input_items(messages: Seq<JsonModel>) -> Seq<JsonModel>
    decreases messages.len(),
{
    if messages.len() == 0 {
        Seq::<JsonModel>::empty()
    } else {
        input_items(messages.drop_last()) + message_items(messages.last())
    }
}

/// Items, and the parts of a message that is still being gathered.
struct Items {
    parts: Vec<Json>,
    items: Vec<Json>,
}

impl View for Items {
    type V = ItemsModel;

    closed spec fn view(&self) -> ItemsModel {
        ItemsModel { parts: json::models(self.parts@), items: json::models(self.items@) }
    }
}

impl Items {
    fn new() -> (r: Items)
        ensures
            r@ == ItemsModel::empty(),
    {
        let r = Items { parts: Vec::new(), items: Vec::new() };
        assert(r@.parts =~= Seq::<JsonModel>::empty());
        assert(r@.items =~= Seq::<JsonModel>::empty());
        r
    }

    fn push_part(&mut self, part: Json)
        ensures
            final(self)@ == old(self)@.with_part(Some(part@)),
    {
        proof {
            json::lemma_models_push(self.parts@, part);
        }
        self.parts.push(part);
    }

    fn push_item(&mut self, item: Json)
        ensures
            final(self)@ == old(self)@.with_item(item@),
    {
        proof {
            json::lemma_models_push(self.items@, item);
        }
        self.items.push(item);
    }

    /// The gathered parts become a message, where there are any.
    fn flush_response_message(&mut self, role: &str)
        ensures
            final(self)@ == old(self)@.flushed(role@),
    {
        if !self.parts.is_empty() {
            let mut parts: Vec<Json> = Vec::new();
            std::mem::swap(&mut parts, &mut self.parts);
            assert(json::models(self.parts@) =~= Seq::<JsonModel>::empty());
            let message = Json::Object(
                Fields::new().with("role", Json::text(role)).with("content", Json::Array(parts)),
            );
            proof {
                json::lemma_models_push(self.items@, message);
            }
            self.items.push(message);
        }
    }

    fn take_block(&mut self, role: &str, block: &Json)
        ensures
            final(self)@ == old(self)@.with_block(role@, block@),
    {
        let kind = block.text_field("type").unwrap_or("");
        if text::same_text(kind, "text") {
            if let Some(text) = block.text_field("text") {
                self.push_part(make_text_part(role, text));
            }
        } else if text::same_text(kind, "image") {
            if let Some(url) = content::anthropic_image_url(block) {
                self.push_part(make_image_part(url.as_str()));
            }
        } else if text::same_text(kind, "document") {
            if let Some(file) = content::anthropic_document(block) {
                self.push_part(file);
            }
        } else if text::same_text(kind, "tool_use") {
            self.flush_response_message(role);
            self.push_item(make_call_item(block));
        } else if text::same_text(kind, "tool_result") {
            self.flush_response_message(role);
            self.push_item(make_result_item(block));
        }
    }
}

/// Puts the items that one message of Anthropic comes to behind `output`.
pub fn convert_anthropic_message_to_responses(message: &Json, output: &mut Vec<Json>)
    ensures
        json::models(final(output)@) == json::models(old(output)@) + message_items(message@),
{
    let role = message.text_field("role").unwrap_or("user");
    let ghost before = output@;
    match message.get("content") {
        Some(Json::Text(text)) => {
            let mut parts: Vec<Json> = Vec::new();
            parts.push(make_text_part(role, text.as_str()));
            assert(json::models(parts@) =~= seq![text_part(role@, text@)]);
            let item = Json::Object(
                Fields::new().with("role", Json::text(role)).with("content", Json::Array(parts)),
            );
            proof {
                json::lemma_models_push(output@, item);
            }
            output.push(item);
            assert(json::models(output@) =~= json::models(before) + message_items(message@));
        },
        Some(Json::Array(blocks)) => {
            let mut gathered = Items::new();
            let mut i: usize = 0;
            let ghost all = json::models(blocks@);
            assert(all.take(0) =~= Seq::<JsonModel>::empty());
            while i < blocks.len()
                invariant
                    i <= blocks.len(),
                    all == json::models(blocks@),
                    gathered@ == items_of(role@, all.take(i as int)),
                decreases blocks.len() - i,
            {
                assert(all.take(i + 1).drop_last() =~= all.take(i as int));
                assert(all.take(i + 1).last() == blocks@[i as int]@);
                gathered.take_block(role, &blocks[i]);
                i = i + 1;
            }
            assert(all.take(all.len() as int) =~= all);
            gathered.flush_response_message(role);
            let Items { parts: _, mut items } = gathered;
            output.append(&mut items);
            assert(json::models(output@) =~= json::models(before) + message_items(message@));
        },
        _ => {
            let item = Json::Object(Fields::new().with("role", Json::text(role)));
            proof {
                json::lemma_models_push(output@, item);
            }
            output.push(item);
            assert(json::models(output@) =~= json::models(before) + message_items(message@));
        },
    }
}

/// A tool of Anthropic as a tool of the Responses protocol.
pub open spec fn responses_tool(tool: JsonModel) -> JsonModel {
    JsonModel::Object(
        request::put(
            Map::empty().insert("type"@, JsonModel::Text("function"@)).insert(
                "name"@,
                JsonModel::Text(request::block_text(tool, "name"@)),
            ).insert("parameters"@, request::parameters_of(tool)),
            "description"@,
            tool.field("description"@),
        ),
    )
}

/// The tools of Anthropic that have a name as tools of the Responses protocol.
pub open spec fn responses_tools(tools: Seq<JsonModel>) -> Seq<JsonModel>
    decreases tools.len(),
{
    if tools.len() == 0 {
        Seq::<JsonModel>::empty()
    } else {
        let before = responses_tools(tools.drop_last());
        if tools.last().text_field("name"@) is Some {
            before.push(responses_tool(tools.last()))
        } else {
            before
        }
    }
}

fn make_responses_tool(tool: &Json, name: &str) -> (r: Json)
    requires
        tool@.text_field("name"@) == Some(name@),
    ensures
        r@ == responses_tool(tool@),
{
    let mut item = Fields::new().with("type", Json::text("function")).with(
        "name",
        Json::text(name),
    ).with("parameters", request::tool_parameters(tool));
    request::copy(&mut item, tool, "description", "description");
    Json::Object(item)
}

fn make_responses_tools(tools: &Vec<Json>) -> (r: Vec<Json>)
    ensures
        json::models(r@) == responses_tools(json::models(tools@)),
{
    let mut out: Vec<Json> = Vec::new();
    let mut i: usize = 0;
    let ghost all = json::models(tools@);
    assert(json::models(out@) =~= responses_tools(all.take(0)));
    while i < tools.len()
        invariant
            i <= tools.len(),
            all == json::models(tools@),
            json::models(out@) == responses_tools(all.take(i as int)),
        decreases tools.len() - i,
    {
        assert(all.take(i + 1).drop_last() =~= all.take(i as int));
        assert(all.take(i + 1).last() == tools@[i as int]@);
        if let Some(name) = tools[i].text_field("name") {
            let tool = make_responses_tool(&tools[i], name);
            proof {
                json::lemma_models_push(out@, tool);
            }
            out.push(tool);
        }
        i = i + 1;
    }
    assert(all.take(all.len() as int) =~= all);
    out
}

/// A limit on the length of an answer: one from 1 to 15 is raised to 16, the
/// least that the protocol takes.
pub open spec fn limit(value: JsonModel) -> JsonModel {
    match value.as_u64() {
        Some(n) => if 1 <= n <= 15 {
            JsonModel::Unsigned(16)
        } else {
            value
        },
        None => value,
    }
}

fn raise_limit(value: &Json) -> (r: Json)
    ensures
        r@ == limit(value@),
{
    if let Some(n) = value.as_u64() {
        if 1 <= n && n <= 15 {
            return Json::Unsigned(16);
        }
    }
    value.clone()
}

/// The text of the system as instructions, where there is any.
pub open spec fn instructions(body: JsonModel) -> Option<JsonModel> {
    if request::system_text(body).len() > 0 {
        Some(JsonModel::Text(request::system_text(body)))
    } else {
        None
    }
}

/// The tools of a request, where there are any.
pub open spec fn tools_asked(body: JsonModel) -> Option<JsonModel> {
    match body.array_field("tools"@) {
        Some(tools) => if responses_tools(tools).len() > 0 {
            Some(JsonModel::Array(responses_tools(tools)))
        } else {
            None
        },
        None => None,
    }
}

/// A request of Anthropic as a request of the Responses protocol, field by field.
pub open spec fn responses_fields(body: JsonModel) -> Map<Seq<char>, JsonModel> {
    let m = request::put(Map::empty(), "model"@, body.field("model"@));
    let m = request::put(m, "instructions"@, instructions(body));
    let m = m.insert("input"@, JsonModel::Array(input_items(system::messages_of(body))));
    let m = match body.field("max_tokens"@) {
        Some(value) => m.insert("max_output_tokens"@, limit(value)),
        None => m,
    };
    let m = request::put(m, "temperature"@, body.field("temperature"@));
    let m = request::put(m, "top_p"@, body.field("top_p"@));
    let m = request::put(m, "stream"@, body.field("stream"@));
    let m = match chat::effort_asked(body) {
        Some(effort) => m.insert(
            "reasoning"@,
            JsonModel::Object(Map::empty().insert("effort"@, JsonModel::Text(effort))),
        ),
        None => m,
    };
    let m = request::put(m, "tools"@, tools_asked(body));
    let m = match body.field("tool_choice"@) {
        Some(choice) => request::put(
            m.insert("tool_choice"@, options::responses_choice(choice)),
            "parallel_tool_calls"@,
            request::parallel_calls(choice),
        ),
        None => m,
    };
    request::put(m, "user"@, body.nested("metadata"@, "user_id"@))
}

/// What the conversion of a request to the Responses protocol gives.
pub open spec fn responses_request(body: JsonModel) -> Result<JsonModel, ErrorModel> {
    match request::refusal(body) {
        Some(error) => Err(error),
        None => Ok(JsonModel::Object(responses_fields(body))),
    }
}

fn convert_messages(messages: &Vec<Json>) -> (r: Vec<Json>)
    ensures
        json::models(r@) == input_items(json::models(messages@)),
{
    let mut out: Vec<Json> = Vec::new();
    let ghost all = json::models(messages@);
    let mut i: usize = 0;
    assert(json::models(out@) =~= input_items(all.take(0)));
    while i < messages.len()
        invariant
            i <= messages.len(),
            all == json::models(messages@),
            json::models(out@) == input_items(all.take(i as int)),
        decreases messages.len() - i,
    {
        assert(all.take(i + 1).drop_last() =~= all.take(i as int));
        assert(all.take(i + 1).last() == messages@[i as int]@);
        convert_anthropic_message_to_responses(&messages[i], &mut out);
        i = i + 1;
    }
    assert(all.take(all.len() as int) =~= all);
    out
}

/// Converts a request of Anthropic to a request of the Responses protocol.
pub fn anthropic_to_responses(body: &Json) -> (r: Result<Json, ProxyError>)
    ensures
        request::converted(r) == responses_request(body@),
{
    if let Err(error) = request::validate_anthropic_request(body) {
        return Err(error);
    }
    let messages = body.array_field("messages").expect("validated messages");
    let model = body.text_field("model").unwrap_or("");
    let mut out = Fields::new();
    request::copy(&mut out, body, "model", "model");
    if let Some(system) = body.get("system") {
        let said = content::text_from_content(system);
        if !said.as_str().is_empty() {
            let _ = out.insert("instructions", Json::Text(said));
        }
    }
    let _ = out.insert("input", Json::Array(convert_messages(messages)));
    if let Some(value) = body.get("max_tokens") {
        let _ = out.insert("max_output_tokens", raise_limit(value));
    }
    request::copy(&mut out, body, "temperature", "temperature");
    request::copy(&mut out, body, "top_p", "top_p");
    request::copy(&mut out, body, "stream", "stream");
    if options::supports_reasoning(model) {
        if let Some(effort) = options::reasoning_effort(body) {
            let _ = out.insert(
                "reasoning",
                Json::Object(Fields::new().with("effort", Json::text(effort))),
            );
        }
    }
    if let Some(tools) = body.array_field("tools") {
        let converted = make_responses_tools(tools);
        if !converted.is_empty() {
            let _ = out.insert("tools", Json::Array(converted));
        }
    }
    if let Some(choice) = body.get("tool_choice") {
        let _ = out.insert("tool_choice", options::responses_tool_choice(choice));
        request::set_some(
            &mut out,
            "parallel_tool_calls",
            request::parallel_tool_calls(choice),
        );
    }
    if let Some(user) = body.nested("metadata", "user_id") {
        let _ = out.insert("user", user.clone());
    }
    Ok(Json::Object(out))
}

}
