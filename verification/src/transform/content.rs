//! What the content of a message says: plain text, images, documents and the
//! results of tools.
use vstd::prelude::*;

use crate::json::codec;
use crate::json::{self, Fields, Json, JsonModel};
use crate::text::{self, CharClass};

verus! {

/// `text` without the billing header that may stand on its first line.
pub open spec fn without_billing(text: Seq<char>) -> Seq<char> {
    if !text::begins_with(text, "x-anthropic-billing-header:"@) {
        text
    } else {
        match text::after_first(text, '\n') {
            Some(rest) => text::trim_front(rest, CharClass::LineBreak),
            None => Seq::<char>::empty(),
        }
    }
}

/// `text` without the billing header that may stand on its first line.
pub fn strip_billing_header(text: &str) -> (r: &str)
    ensures
        r@ == without_billing(text@),
{
    if !text::has_prefix(text, "x-anthropic-billing-header:") {
        return text;
    }
    match text::rest_after(text, '\n') {
        Some(rest) => text::trim_start(rest, CharClass::LineBreak),
        None => {
            proof {
                reveal_strlit("");
            }
            assert(""@ =~= Seq::<char>::empty());
            ""
        },
    }
}

/// The texts of the parts of a list that have one, billing headers and empty
/// texts left out.
pub open spec fn part_texts(parts: Seq<JsonModel>) -> Seq<Seq<char>>
    decreases parts.len(),
{
    if parts.len() == 0 {
        Seq::<Seq<char>>::empty()
    } else {
        let before = part_texts(parts.drop_last());
        match parts.last().text_field("text"@) {
            Some(text) => if without_billing(text).len() > 0 {
                before.push(without_billing(text))
            } else {
                before
            },
            None => before,
        }
    }
}

/// The text of a content: that of a string, or of the parts of a list with a
/// blank line between them.
pub open spec fn content_text(value: JsonModel) -> Seq<char> {
    match value {
        JsonModel::Text(text) => without_billing(text),
        JsonModel::Array(parts) => text::joined(part_texts(parts), "\n\n"@),
        _ => Seq::<char>::empty(),
    }
}

/// The text of a content: that of a string, or of the parts of a list with a
/// blank line between them.
pub fn text_from_content(value: &Json) -> (r: String)
    ensures
        r@ == content_text(value@),
{
    if let Some(text) = value.as_str() {
        return strip_billing_header(text).to_owned();
    }
    match value.as_array() {
        Some(parts) => {
            let mut texts: Vec<String> = Vec::new();
            let mut i: usize = 0;
            assert(text::texts(texts@) =~= part_texts(json::models(parts@).take(0)));
            while i < parts.len()
                invariant
                    i <= parts.len(),
                    text::texts(texts@) == part_texts(json::models(parts@).take(i as int)),
                decreases parts.len() - i,
            {
                let ghost all = json::models(parts@);
                let ghost before = texts@;
                assert(all.take(i + 1).drop_last() =~= all.take(i as int));
                assert(all.take(i + 1).last() == parts@[i as int]@);
                if let Some(text) = parts[i].text_field("text") {
                    let kept = strip_billing_header(text);
                    if !kept.is_empty() {
                        texts.push(kept.to_owned());
                        assert(text::texts(texts@) =~= text::texts(before).push(kept@));
                    }
                }
                i = i + 1;
            }
            assert(json::models(parts@).take(parts@.len() as int) =~= json::models(parts@));
            text::join(&texts, "\n\n")
        },
        None => String::new(),
    }
}

/// Data with its media type as a `data:` URL.
pub open spec fn data_url(media_type: Seq<char>, data: Seq<char>) -> Seq<char> {
    "data:"@ + media_type + ";base64,"@ + data
}

fn make_data_url(media_type: &str, data: &str) -> (r: String)
    ensures
        r@ == data_url(media_type@, data@),
{
    let mut out = "data:".to_owned();
    out.append(media_type);
    out.append(";base64,");
    out.append(data);
    out
}

/// The URL of an image block: the one it names, or its data as a `data:` URL.
pub open spec fn image_url(block: JsonModel) -> Option<Seq<char>> {
    match block.field("source"@) {
        None => None,
        Some(source) => match source.text_field("type"@) {
            None => None,
            Some(kind) => if kind == "url"@ {
                source.text_field("url"@)
            } else if kind == "base64"@ {
                match source.text_field("data"@) {
                    None => None,
                    Some(data) => Some(
                        data_url(
                            match source.text_field("media_type"@) {
                                Some(media_type) => media_type,
                                None => "image/png"@,
                            },
                            data,
                        ),
                    ),
                }
            } else {
                None
            },
        },
    }
}

/// The URL of an image block: the one it names, or its data as a `data:` URL.
pub fn anthropic_image_url(block: &Json) -> (r: Option<String>)
    ensures
        text::text_opt(r) == image_url(block@),
{
    let source = match block.get("source") {
        Some(source) => source,
        None => return None,
    };
    let kind = match source.text_field("type") {
        Some(kind) => kind,
        None => return None,
    };
    if text::same_text(kind, "url") {
        match source.text_field("url") {
            Some(url) => Some(url.to_owned()),
            None => None,
        }
    } else if text::same_text(kind, "base64") {
        let media_type = source.text_field("media_type").unwrap_or("image/png");
        match source.text_field("data") {
            Some(data) => Some(make_data_url(media_type, data)),
            None => None,
        }
    } else {
        None
    }
}

/// A file part of a Responses message.
pub open spec fn file_part(key: Seq<char>, file: JsonModel, filename: Seq<char>) -> JsonModel {
    JsonModel::Object(
        Map::empty().insert("type"@, JsonModel::Text("input_file"@)).insert(key, file).insert(
            "filename"@,
            JsonModel::Text(filename),
        ),
    )
}

fn make_file_part(key: &str, file: Json, filename: &str) -> (r: Json)
    ensures
        r@ == file_part(key@, file@, filename@),
{
    Json::Object(
        Fields::new().with("type", Json::text("input_file")).with(key, file).with(
            "filename",
            Json::text(filename),
        ),
    )
}

/// A document block as a file part: by the URL it names, or by its data.
pub open spec fn document_part(block: JsonModel) -> Option<JsonModel> {
    let filename = match block.text_field("title"@) {
        Some(title) => title,
        None => "document"@,
    };
    match block.field("source"@) {
        None => None,
        Some(source) => match source.text_field("type"@) {
            None => None,
            Some(kind) => if kind == "url"@ {
                match source.field("url"@) {
                    Some(url) => Some(file_part("file_url"@, url, filename)),
                    None => None,
                }
            } else if kind == "base64"@ {
                match source.text_field("data"@) {
                    None => None,
                    Some(data) => Some(
                        file_part(
                            "file_data"@,
                            JsonModel::Text(
                                data_url(
                                    match source.text_field("media_type"@) {
                                        Some(media_type) => media_type,
                                        None => "application/pdf"@,
                                    },
                                    data,
                                ),
                            ),
                            filename,
                        ),
                    ),
                }
            } else {
                None
            },
        },
    }
}

/// A document block as a file part: by the URL it names, or by its data.
pub fn anthropic_document(block: &Json) -> (r: Option<Json>)
    ensures
        json::json_opt(r) == document_part(block@),
{
    let source = match block.get("source") {
        Some(source) => source,
        None => return None,
    };
    let filename = block.text_field("title").unwrap_or("document");
    let kind = match source.text_field("type") {
        Some(kind) => kind,
        None => return None,
    };
    if text::same_text(kind, "url") {
        match source.get("url") {
            Some(url) => Some(make_file_part("file_url", url.clone(), filename)),
            None => None,
        }
    } else if text::same_text(kind, "base64") {
        let media_type = source.text_field("media_type").unwrap_or("application/pdf");
        match source.text_field("data") {
            Some(data) => Some(
                make_file_part("file_data", Json::Text(make_data_url(media_type, data)), filename),
            ),
            None => None,
        }
    } else {
        None
    }
}

/// The text of one part of a tool result: its text, or the part itself as JSON.
pub open spec fn result_part_text(part: JsonModel) -> Seq<char> {
    match part.text_field("text"@) {
        Some(text) => text,
        None => codec::json_text(part),
    }
}

/// The text of a tool result.
pub open spec fn result_text(value: Option<JsonModel>) -> Seq<char> {
    match value {
        None => Seq::<char>::empty(),
        Some(JsonModel::Null) => Seq::<char>::empty(),
        Some(JsonModel::Text(text)) => text,
        Some(JsonModel::Array(parts)) => text::joined(
            Seq::new(parts.len(), |i: int| result_part_text(parts[i])),
            "\n"@,
        ),
        Some(other) => codec::json_text(other),
    }
}

/// The text of a tool result.
pub fn tool_result_text(value: Option<&Json>) -> (r: String)
    ensures
        r@ == result_text(json::json_ref(value)),
{
    match value {
        None => String::new(),
        Some(Json::Null) => String::new(),
        Some(Json::Text(text)) => text.clone(),
        Some(Json::Array(parts)) => {
            let mut texts: Vec<String> = Vec::new();
            let mut i: usize = 0;
            while i < parts.len()
                invariant
                    i <= parts.len(),
                    texts.len() == i,
                    forall|j: int|
                        0 <= j < i ==> (#[trigger] texts@[j])@ == result_part_text(parts@[j]@),
                decreases parts.len() - i,
            {
                let part_text = match parts[i].text_field("text") {
                    Some(text) => text.to_owned(),
                    None => codec::to_text(&parts[i]),
                };
                texts.push(part_text);
                i = i + 1;
            }
            let ghost all = json::models(parts@);
            assert(text::texts(texts@) =~= Seq::new(
                all.len(),
                |i: int| result_part_text(all[i]),
            ));
            text::join(&texts, "\n")
        },
        Some(other) => codec::to_text(other),
    }
}

}
