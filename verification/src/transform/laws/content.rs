//! What the content of a message comes to.
use vstd::prelude::*;

use crate::json::codec;
use crate::json::JsonModel;
use crate::text::{self, CharClass};
use crate::transform::content;

verus! {

/// The fields of files bear names of their own.
proof fn lemma_file_keys()
    ensures
        "type"@ != "file_url"@,
        "type"@ != "file_data"@,
        "type"@ != "filename"@,
        "file_url"@ != "file_data"@,
        "file_url"@ != "filename"@,
        "file_data"@ != "filename"@,
        "url"@ != "base64"@,
{
    reveal_strlit("type");
    reveal_strlit("file_url");
    reveal_strlit("file_data");
    reveal_strlit("filename");
    reveal_strlit("url");
    reveal_strlit("base64");
    assert("type"@.len() == 4);
    assert("file_url"@.len() == 8);
    assert("file_data"@.len() == 9);
    assert("filename"@.len() == 8);
    assert("file_url"@[4] == '_');
    assert("filename"@[4] == 'n');
    assert("url"@.len() == 3);
    assert("base64"@.len() == 6);
}

/// A text that begins with a billing header says what follows its first line and the
/// line ends behind that; one of a single line says nothing; any other text says all it
/// holds.
pub proof fn law_billing_header(
    first: Seq<char>,
    breaks: Seq<char>,
    rest: Seq<char>,
    other: Seq<char>,
)
    requires
        forall|i: int| 0 <= i < first.len() ==> (#[trigger] first[i]) != '\n',
        forall|i: int| 0 <= i < breaks.len() ==> (#[trigger] breaks[i]) == '\n' || breaks[i] == '\r',
        rest.len() > 0 ==> rest[0] != '\n' && rest[0] != '\r',
        !text::begins_with(other, "x-anthropic-billing-header:"@),
    ensures
        content::without_billing(other) == other,
        content::without_billing("x-anthropic-billing-header:"@ + first) == Seq::<char>::empty(),
        content::without_billing(
            ("x-anthropic-billing-header:"@ + first).push('\n') + (breaks + rest),
        ) == rest,
{
    reveal_strlit("x-anthropic-billing-header:");
    let head = "x-anthropic-billing-header:"@ + first;
    assert forall|i: int| 0 <= i < head.len() implies (#[trigger] head[i]) != '\n' by {
        if i >= 27 {
            assert(head[i] == first[i - 27]);
        }
    }
    assert(head.take(27) =~= "x-anthropic-billing-header:"@);
    lemma_no_mark(head);
    let whole = head.push('\n') + (breaks + rest);
    assert(whole.take(27) =~= "x-anthropic-billing-header:"@);
    lemma_mark_at(head, breaks + rest);
    assert(whole.skip(head.len() as int + 1) =~= breaks + rest);
    lemma_breaks_go(breaks, rest);
}

proof fn lemma_breaks_go(breaks: Seq<char>, rest: Seq<char>)
    requires
        forall|i: int| 0 <= i < breaks.len() ==> (#[trigger] breaks[i]) == '\n' || breaks[i] == '\r',
        rest.len() > 0 ==> rest[0] != '\n' && rest[0] != '\r',
    ensures
        text::trim_front(breaks + rest, CharClass::LineBreak) == rest,
    decreases breaks.len(),
{
    let whole = breaks + rest;
    if breaks.len() == 0 {
        assert(whole =~= rest);
    } else {
        let fewer = breaks.drop_first();
        assert forall|i: int| 0 <= i < fewer.len() implies (#[trigger] fewer[i]) == '\n'
            || fewer[i] == '\r' by {
            assert(fewer[i] == breaks[i + 1]);
        }
        lemma_breaks_go(fewer, rest);
        assert(whole[0] == breaks[0]);
        assert(whole.drop_first() =~= fewer + rest);
    }
}

proof fn lemma_no_mark(head: Seq<char>)
    requires
        forall|i: int| 0 <= i < head.len() ==> (#[trigger] head[i]) != '\n',
    ensures
        text::first_at(head, '\n') is None,
    decreases head.len(),
{
    if head.len() > 0 {
        let rest = head.drop_first();
        assert forall|i: int| 0 <= i < rest.len() implies (#[trigger] rest[i]) != '\n' by {
            assert(rest[i] == head[i + 1]);
        }
        lemma_no_mark(rest);
    }
}

proof fn lemma_mark_at(head: Seq<char>, tail: Seq<char>)
    requires
        forall|i: int| 0 <= i < head.len() ==> (#[trigger] head[i]) != '\n',
    ensures
        text::first_at(head.push('\n') + tail, '\n') == Some(head.len() as int),
    decreases head.len(),
{
    let whole = head.push('\n') + tail;
    if head.len() > 0 {
        let rest = head.drop_first();
        assert forall|i: int| 0 <= i < rest.len() implies (#[trigger] rest[i]) != '\n' by {
            assert(rest[i] == head[i + 1]);
        }
        lemma_mark_at(rest, tail);
        assert(whole.drop_first() =~= rest.push('\n') + tail);
        assert(whole[0] == head[0]);
    }
}

/// The text of a content: a string says what it holds without a billing header; of one
/// more part of a list, its text so read comes behind a blank line, or first where
/// nothing came before; a part that says nothing adds nothing; anything else says
/// nothing.
pub proof fn law_text_of_content(
    said: Seq<char>,
    parts: Seq<JsonModel>,
    part: JsonModel,
    other: JsonModel,
)
    ensures
        content::content_text(JsonModel::Text(said)) == content::without_billing(said),
        content::content_text(JsonModel::Array(Seq::empty())) == Seq::<char>::empty(),
        !(other is Text) && !(other is Array) ==> content::content_text(other) == Seq::<
            char,
        >::empty(),
        ({
            let before = content::content_text(JsonModel::Array(parts));
            let now = content::content_text(JsonModel::Array(parts.push(part)));
            match part.text_field("text"@) {
                None => now == before,
                Some(t) => {
                    let piece = content::without_billing(t);
                    if piece.len() == 0 {
                        now == before
                    } else if before.len() == 0 {
                        now == piece
                    } else {
                        now == before + "\n\n"@ + piece
                    }
                },
            }
        }),
{
    assert(parts.push(part).drop_last() =~= parts);
    let texts = content::part_texts(parts);
    lemma_part_texts_say_something(parts);
    reveal_strlit("\n\n");
    if let Some(t) = part.text_field("text"@) {
        let piece = content::without_billing(t);
        let more = texts.push(piece);
        assert(more.drop_last() =~= texts);
        if texts.len() == 1 {
            assert(texts[0].len() > 0);
        }
    }
}

proof fn lemma_part_texts_say_something(parts: Seq<JsonModel>)
    ensures
        forall|i: int|
            0 <= i < content::part_texts(parts).len() ==> (#[trigger] content::part_texts(
                parts,
            )[i]).len() > 0,
    decreases parts.len(),
{
    if parts.len() > 0 {
        lemma_part_texts_say_something(parts.drop_last());
        let before = content::part_texts(parts.drop_last());
        let now = content::part_texts(parts);
        assert forall|i: int| 0 <= i < now.len() implies (#[trigger] now[i]).len() > 0 by {
            if i < before.len() {
                assert(now[i] == before[i]);
            }
        }
    }
}

/// The place of an image: the URL that its source names, or its data in a `data:` URL
/// with the media type it names, or that of a PNG; any other source has none.
pub proof fn law_place_of_an_image(block: JsonModel)
    ensures
        ({
            let place = content::image_url(block);
            let kind = block.nested_text("source"@, "type"@);
            &&& kind == Some("url"@) ==> place == block.nested_text("source"@, "url"@)
            &&& kind == Some("base64"@) ==> match block.nested_text("source"@, "data"@) {
                None => place is None,
                Some(data) => match block.nested_text("source"@, "media_type"@) {
                    Some(media) => place == Some("data:"@ + media + ";base64,"@ + data),
                    None => place == Some("data:image/png;base64,"@ + data),
                },
            }
            &&& kind != Some("url"@) && kind != Some("base64"@) ==> place is None
        }),
{
    lemma_file_keys();
    reveal_strlit("data:");
    reveal_strlit("image/png");
    reveal_strlit(";base64,");
    reveal_strlit("data:image/png;base64,");
    assert("data:"@ + "image/png"@ + ";base64,"@ =~= "data:image/png;base64,"@);
}

/// A document as a file: under its title, or as `document`; by the URL that its source
/// names, or by its data in a `data:` URL with the media type it names, or that of a
/// PDF; any other source makes no file.
pub proof fn law_file_of_a_document(block: JsonModel)
    ensures
        ({
            let made = content::document_part(block);
            let kind = block.nested_text("source"@, "type"@);
            let title = match block.text_field("title"@) {
                Some(t) => t,
                None => "document"@,
            };
            let data = block.nested_text("source"@, "data"@);
            let media = block.nested_text("source"@, "media_type"@);
            &&& made matches Some(file) ==> {
                &&& file.text_field("type"@) == Some("input_file"@)
                &&& file.text_field("filename"@) == Some(title)
            }
            &&& kind == Some("url"@) ==> match made {
                Some(file) => {
                    &&& block.nested("source"@, "url"@) == file.field("file_url"@)
                    &&& file.field("file_url"@) is Some
                    &&& forall|k: Seq<char>| #[trigger]
                        file.field(k) is Some ==> k == "type"@ || k == "filename"@ || k
                            == "file_url"@
                },
                None => block.nested("source"@, "url"@) is None,
            }
            &&& kind == Some("base64"@) ==> match made {
                Some(file) => {
                    &&& data is Some
                    &&& media matches Some(m) ==> file.text_field("file_data"@) == Some(
                        "data:"@ + m + ";base64,"@ + data->0,
                    )
                    &&& media is None ==> file.text_field("file_data"@) == Some(
                        "data:application/pdf;base64,"@ + data->0,
                    )
                    &&& forall|k: Seq<char>| #[trigger]
                        file.field(k) is Some ==> k == "type"@ || k == "filename"@ || k
                            == "file_data"@
                },
                None => data is None,
            }
            &&& kind != Some("url"@) && kind != Some("base64"@) ==> made is None
        }),
{
    lemma_file_keys();
    reveal_strlit("data:");
    reveal_strlit("application/pdf");
    reveal_strlit(";base64,");
    reveal_strlit("data:application/pdf;base64,");
    assert("data:"@ + "application/pdf"@ + ";base64,"@ =~= "data:application/pdf;base64,"@);
}

/// The text of the result of a tool: nothing for nothing and `null`, a string as it is;
/// of one more part of a list, its text, or else the part as JSON, on a line of its own;
/// anything else as JSON.
pub proof fn law_text_of_a_result(
    said: Seq<char>,
    parts: Seq<JsonModel>,
    part: JsonModel,
    other: JsonModel,
)
    ensures
        content::result_text(None) == Seq::<char>::empty(),
        content::result_text(Some(JsonModel::Null)) == Seq::<char>::empty(),
        content::result_text(Some(JsonModel::Text(said))) == said,
        content::result_text(Some(JsonModel::Array(Seq::empty()))) == Seq::<char>::empty(),
        !(other is Text) && !(other is Array) && !(other is Null) ==> content::result_text(
            Some(other),
        ) == codec::json_text(other),
        ({
            let before = content::result_text(Some(JsonModel::Array(parts)));
            let now = content::result_text(Some(JsonModel::Array(parts.push(part))));
            let piece = match part.text_field("text"@) {
                Some(t) => t,
                None => codec::json_text(part),
            };
            now == if parts.len() == 0 {
                piece
            } else {
                before + "\n"@ + piece
            }
        }),
{
    let texts = Seq::new(parts.len(), |i: int| content::result_part_text(parts[i]));
    let grown = parts.push(part);
    let more = Seq::new(grown.len(), |i: int| content::result_part_text(grown[i]));
    assert(more.drop_last() =~= texts);
    assert(more.last() == content::result_part_text(part));
    let none = Seq::<JsonModel>::empty();
    assert(Seq::new(none.len(), |i: int| content::result_part_text(none[i])) =~= Seq::<
        Seq<char>,
    >::empty());
}

}
