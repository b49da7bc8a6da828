//! What server-sent events come to.
use vstd::prelude::*;

use crate::sse::{self, FrameModel, LinesModel};
use crate::text::{self, CharClass};

verus! {

/// Whether a blank line stands at a place: two line feeds, or two pairs of carriage
/// return and line feed.
pub open spec fn is_blank_line(bytes: Seq<u8>, at: int, len: int) -> bool {
    &&& 0 <= at && at + len <= bytes.len()
    &&& (len == 2 && bytes.subrange(at, at + 2) == seq![10u8, 10u8]) || (len == 4 && bytes.subrange(
        at,
        at + 4,
    ) == seq![13u8, 10u8, 13u8, 10u8])
}

/// The first blank line of bytes is one, and none begins before it; where none is found
/// there is none.
pub proof fn law_first_blank_line(bytes: Seq<u8>)
    ensures
        match sse::boundary(bytes) {
            Some((at, len)) => is_blank_line(bytes, at, len) && (forall|i: int, n: int|
                0 <= i < at ==> !#[trigger] is_blank_line(bytes, i, n)),
            None => forall|i: int, n: int| !#[trigger] is_blank_line(bytes, i, n),
        },
{
    sse::lemma_boundary_from(bytes, 0);
    if let Some((at, len)) = sse::boundary(bytes) {
        if len == 2 {
            assert(bytes.subrange(at, at + 2) =~= seq![10u8, 10u8]);
        } else {
            assert(bytes.subrange(at, at + 4) =~= seq![13u8, 10u8, 13u8, 10u8]);
        }
    }
    assert forall|i: int, n: int| #[trigger]
        is_blank_line(bytes, i, n) && sse::boundary_len(bytes, i) == 0 implies false by {
        if n == 2 {
            let two = bytes.subrange(i, i + 2);
            assert(two[0] == 10 && two[1] == 10);
        } else {
            let four = bytes.subrange(i, i + 4);
            assert(four[0] == 13 && four[1] == 10 && four[2] == 13 && four[3] == 10);
        }
    }
}

/// Bytes are cut at their first blank line: what stands before it is a block, and what
/// stands behind it is cut in the same way. Without a blank line there is no block.
pub proof fn law_blocks_of_bytes(bytes: Seq<u8>)
    ensures
        match sse::boundary(bytes) {
            Some((at, len)) => {
                let behind = sse::cut(bytes.skip(at + len));
                &&& sse::cut(bytes).blocks == seq![bytes.take(at)] + behind.blocks
                &&& sse::cut(bytes).rest == behind.rest
            },
            None => sse::cut(bytes).blocks.len() == 0 && sse::cut(bytes).rest == bytes,
        },
{
    sse::lemma_boundary_from(bytes, 0);
}

/// What one more line says: a name of an event counts in place of one before it, without
/// the white space before it; data comes behind the data before it, without one blank
/// before it; and any other line says nothing. Carriage returns at the end of a line do
/// not count.
pub proof fn law_one_more_line(
    read: LinesModel,
    spaces: Seq<char>,
    word: Seq<char>,
    data: Seq<char>,
    ends: Seq<char>,
    other: Seq<char>,
)
    requires
        forall|i: int| 0 <= i < spaces.len() ==> text::is_white_space(#[trigger] spaces[i]),
        forall|i: int| 0 <= i < ends.len() ==> (#[trigger] ends[i]) == '\r',
        word.len() > 0,
        !text::is_white_space(word[0]),
        word.last() != '\r',
        data.len() > 0,
        data.last() != '\r',
        other.len() > 0 ==> other.last() != '\r',
        !text::begins_with(other, "event:"@),
        !text::begins_with(other, "data:"@),
    ensures
        sse::with_line(read, "event:"@ + (spaces + word) + ends) == (LinesModel {
            event: Some(word),
            ..read
        }),
        sse::with_line(read, "data: "@ + data + ends) == (LinesModel {
            data: read.data.push(data),
            ..read
        }),
        data[0] != ' ' ==> sse::with_line(read, "data:"@ + data + ends) == (LinesModel {
            data: read.data.push(data),
            ..read
        }),
        sse::with_line(read, other + ends) == read,
        sse::with_line(read, "data:"@ + ends) == (LinesModel {
            data: read.data.push(Seq::empty()),
            ..read
        }),
{
    reveal_strlit("event:");
    reveal_strlit("data:");
    reveal_strlit("data: ");
    reveal_strlit(" ");
    let class = CharClass::CarriageReturn;
    let named = "event:"@ + (spaces + word);
    assert(named.last() == word.last());
    text::laws::law_trimmed_back(named, ends, class);
    assert(named.take(6) =~= "event:"@);
    assert(named.skip(6) =~= spaces + word);
    text::laws::law_trimmed_front(spaces, word, CharClass::WhiteSpace);
    let spaced = "data: "@ + data;
    assert(spaced.last() == data.last());
    text::laws::law_trimmed_back(spaced, ends, class);
    assert(spaced.take(5) =~= "data:"@);
    lemma_is_data(spaced);
    assert(spaced.skip(5) =~= " "@ + data);
    assert((" "@ + data).take(1) =~= " "@);
    assert((" "@ + data).skip(1) =~= data);
    let plain = "data:"@ + data;
    assert(plain.last() == data.last());
    text::laws::law_trimmed_back(plain, ends, class);
    assert(plain.take(5) =~= "data:"@);
    lemma_is_data(plain);
    assert(plain.skip(5) =~= data);
    if data[0] != ' ' {
        assert(data.take(1)[0] == data[0]);
    }
    text::laws::law_trimmed_back(other, ends, class);
    let bare = "data:"@;
    text::laws::law_trimmed_back(bare, ends, class);
    assert(bare.take(5) =~= "data:"@);
    lemma_is_data(bare);
    assert(bare.skip(5) =~= Seq::<char>::empty());
}

proof fn lemma_is_data(line: Seq<char>)
    requires
        line.len() >= 5,
        line.take(5) == "data:"@,
    ensures
        text::begins_with(line, "data:"@),
        !text::begins_with(line, "event:"@),
{
    reveal_strlit("event:");
    reveal_strlit("data:");
    assert(line.take(5)[0] == line[0]);
    if line.len() >= 6 {
        assert(line.take(6)[0] == line[0]);
    }
}

/// A text is read line by line, and makes a frame if and only if any line of it is data:
/// with the last name of an event and with all data, line by line.
pub proof fn law_frame_of_lines(head: Seq<char>, line: Seq<char>, whole: Seq<char>)
    requires
        forall|i: int| 0 <= i < line.len() ==> (#[trigger] line[i]) != '\n',
    ensures
        sse::read_lines(text::split_on(head.push('\n') + line, '\n')) == sse::with_line(
            sse::read_lines(text::split_on(head, '\n')),
            line,
        ),
        sse::read_lines(text::split_on(line, '\n')) == sse::with_line(
            (LinesModel { event: None, data: Seq::empty() }),
            line,
        ),
        ({
            let read = sse::read_lines(text::split_on(whole, '\n'));
            if read.data.len() == 0 {
                sse::frame_of_text(whole) is None
            } else {
                sse::frame_of_text(whole) == Some(
                    FrameModel { event: read.event, data: text::joined(read.data, seq!['\n']) },
                )
            }
        }),
{
    text::lemma_split_last(head, line, '\n');
    text::lemma_split_one(line, '\n');
    let before = text::split_on(head, '\n');
    assert(before.push(line).drop_last() =~= before);
    let none = Seq::<Seq<char>>::empty();
    assert(seq![line].drop_last() =~= none);
    assert(sse::read_lines(none) == (LinesModel { event: None, data: none }));
    reveal_strlit("\n");
    assert("\n"@ =~= seq!['\n']);
}

/// A frame of each block that makes one, in their order.
pub proof fn law_frames_of_blocks(blocks: Seq<Seq<u8>>, block: Seq<u8>)
    ensures
        sse::frames_of(Seq::empty()) == Seq::<FrameModel>::empty(),
        sse::frames_of(blocks.push(block)) == match sse::frame_of_text(text::lossy_text(block)) {
            Some(frame) => sse::frames_of(blocks).push(frame),
            None => sse::frames_of(blocks),
        },
{
    assert(blocks.push(block).drop_last() =~= blocks);
}

}
