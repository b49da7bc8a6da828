//! Server-sent events: bytes into frames.
use vstd::prelude::*;
use vstd::slice::*;

use crate::text::{self, CharClass};

pub mod laws;

verus! {

/// The length of the blank line that begins at a place, or zero.
pub open spec fn boundary_len(bytes: Seq<u8>, i: int) -> int {
    if 0 <= i && i + 2 <= bytes.len() && bytes[i] == 10 && bytes[i + 1] == 10 {
        2
    } else if 0 <= i && i + 4 <= bytes.len() && bytes[i] == 13 && bytes[i + 1] == 10 && bytes[i + 2]
        == 13 && bytes[i + 3] == 10 {
        4
    } else {
        0
    }
}

/// The first place from `i` on at which a blank line begins.
pub open spec fn boundary_from(bytes: Seq<u8>, i: int) -> Option<int>
    decreases bytes.len() - i,
{
    if i >= bytes.len() {
        None
    } else if boundary_len(bytes, i) > 0 {
        Some(i)
    } else {
        boundary_from(bytes, i + 1)
    }
}

/// The first blank line: where it begins and how long it is.
pub open spec fn boundary(bytes: Seq<u8>) -> Option<(int, int)> {
    match boundary_from(bytes, 0) {
        Some(at) => Some((at, boundary_len(bytes, at))),
        None => None,
    }
}

/// A first blank line lies within the bytes, and no other begins before it.
pub proof fn lemma_boundary_from(bytes: Seq<u8>, i: int)
    requires
        0 <= i,
    ensures
        match boundary_from(bytes, i) {
            Some(at) => i <= at < bytes.len() && boundary_len(bytes, at) > 0 && at + boundary_len(
                bytes,
                at,
            ) <= bytes.len() && (forall|j: int| i <= j < at ==> #[trigger] boundary_len(bytes, j) == 0),
            None => forall|j: int| i <= j < bytes.len() ==> #[trigger] boundary_len(bytes, j) == 0,
        },
    decreases bytes.len() - i,
{
    if i < bytes.len() && boundary_len(bytes, i) == 0 {
        lemma_boundary_from(bytes, i + 1);
    }
}

/// A place with a blank line and none before it is the first.
pub proof fn lemma_boundary_is(bytes: Seq<u8>, i: int, at: int)
    requires
        0 <= i <= at < bytes.len(),
        boundary_len(bytes, at) > 0,
        forall|j: int| i <= j < at ==> #[trigger] boundary_len(bytes, j) == 0,
    ensures
        boundary_from(bytes, i) == Some(at),
    decreases at - i,
{
    if i < at {
        assert(boundary_len(bytes, i) == 0);
        lemma_boundary_is(bytes, i + 1, at);
    }
}

/// Without a blank line at any place there is no first.
pub proof fn lemma_boundary_none(bytes: Seq<u8>, i: int)
    requires
        0 <= i,
        forall|j: int| i <= j < bytes.len() ==> #[trigger] boundary_len(bytes, j) == 0,
    ensures
        boundary_from(bytes, i) is None,
    decreases bytes.len() - i,
{
    if i < bytes.len() {
        assert(boundary_len(bytes, i) == 0);
        lemma_boundary_none(bytes, i + 1);
    }
}

/// The first blank line: where it begins and how long it is.
pub fn find_sse_boundary(bytes: &[u8]) -> (r: Option<(usize, usize)>)
    ensures
        match r {
            Some((at, len)) => boundary(bytes@) == Some((at as int, len as int)),
            None => boundary(bytes@) is None,
        },
{
    let n: usize = bytes.len();
    let mut i: usize = 0;
    while i < n
        invariant
            n == bytes@.len(),
            i <= n,
            boundary_from(bytes@, 0) == boundary_from(bytes@, i as int),
        decreases n - i,
    {
        if n - i >= 2 && bytes[i] == 10 && bytes[i + 1] == 10 {
            return Some((i, 2));
        }
        if n - i >= 4 && bytes[i] == 13 && bytes[i + 1] == 10 && bytes[i + 2] == 13 && bytes[i + 3]
            == 10 {
            return Some((i, 4));
        }
        i = i + 1;
    }
    None
}

/// One event as it came: its name, if it has one, and its data.
#[derive(Debug, PartialEq, Eq)]
pub struct SseFrame {
    pub event: Option<String>,
    pub data: String,
}

/// What a frame says.
pub struct FrameModel {
    pub event: Option<Seq<char>>,
    pub data: Seq<char>,
}

impl View for SseFrame {
    type V = FrameModel;

    open spec fn view(&self) -> FrameModel {
        FrameModel { event: text::text_opt(self.event), data: self.data@ }
    }
}

/// What each frame of a list says.
pub open spec fn frame_models(frames: Seq<SseFrame>) -> Seq<FrameModel> {
    Seq::new(frames.len(), |i: int| frames[i]@)
}

/// What an optional frame says.
pub open spec fn frame_opt(frame: Option<SseFrame>) -> Option<FrameModel> {
    match frame {
        Some(f) => Some(f@),
        None => None,
    }
}

/// What the lines of a block say: the last name of an event and all data.
pub struct LinesModel {
    pub event: Option<Seq<char>>,
    pub data: Seq<Seq<char>>,
}

/// What is read once one more line has come.
pub open spec fn with_line(read: LinesModel, raw: Seq<char>) -> LinesModel {
    let line = text::trim_back(raw, CharClass::CarriageReturn);
    match text::after_prefix(line, "event:"@) {
        Some(name) => LinesModel {
            event: Some(text::trim_front(name, CharClass::WhiteSpace)),
            ..read
        },
        None => match text::after_prefix(line, "data:"@) {
            Some(value) => LinesModel {
                data: read.data.push(
                    match text::after_prefix(value, " "@) {
                        Some(rest) => rest,
                        None => value,
                    },
                ),
                ..read
            },
            None => read,
        },
    }
}

/// What a list of lines says.
pub open spec fn read_lines(lines: Seq<Seq<char>>) -> LinesModel
    decreases lines.len(),
{
    if lines.len() == 0 {
        LinesModel { event: None, data: Seq::empty() }
    } else {
        with_line(read_lines(lines.drop_last()), lines.last())
    }
}

/// The frame that a text holds: none where it has no line of data.
pub open spec fn frame_of_text(text: Seq<char>) -> Option<FrameModel> {
    let read = read_lines(text::split_on(text, '\n'));
    if read.data.len() > 0 {
        Some(FrameModel { event: read.event, data: text::joined(read.data, "\n"@) })
    } else {
        None
    }
}

/// The frame that a block of bytes holds.
pub open spec fn frame_of(block: Seq<u8>) -> Option<FrameModel> {
    frame_of_text(text::lossy_text(block))
}

/// The frame of a block of valid UTF-8 is that of its text.
pub open spec fn reads_utf8(block: Seq<u8>) -> bool {
    vstd::utf8::valid_utf8(block) ==> frame_of(block) == frame_of_text(
        vstd::utf8::decode_utf8(block),
    )
}

/// Reads the frame that a text holds.
pub fn parse_sse_text(text: &str) -> (r: Option<SseFrame>)
    ensures
        frame_opt(r) == frame_of_text(text@),
{
    let lines = text::split_text(text, '\n');
    let ghost all = text::texts(lines@);
    let mut event: Option<String> = None;
    let mut data: Vec<String> = Vec::new();
    let mut i: usize = 0;
    assert(all.take(0) =~= Seq::<Seq<char>>::empty());
    assert(text::texts(data@) =~= Seq::<Seq<char>>::empty());
    while i < lines.len()
        invariant
            i <= lines.len(),
            all == text::texts(lines@),
            text::text_opt(event) == read_lines(all.take(i as int)).event,
            text::texts(data@) == read_lines(all.take(i as int)).data,
        decreases lines.len() - i,
    {
        assert(all.take(i + 1).drop_last() =~= all.take(i as int));
        assert(all.take(i + 1).last() == lines@[i as int]@);
        let line = text::trim_end(lines[i].as_str(), CharClass::CarriageReturn);
        if let Some(name) = text::strip(line, "event:") {
            event = Some(text::trim_start(name, CharClass::WhiteSpace).to_owned());
        } else if let Some(value) = text::strip(line, "data:") {
            let piece = match text::strip(value, " ") {
                Some(rest) => rest.to_owned(),
                None => value.to_owned(),
            };
            proof {
                text::lemma_texts_push(data@, piece);
            }
            data.push(piece);
        }
        i = i + 1;
    }
    assert(all.take(all.len() as int) =~= all);
    if data.is_empty() {
        None
    } else {
        Some(SseFrame { event, data: text::join(&data, "\n") })
    }
}

/// Reads the frame that a block of bytes holds.
pub fn parse_sse_block(bytes: &[u8]) -> (r: Option<SseFrame>)
    ensures
        frame_opt(r) == frame_of(bytes@),
        reads_utf8(bytes@),
{
    let text = text::decode_lossy(bytes);
    parse_sse_text(text.as_str())
}

/// The complete blocks of a buffer, and what is left behind the last of them.
pub struct CutModel {
    pub blocks: Seq<Seq<u8>>,
    pub rest: Seq<u8>,
}

/// Cuts a buffer at its blank lines.
pub open spec fn cut(buffer: Seq<u8>) -> CutModel
    decreases buffer.len(),
{
    match boundary(buffer) {
        None => CutModel { blocks: Seq::empty(), rest: buffer },
        Some((at, len)) => if 0 <= at && 0 < len && at + len <= buffer.len() {
            let after = cut(buffer.skip(at + len));
            CutModel { blocks: seq![buffer.take(at)] + after.blocks, rest: after.rest }
        } else {
            CutModel { blocks: Seq::empty(), rest: buffer }
        },
    }
}

/// The frames that blocks hold, in their order.
pub open spec fn frames_of(blocks: Seq<Seq<u8>>) -> Seq<FrameModel>
    decreases blocks.len(),
{
    if blocks.len() == 0 {
        Seq::<FrameModel>::empty()
    } else {
        let before = frames_of(blocks.drop_last());
        match frame_of(blocks.last()) {
            Some(frame) => before.push(frame),
            None => before,
        }
    }
}

/// Blocks in two lists hold the frames of the first list and then those of the
/// second.
pub proof fn lemma_frames_of_both(a: Seq<Seq<u8>>, b: Seq<Seq<u8>>)
    ensures
        frames_of(a + b) == frames_of(a) + frames_of(b),
    decreases b.len(),
{
    if b.len() == 0 {
        assert(a + b =~= a);
        assert(frames_of(a) + frames_of(b) =~= frames_of(a));
    } else {
        lemma_frames_of_both(a, b.drop_last());
        assert((a + b).drop_last() =~= a + b.drop_last());
        assert((a + b).last() == b.last());
        assert(frames_of(a + b) =~= frames_of(a) + frames_of(b));
    }
}

/// A blank line that is complete stays the first one, whatever follows.
proof fn lemma_boundary_stays(a: Seq<u8>, b: Seq<u8>)
    requires
        boundary(a) is Some,
    ensures
        boundary(a + b) == boundary(a),
{
    lemma_boundary_from(a, 0);
    let at = boundary_from(a, 0)->0;
    let whole = a + b;
    assert(boundary_len(whole, at) == boundary_len(a, at));
    assert forall|j: int| 0 <= j < at implies #[trigger] boundary_len(whole, j) == 0 by {
        assert(boundary_len(a, j) == 0);
        assert(whole[j] == a[j] && whole[j + 1] == a[j + 1]);
        if j + 4 > a.len() {
            assert(at == j + 1 && boundary_len(a, at) == 2);
            assert(whole[j + 2] == a[at + 1]);
        } else {
            assert(whole[j + 2] == a[j + 2] && whole[j + 3] == a[j + 3]);
        }
    }
    lemma_boundary_is(whole, 0, at);
}

/// It does not matter where the bytes of a stream are parted: the blocks of
/// `a` and then `b` are the blocks of `a`, and then those of what `a` leaves
/// behind together with `b`.
pub proof fn law_cut_in_two(a: Seq<u8>, b: Seq<u8>)
    ensures
        cut(a + b).blocks == cut(a).blocks + cut(cut(a).rest + b).blocks,
        cut(a + b).rest == cut(cut(a).rest + b).rest,
    decreases a.len(),
{
    lemma_boundary_from(a, 0);
    match boundary(a) {
        None => {
            assert(cut(a).blocks + cut(a + b).blocks =~= cut(a + b).blocks);
        },
        Some((at, len)) => {
            lemma_boundary_stays(a, b);
            let tail = a.skip(at + len);
            law_cut_in_two(tail, b);
            assert((a + b).skip(at + len) =~= tail + b);
            assert((a + b).take(at) =~= a.take(at));
            let first = seq![a.take(at)];
            assert(first + (cut(tail).blocks + cut(cut(tail).rest + b).blocks) =~= (first + cut(
                tail,
            ).blocks) + cut(cut(tail).rest + b).blocks);
        },
    }
}

/// What a decoder has given after a list of chunks, and what it holds back.
pub struct DecodedModel {
    pub frames: Seq<FrameModel>,
    pub rest: Seq<u8>,
}

/// A decoder that has taken one chunk after the other.
pub open spec fn decoded(chunks: Seq<Seq<u8>>) -> DecodedModel
    decreases chunks.len(),
{
    if chunks.len() == 0 {
        DecodedModel { frames: Seq::empty(), rest: Seq::empty() }
    } else {
        let before = decoded(chunks.drop_last());
        let now = cut(before.rest + chunks.last());
        DecodedModel { frames: before.frames + frames_of(now.blocks), rest: now.rest }
    }
}

/// The bytes of a list of chunks, one chunk after the other.
pub open spec fn together(chunks: Seq<Seq<u8>>) -> Seq<u8>
    decreases chunks.len(),
{
    if chunks.len() == 0 {
        Seq::<u8>::empty()
    } else {
        together(chunks.drop_last()) + chunks.last()
    }
}

/// However the bytes of a stream are cut into chunks, a decoder gives the same
/// frames and holds back the same bytes: those it gives and holds back for the
/// whole at once.
pub proof fn law_chunks_do_not_matter(chunks: Seq<Seq<u8>>)
    ensures
        decoded(chunks).frames == frames_of(cut(together(chunks)).blocks),
        decoded(chunks).rest == cut(together(chunks)).rest,
    decreases chunks.len(),
{
    if chunks.len() == 0 {
        lemma_boundary_none(Seq::<u8>::empty(), 0);
    } else {
        let before = together(chunks.drop_last());
        law_chunks_do_not_matter(chunks.drop_last());
        law_cut_in_two(before, chunks.last());
        lemma_frames_of_both(cut(before).blocks, cut(cut(before).rest + chunks.last()).blocks);
    }
}

/// A frame with a name as text, without the blank line that ends it.
pub open spec fn frame_text(name: Seq<char>, data: Seq<char>) -> Seq<char> {
    "event: "@ + name + "\ndata: "@ + data
}

/// A frame with a name that is written on one line, data on the next and a blank
/// line is read back as it was written, and nothing is left of it.
pub proof fn law_written_frame_is_read(name: Seq<char>, data: Seq<char>)
    requires
        text::one_line(name),
        text::one_line(data),
        name.len() > 0 ==> !text::is_white_space(name[0]),
    ensures
        cut(vstd::utf8::encode_utf8(frame_text(name, data) + "\n\n"@)) == (CutModel {
            blocks: seq![vstd::utf8::encode_utf8(frame_text(name, data))],
            rest: Seq::empty(),
        }),
        frame_of_text(frame_text(name, data)) == Some(FrameModel { event: Some(name), data }),
{
    reveal_strlit("event: ");
    reveal_strlit("\ndata: ");
    reveal_strlit("\n\n");
    reveal_strlit("event:");
    reveal_strlit("data:");
    reveal_strlit(" ");
    let one = "event: "@ + name;
    let two = seq!['d', 'a', 't', 'a', ':', ' '] + data;
    let block = frame_text(name, data);
    assert(block =~= one.push('\n') + two);
    lemma_written_lines(one, two, name, data);
    let feed = seq!['\n'];
    assert(block =~= one + (feed + two));
    assert(block + "\n\n"@ =~= block + (feed + feed));
    text::lemma_encode_both(block, feed + feed);
    text::lemma_encode_both(feed, feed);
    text::lemma_encode_both(one, feed + two);
    text::lemma_encode_both(feed, two);
    text::lemma_line_feed_byte();
    text::lemma_one_line_bytes(one);
    text::lemma_one_line_bytes(two);
    let first = vstd::utf8::encode_utf8(one);
    let second = vstd::utf8::encode_utf8(two);
    let bytes = vstd::utf8::encode_utf8(block);
    let whole = vstd::utf8::encode_utf8(block + "\n\n"@);
    assert(bytes =~= first + seq![10u8] + second);
    assert(whole =~= bytes + seq![10u8, 10u8]);
    vstd::utf8::encode_utf8_first_scalar(two);
    assert(second.len() > 0);
    let at = bytes.len() as int;
    assert forall|j: int| 0 <= j < at implies #[trigger] boundary_len(whole, j) == 0 by {
        if j < first.len() {
            assert(whole[j] == first[j]);
        } else if j == first.len() {
            assert(whole[j + 1] == second[0]);
        } else {
            assert(whole[j] == second[j - first.len() - 1]);
        }
    }
    lemma_boundary_is(whole, 0, at);
    assert(whole.take(at) =~= bytes);
    assert(whole.skip(at + 2) =~= Seq::<u8>::empty());
    lemma_boundary_none(Seq::<u8>::empty(), 0);
    assert(cut(Seq::<u8>::empty()) == (CutModel { blocks: Seq::empty(), rest: Seq::empty() }));
    assert(seq![bytes] + Seq::<Seq<u8>>::empty() =~= seq![bytes]);
}

/// What the two lines of a written frame say.
proof fn lemma_written_lines(one: Seq<char>, two: Seq<char>, name: Seq<char>, data: Seq<char>)
    requires
        one == "event: "@ + name,
        two == seq!['d', 'a', 't', 'a', ':', ' '] + data,
        text::one_line(name),
        text::one_line(data),
        name.len() > 0 ==> !text::is_white_space(name[0]),
    ensures
        text::one_line(one),
        text::one_line(two),
        frame_of_text(one.push('\n') + two) == Some(FrameModel { event: Some(name), data }),
{
    reveal_strlit("event: ");
    reveal_strlit("event:");
    reveal_strlit("data:");
    reveal_strlit(" ");
    assert forall|i: int| 0 <= i < one.len() implies (#[trigger] one[i]) != '\n' && one[i]
        != '\r' by {
        if i >= 7 {
            assert(one[i] == name[i - 7]);
        }
    }
    assert forall|i: int| 0 <= i < two.len() implies (#[trigger] two[i]) != '\n' && two[i]
        != '\r' by {
        if i >= 6 {
            assert(two[i] == data[i - 6]);
        }
    }
    text::lemma_split_one(one, '\n');
    text::lemma_split_last(one, two, '\n');
    let lines = seq![one].push(two);
    assert(lines.drop_last() =~= seq![one]);
    assert(seq![one].drop_last() =~= Seq::<Seq<char>>::empty());
    assert(text::trim_back(one, CharClass::CarriageReturn) == one);
    assert(text::trim_back(two, CharClass::CarriageReturn) == two);
    assert(one.take(6) =~= "event:"@);
    let spaced = one.skip(6);
    assert(spaced =~= seq![' '] + name);
    assert(spaced.drop_first() =~= name);
    assert(text::trim_front(spaced, CharClass::WhiteSpace) == name) by {
        reveal_with_fuel(text::trim_front, 2);
    }
    assert(two[0] != 'e');
    assert(two.take(6)[0] != "event:"@[0]);
    assert(two.take(5) =~= "data:"@);
    let value = two.skip(5);
    assert(value.take(1) =~= " "@);
    assert(value.skip(1) =~= data);
    let start = LinesModel { event: None, data: Seq::<Seq<char>>::empty() };
    assert(read_lines(Seq::<Seq<char>>::empty()) == start);
    assert(read_lines(seq![one]) == with_line(start, one));
    assert(read_lines(lines) == with_line(read_lines(seq![one]), two));
    assert(Seq::<Seq<char>>::empty().push(data).len() == 1);
}

/// Puts frames together from bytes that come in pieces of any size.
pub struct SseDecoder {
    buffer: Vec<u8>,
}

impl View for SseDecoder {
    type V = Seq<u8>;

    closed spec fn view(&self) -> Seq<u8> {
        self.buffer@
    }
}

impl SseDecoder {
    /// A decoder that has seen nothing.
    pub fn new() -> (r: SseDecoder)
        ensures
            r@ == Seq::<u8>::empty(),
    {
        SseDecoder { buffer: Vec::new() }
    }

    /// Takes the next bytes and gives the frames that are complete with them.
    pub fn push(&mut self, chunk: &[u8]) -> (r: Vec<SseFrame>)
        ensures
            frame_models(r@) == frames_of(cut(old(self)@ + chunk@).blocks),
            final(self)@ == cut(old(self)@ + chunk@).rest,
            forall|i: int|
                0 <= i < cut(old(self)@ + chunk@).blocks.len() ==> (#[trigger] reads_utf8(
                    cut(old(self)@ + chunk@).blocks[i],
                )),
    {
        self.buffer.extend_from_slice(chunk);
        assert(self.buffer@ =~= old(self)@ + chunk@);
        let ghost whole = self.buffer@;
        let n: usize = self.buffer.len();
        let mut frames: Vec<SseFrame> = Vec::new();
        let mut from: usize = 0;
        let ghost mut blocks: Seq<Seq<u8>> = Seq::empty();
        assert(whole.skip(0) =~= whole);
        assert(frame_models(frames@) =~= Seq::<FrameModel>::empty());
        assert(Seq::<Seq<u8>>::empty() + cut(whole).blocks =~= cut(whole).blocks);
        loop
            invariant
                whole == self.buffer@,
                n == whole.len(),
                from <= n,
                cut(whole).blocks == blocks + cut(whole.skip(from as int)).blocks,
                cut(whole).rest == cut(whole.skip(from as int)).rest,
                frame_models(frames@) == frames_of(blocks),
                forall|i: int| 0 <= i < blocks.len() ==> (#[trigger] reads_utf8(blocks[i])),
            ensures
                from <= n,
                whole == self.buffer@,
                n == whole.len(),
                cut(whole).blocks == blocks,
                cut(whole).rest == whole.skip(from as int),
                frame_models(frames@) == frames_of(blocks),
                forall|i: int| 0 <= i < blocks.len() ==> (#[trigger] reads_utf8(blocks[i])),
            decreases n - from,
        {
            let tail = slice_subrange(self.buffer.as_slice(), from, n);
            assert(tail@ =~= whole.skip(from as int));
            proof {
                lemma_boundary_from(tail@, 0);
            }
            match find_sse_boundary(tail) {
                None => {
                    assert(blocks + Seq::<Seq<u8>>::empty() =~= blocks);
                    break;
                },
                Some((at, len)) => {
                    let block = slice_subrange(tail, 0, at);
                    assert(block@ =~= tail@.take(at as int));
                    let ghost after = cut(tail@.skip(at + len));
                    assert(whole.skip(from + at + len) =~= tail@.skip(at + len));
                    let ghost before = frames@;
                    if let Some(frame) = parse_sse_block(block) {
                        frames.push(frame);
                        assert(frame_models(frames@) =~= frame_models(before).push(frame@));
                    }
                    proof {
                        assert(blocks + (seq![block@] + after.blocks) =~= blocks.push(block@)
                            + after.blocks);
                        assert(blocks.push(block@).drop_last() =~= blocks);
                        blocks = blocks.push(block@);
                    }
                    from = from + at + len;
                },
            }
        }
        let rest = self.buffer.split_off(from);
        assert(rest@ =~= whole.skip(from as int));
        self.buffer = rest;
        frames
    }

    /// The frame that is left when no more bytes come.
    pub fn finish(&mut self) -> (r: Option<SseFrame>)
        ensures
            frame_opt(r) == (if old(self)@.len() == 0 {
                None
            } else {
                frame_of(old(self)@)
            }),
            old(self)@.len() > 0 ==> reads_utf8(old(self)@),
            final(self)@ == Seq::<u8>::empty(),
    {
        if self.buffer.is_empty() {
            assert(self.buffer@ =~= Seq::<u8>::empty());
            None
        } else {
            let mut remaining: Vec<u8> = Vec::new();
            std::mem::swap(&mut remaining, &mut self.buffer);
            parse_sse_block(remaining.as_slice())
        }
    }
}

}
