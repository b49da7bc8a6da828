//! A stream of an upstream service as a stream of Anthropic: chunks of bytes in,
//! events out.
use vstd::prelude::*;

use crate::chat_stream::{self, ChatModel, ChatState};
use crate::event::{self, EventModel, StreamEvent};
use crate::openai::OpenAiType;
use crate::responses_stream::{self, ResponsesModel, ResponsesState};
use crate::sse::{self, FrameModel, SseDecoder, SseFrame};

pub mod laws;

verus! {

/// How far an answer has come, in the protocol that it comes in.
pub enum Conversion {
    Responses(ResponsesState),
    Chat(ChatState),
}

/// How far an answer has come, in the protocol that it comes in.
pub enum ConversionModel {
    Responses(ResponsesModel),
    Chat(ChatModel),
}

impl View for Conversion {
    type V = ConversionModel;

    open spec fn view(&self) -> ConversionModel {
        match *self {
            Conversion::Responses(state) => ConversionModel::Responses(state@),
            Conversion::Chat(state) => ConversionModel::Chat(state@),
        }
    }
}

/// How far an answer has come and the events that were given on the way.
pub struct ConversionStep {
    pub state: ConversionModel,
    pub out: Seq<EventModel>,
}

/// An answer that has not begun.
pub open spec fn new_conversion(api_type: OpenAiType) -> ConversionModel {
    match api_type {
        OpenAiType::Responses => ConversionModel::Responses(responses_stream::new_responses()),
        OpenAiType::Chat => ConversionModel::Chat(chat_stream::new_chat()),
    }
}

impl ConversionModel {
    /// Nothing was given yet.
    pub open spec fn silent(self) -> ConversionStep {
        ConversionStep { state: self, out: Seq::empty() }
    }

    /// One more frame has come.
    pub open spec fn processed(self, frame: FrameModel) -> ConversionStep {
        match self {
            ConversionModel::Responses(state) => {
                let step = state.processed(frame.event, frame.data);
                ConversionStep { state: ConversionModel::Responses(step.state), out: step.out }
            },
            ConversionModel::Chat(state) => {
                let step = state.processed(frame.data);
                ConversionStep { state: ConversionModel::Chat(step.state), out: step.out }
            },
        }
    }

    /// Frames have come, one after the other.
    pub open spec fn all_processed(self, frames: Seq<FrameModel>) -> ConversionStep
        decreases frames.len(),
    {
        if frames.len() == 0 {
            self.silent()
        } else {
            let before = self.all_processed(frames.drop_last());
            let now = before.state.processed(frames.last());
            ConversionStep { state: now.state, out: before.out + now.out }
        }
    }

    /// No more comes.
    pub open spec fn ended(self) -> ConversionStep {
        match self {
            ConversionModel::Responses(state) => {
                let step = state.ended();
                ConversionStep { state: ConversionModel::Responses(step.state), out: step.out }
            },
            ConversionModel::Chat(state) => {
                let step = state.ended();
                ConversionStep { state: ConversionModel::Chat(step.state), out: step.out }
            },
        }
    }
}

impl Conversion {
    /// An answer that has not begun.
    pub fn new(api_type: OpenAiType) -> (r: Conversion)
        ensures
            r@ == new_conversion(api_type),
    {
        match api_type {
            OpenAiType::Responses => Conversion::Responses(ResponsesState::new()),
            OpenAiType::Chat => Conversion::Chat(ChatState::new()),
        }
    }

    /// Takes one more frame and gives the events that it makes.
    pub fn process(&mut self, frame: &SseFrame) -> (r: Vec<StreamEvent>)
        ensures
            final(self)@ == old(self)@.processed(frame@).state,
            event::event_models(r@) == old(self)@.processed(frame@).out,
    {
        match self {
            Conversion::Responses(state) => {
                let name = match &frame.event {
                    Some(name) => Some(name.as_str()),
                    None => None,
                };
                state.process(name, frame.data.as_str())
            },
            Conversion::Chat(state) => state.process(frame.data.as_str()),
        }
    }

    /// Ends the answer and gives the events that it takes.
    pub fn finish(&mut self) -> (r: Vec<StreamEvent>)
        ensures
            final(self)@ == old(self)@.ended().state,
            event::event_models(r@) == old(self)@.ended().out,
    {
        match self {
            Conversion::Responses(state) => state.finish(),
            Conversion::Chat(state) => state.finish(),
        }
    }
}

/// Puts events behind a list.
fn emit_all(out: &mut Vec<StreamEvent>, more: Vec<StreamEvent>)
    ensures
        event::event_models(final(out)@) == event::event_models(old(out)@) + event::event_models(
            more@,
        ),
{
    let mut rest = more;
    out.append(&mut rest);
    assert(event::event_models(out@) =~= event::event_models(old(out)@) + event::event_models(
        more@,
    ));
}

/// What the upstream gives next: bytes, or the reason why there are none.
pub type ChunkModel = Result<Seq<u8>, Seq<char>>;

/// What an item of an upstream says.
pub open spec fn chunk_model(item: Result<Vec<u8>, String>) -> ChunkModel {
    match item {
        Ok(bytes) => Ok(bytes@),
        Err(error) => Err(error@),
    }
}

/// What each item of an upstream says.
pub open spec fn chunk_models(items: Seq<Result<Vec<u8>, String>>) -> Seq<ChunkModel> {
    Seq::new(items.len(), |i: int| chunk_model(items[i]))
}

/// How far a stream has come.
pub struct StreamModel {
    /// The bytes that do not make a frame yet.
    pub buffer: Seq<u8>,
    /// How far the answer has come.
    pub state: ConversionModel,
    /// The upstream broke off.
    pub failed: bool,
}

/// How far a stream has come and the events that were given on the way.
pub struct StreamStep {
    pub stream: StreamModel,
    pub out: Seq<EventModel>,
}

/// A stream that nothing came from.
pub open spec fn new_stream(api_type: OpenAiType) -> StreamModel {
    StreamModel { buffer: Seq::empty(), state: new_conversion(api_type), failed: false }
}

/// What is said when the upstream breaks off.
pub open spec fn break_text(error: Seq<char>) -> Seq<char> {
    "上游流读取失败: "@ + error
}

/// The frame that the bytes left at the end make.
pub open spec fn last_frame(buffer: Seq<u8>) -> Option<FrameModel> {
    if buffer.len() == 0 {
        None
    } else {
        sse::frame_of(buffer)
    }
}

impl StreamModel {
    /// Nothing was given yet.
    pub open spec fn silent(self) -> StreamStep {
        StreamStep { stream: self, out: Seq::empty() }
    }

    /// Bytes have come.
    pub open spec fn fed(self, chunk: Seq<u8>) -> StreamStep {
        if self.failed {
            self.silent()
        } else {
            let cut = sse::cut(self.buffer + chunk);
            let step = self.state.all_processed(sse::frames_of(cut.blocks));
            StreamStep {
                stream: StreamModel { buffer: cut.rest, state: step.state, failed: false },
                out: step.out,
            }
        }
    }

    /// The upstream broke off.
    pub open spec fn broken(self, error: Seq<char>) -> StreamStep {
        if self.failed {
            self.silent()
        } else {
            StreamStep {
                stream: StreamModel { failed: true, ..self },
                out: seq![EventModel::Failure { message: break_text(error) }],
            }
        }
    }

    /// The next item of the upstream has come.
    pub open spec fn took(self, item: ChunkModel) -> StreamStep {
        match item {
            Ok(chunk) => self.fed(chunk),
            Err(error) => self.broken(error),
        }
    }

    /// Items of the upstream have come, one after the other.
    pub open spec fn took_all(self, items: Seq<ChunkModel>) -> StreamStep
        decreases items.len(),
    {
        if items.len() == 0 {
            self.silent()
        } else {
            let before = self.took_all(items.drop_last());
            let now = before.stream.took(items.last());
            StreamStep { stream: now.stream, out: before.out + now.out }
        }
    }

    /// The upstream is at its end: what is left makes a last frame and the answer
    /// ends. Where the upstream broke off nothing more is said.
    pub open spec fn closed(self) -> StreamStep {
        if self.failed {
            self.silent()
        } else {
            let step = match last_frame(self.buffer) {
                Some(frame) => self.state.processed(frame),
                None => self.state.silent(),
            };
            let end = step.state.ended();
            StreamStep {
                stream: StreamModel { buffer: Seq::empty(), state: end.state, failed: false },
                out: step.out + end.out,
            }
        }
    }
}

/// The events of a whole stream.
pub open spec fn converted(api_type: OpenAiType, items: Seq<ChunkModel>) -> Seq<EventModel> {
    let step = new_stream(api_type).took_all(items);
    step.out + step.stream.closed().out
}

/// Turns a stream of an upstream service into one of Anthropic.
pub struct StreamConverter {
    decoder: SseDecoder,
    state: Conversion,
    failed: bool,
}

impl View for StreamConverter {
    type V = StreamModel;

    closed spec fn view(&self) -> StreamModel {
        StreamModel { buffer: self.decoder@, state: self.state@, failed: self.failed }
    }
}

impl StreamConverter {
    /// A stream that nothing came from.
    pub fn new(api_type: OpenAiType) -> (r: StreamConverter)
        ensures
            r@ == new_stream(api_type),
    {
        StreamConverter {
            decoder: SseDecoder::new(),
            state: Conversion::new(api_type),
            failed: false,
        }
    }

    /// Takes bytes and gives the events that they make.
    pub fn push(&mut self, chunk: &[u8]) -> (r: Vec<StreamEvent>)
        ensures
            final(self)@ == old(self)@.fed(chunk@).stream,
            event::event_models(r@) == old(self)@.fed(chunk@).out,
    {
        let mut out: Vec<StreamEvent> = Vec::new();
        assert(event::event_models(out@) =~= Seq::<EventModel>::empty());
        if self.failed {
            return out;
        }
        let ghost start = self.state@;
        let frames = self.decoder.push(chunk);
        let ghost all = sse::frame_models(frames@);
        let mut i: usize = 0;
        assert(all.take(0) =~= Seq::<FrameModel>::empty());
        while i < frames.len()
            invariant
                i <= frames.len(),
                all == sse::frame_models(frames@),
                self.decoder@ == sse::cut(old(self)@.buffer + chunk@).rest,
                !self.failed,
                self.state@ == start.all_processed(all.take(i as int)).state,
                event::event_models(out@) == start.all_processed(all.take(i as int)).out,
            decreases frames.len() - i,
        {
            assert(all.take(i + 1).drop_last() =~= all.take(i as int));
            assert(all.take(i + 1).last() == frames@[i as int]@);
            let more = self.state.process(&frames[i]);
            emit_all(&mut out, more);
            i = i + 1;
        }
        assert(all.take(all.len() as int) =~= all);
        out
    }

    /// Takes the reason why the upstream broke off and gives the events that this
    /// makes.
    pub fn fail(&mut self, error: &str) -> (r: Vec<StreamEvent>)
        ensures
            final(self)@ == old(self)@.broken(error@).stream,
            event::event_models(r@) == old(self)@.broken(error@).out,
    {
        let mut out: Vec<StreamEvent> = Vec::new();
        assert(event::event_models(out@) =~= Seq::<EventModel>::empty());
        if self.failed {
            return out;
        }
        self.failed = true;
        let mut message = "上游流读取失败: ".to_owned();
        message.append(error);
        event::emit(&mut out, event::error_event(message));
        assert(event::event_models(out@) =~= seq![EventModel::Failure { message: message@ }]);
        out
    }

    /// Ends the stream and gives the events that this takes.
    pub fn finish(&mut self) -> (r: Vec<StreamEvent>)
        ensures
            final(self)@ == old(self)@.closed().stream,
            event::event_models(r@) == old(self)@.closed().out,
    {
        let mut out: Vec<StreamEvent> = Vec::new();
        assert(event::event_models(out@) =~= Seq::<EventModel>::empty());
        if self.failed {
            return out;
        }
        if let Some(frame) = self.decoder.finish() {
            let more = self.state.process(&frame);
            emit_all(&mut out, more);
            assert(Seq::<EventModel>::empty() + event::event_models(more@)
                =~= event::event_models(more@));
        }
        let end = self.state.finish();
        emit_all(&mut out, end);
        out
    }
}

/// The bytes of each event of a list.
pub open spec fn wires(events: Seq<EventModel>) -> Seq<Seq<u8>> {
    Seq::new(events.len(), |i: int| events[i].wire())
}

/// The two lines of each event of a list, as bytes.
pub open spec fn blocks(events: Seq<EventModel>) -> Seq<Seq<u8>> {
    Seq::new(events.len(), |i: int| vstd::utf8::encode_utf8(events[i].block_text()))
}

/// What each list of bytes holds.
pub open spec fn byte_models(list: Seq<Vec<u8>>) -> Seq<Seq<u8>> {
    Seq::new(list.len(), |i: int| list[i]@)
}

/// Whether lists of bytes, together, are read as these events: one block for each
/// of them, in their order, and nothing left; each block the frame with the name
/// and the document of its event.
pub open spec fn is_read_as(list: Seq<Seq<u8>>, events: Seq<EventModel>) -> bool {
    &&& sse::cut(sse::together(list)) == (sse::CutModel {
        blocks: blocks(events),
        rest: Seq::empty(),
    })
    &&& forall|i: int| 0 <= i < events.len() ==> (#[trigger] events[i]).reads_back()
}

/// Writes events as bytes, which are read as these events.
pub fn render_all(events: &Vec<StreamEvent>) -> (r: Vec<Vec<u8>>)
    ensures
        byte_models(r@) == wires(event::event_models(events@)),
        is_read_as(byte_models(r@), event::event_models(events@)),
{
    let mut out: Vec<Vec<u8>> = Vec::new();
    let mut i: usize = 0;
    let ghost all = event::event_models(events@);
    assert(byte_models(out@) =~= wires(all.take(0)));
    assert(blocks(all.take(0)) =~= Seq::<Seq<u8>>::empty());
    proof {
        sse::lemma_boundary_none(Seq::<u8>::empty(), 0);
    }
    while i < events.len()
        invariant
            i <= events.len(),
            all == event::event_models(events@),
            byte_models(out@) == wires(all.take(i as int)),
            is_read_as(byte_models(out@), all.take(i as int)),
        decreases events.len() - i,
    {
        let bytes = events[i].render();
        let ghost before = byte_models(out@);
        out.push(bytes);
        proof {
            let now = byte_models(out@);
            assert(now =~= before.push(bytes@));
            assert(now.drop_last() =~= before);
            assert(now =~= wires(all.take(i + 1)));
            sse::law_cut_in_two(sse::together(before), bytes@);
            assert(Seq::<u8>::empty() + bytes@ =~= bytes@);
            assert(all.take(i + 1).drop_last() =~= all.take(i as int));
            assert(blocks(all.take(i + 1)) =~= blocks(all.take(i as int)) + seq![
                vstd::utf8::encode_utf8(events@[i as int]@.block_text()),
            ]);
        }
        i = i + 1;
    }
    assert(all.take(all.len() as int) =~= all);
    out
}

/// Turns a whole stream of an upstream service into one of Anthropic.
fn convert_stream(api_type: OpenAiType, items: &Vec<Result<Vec<u8>, String>>) -> (r: Vec<Vec<u8>>)
    ensures
        byte_models(r@) == wires(converted(api_type, chunk_models(items@))),
        is_read_as(byte_models(r@), converted(api_type, chunk_models(items@))),
{
    let mut converter = StreamConverter::new(api_type);
    let ghost start = converter@;
    let ghost all = chunk_models(items@);
    let mut out: Vec<StreamEvent> = Vec::new();
    let mut i: usize = 0;
    assert(all.take(0) =~= Seq::<ChunkModel>::empty());
    assert(event::event_models(out@) =~= Seq::<EventModel>::empty());
    while i < items.len()
        invariant
            i <= items.len(),
            all == chunk_models(items@),
            converter@ == start.took_all(all.take(i as int)).stream,
            event::event_models(out@) == start.took_all(all.take(i as int)).out,
        decreases items.len() - i,
    {
        assert(all.take(i + 1).drop_last() =~= all.take(i as int));
        assert(all.take(i + 1).last() == chunk_model(items@[i as int]));
        let more = match &items[i] {
            Ok(bytes) => converter.push(bytes.as_slice()),
            Err(error) => converter.fail(error.as_str()),
        };
        emit_all(&mut out, more);
        i = i + 1;
    }
    assert(all.take(all.len() as int) =~= all);
    let end = converter.finish();
    emit_all(&mut out, end);
    render_all(&out)
}

/// Turns a whole stream of the Chat protocol into one of Anthropic: the bytes of
/// its events, which are read as these events.
pub fn convert_chat_stream(upstream: &Vec<Result<Vec<u8>, String>>) -> (r: Vec<Vec<u8>>)
    ensures
        byte_models(r@) == wires(converted(OpenAiType::Chat, chunk_models(upstream@))),
        is_read_as(byte_models(r@), converted(OpenAiType::Chat, chunk_models(upstream@))),
{
    convert_stream(OpenAiType::Chat, upstream)
}

/// Turns a whole stream of the Responses protocol into one of Anthropic: the bytes of
/// its events, which are read as these events.
pub fn convert_responses_stream(upstream: &Vec<Result<Vec<u8>, String>>) -> (r: Vec<Vec<u8>>)
    ensures
        byte_models(r@) == wires(converted(OpenAiType::Responses, chunk_models(upstream@))),
        is_read_as(byte_models(r@), converted(OpenAiType::Responses, chunk_models(upstream@))),
{
    convert_stream(OpenAiType::Responses, upstream)
}

}
