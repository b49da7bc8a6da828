//! What holds of every stream.
use vstd::prelude::*;

use crate::chat_stream;
use crate::event::{self, EventModel};
use crate::openai::OpenAiType;
use crate::protocol;
use crate::responses_stream;
use crate::sse::{self, FrameModel};
use crate::stream::{self, ChunkModel, ConversionModel, ConversionStep, StreamModel};

verus! {

/// Chunks that all came.
pub open spec fn arrived(chunks: Seq<Seq<u8>>) -> Seq<ChunkModel> {
    Seq::new(chunks.len(), |i: int| Ok(chunks[i]))
}

/// Frames in two lists are taken as one list.
proof fn lemma_processed_both(
    state: ConversionModel,
    a: Seq<FrameModel>,
    b: Seq<FrameModel>,
)
    ensures
        ({
            let one = state.all_processed(a);
            let two = one.state.all_processed(b);
            state.all_processed(a + b) == (ConversionStep {
                state: two.state,
                out: one.out + two.out,
            })
        }),
    decreases b.len(),
{
    let one = state.all_processed(a);
    if b.len() == 0 {
        assert(a + b =~= a);
        assert(one.out + Seq::<EventModel>::empty() =~= one.out);
    } else {
        lemma_processed_both(state, a, b.drop_last());
        assert((a + b).drop_last() =~= a + b.drop_last());
        let two = one.state.all_processed(b.drop_last());
        let now = two.state.processed(b.last());
        assert((one.out + two.out) + now.out =~= one.out + (two.out + now.out));
    }
}

/// What a stream gives goes by the frames that are decoded from it.
proof fn lemma_took_all(api_type: OpenAiType, chunks: Seq<Seq<u8>>)
    ensures
        ({
            let start = stream::new_stream(api_type);
            let step = start.took_all(arrived(chunks));
            let decoded = sse::decoded(chunks);
            let answer = start.state.all_processed(decoded.frames);
            &&& step.stream == (StreamModel {
                buffer: decoded.rest,
                state: answer.state,
                failed: false,
            })
            &&& step.out == answer.out
        }),
    decreases chunks.len(),
{
    let start = stream::new_stream(api_type);
    if chunks.len() > 0 {
        let rest = chunks.drop_last();
        lemma_took_all(api_type, rest);
        assert(arrived(chunks).drop_last() =~= arrived(rest));
        let before = sse::decoded(rest);
        let cut = sse::cut(before.rest + chunks.last());
        lemma_processed_both(start.state, before.frames, sse::frames_of(cut.blocks));
    }
}

/// However the bytes of an upstream are cut into chunks, the same events come.
pub proof fn law_chunks_do_not_matter(
    api_type: OpenAiType,
    one: Seq<Seq<u8>>,
    two: Seq<Seq<u8>>,
)
    requires
        sse::together(one) == sse::together(two),
    ensures
        stream::converted(api_type, arrived(one)) == stream::converted(api_type, arrived(two)),
{
    lemma_took_all(api_type, one);
    lemma_took_all(api_type, two);
    sse::law_chunks_do_not_matter(one);
    sse::law_chunks_do_not_matter(two);
}

/// When the upstream breaks off, the reason is the last event, and nothing of
/// what may follow counts.
pub proof fn law_break_is_the_end(
    api_type: OpenAiType,
    chunks: Seq<Seq<u8>>,
    error: Seq<char>,
    more: Seq<ChunkModel>,
)
    ensures
        stream::converted(api_type, arrived(chunks).push(Err(error)) + more)
            == stream::new_stream(api_type).took_all(arrived(chunks)).out.push(
            EventModel::Failure { message: stream::break_text(error) },
        ),
{
    let start = stream::new_stream(api_type);
    lemma_after_break(api_type, chunks, error, more);
    let items = arrived(chunks).push(Err(error)) + more;
    let step = start.took_all(items);
    assert(step.out + Seq::<EventModel>::empty() =~= step.out);
}

proof fn lemma_after_break(
    api_type: OpenAiType,
    chunks: Seq<Seq<u8>>,
    error: Seq<char>,
    more: Seq<ChunkModel>,
)
    ensures
        ({
            let start = stream::new_stream(api_type);
            let step = start.took_all(arrived(chunks).push(Err(error)) + more);
            &&& step.stream.failed
            &&& step.out == start.took_all(arrived(chunks)).out.push(
                EventModel::Failure { message: stream::break_text(error) },
            )
        }),
    decreases more.len(),
{
    let start = stream::new_stream(api_type);
    let all = arrived(chunks).push(Err(error));
    if more.len() == 0 {
        lemma_took_all(api_type, chunks);
        assert(all + more =~= all);
        assert(all.drop_last() =~= arrived(chunks));
        let before = start.took_all(arrived(chunks));
        let event = EventModel::Failure { message: stream::break_text(error) };
        assert(before.out + seq![event] =~= before.out.push(event));
    } else {
        lemma_after_break(api_type, chunks, error, more.drop_last());
        assert((all + more).drop_last() =~= all + more.drop_last());
        let before = start.took_all(all + more.drop_last());
        assert(before.out + Seq::<EventModel>::empty() =~= before.out);
    }
}

/// The frames of a stream that came whole: those that blank lines end and the
/// one that is left behind them.
pub open spec fn frames(bytes: Seq<u8>) -> Seq<FrameModel> {
    let cut = sse::cut(bytes);
    match stream::last_frame(cut.rest) {
        Some(frame) => sse::frames_of(cut.blocks).push(frame),
        None => sse::frames_of(cut.blocks),
    }
}

/// The events of a stream that came whole go by its frames.
proof fn lemma_converted(api_type: OpenAiType, chunks: Seq<Seq<u8>>)
    ensures
        ({
            let step = stream::new_conversion(api_type).all_processed(
                frames(sse::together(chunks)),
            );
            stream::converted(api_type, arrived(chunks)) == step.out + step.state.ended().out
        }),
{
    lemma_took_all(api_type, chunks);
    sse::law_chunks_do_not_matter(chunks);
    let start = stream::new_conversion(api_type);
    let cut = sse::cut(sse::together(chunks));
    let before = sse::frames_of(cut.blocks);
    let step = start.all_processed(before);
    match stream::last_frame(cut.rest) {
        Some(frame) => {
            assert(before.push(frame).drop_last() =~= before);
            let now = step.state.processed(frame);
            let end = now.state.ended();
            assert(step.out + (now.out + end.out) =~= (step.out + now.out) + end.out);
        },
        None => {
            let end = step.state.ended();
            assert(step.out + (Seq::<EventModel>::empty() + end.out) =~= step.out + end.out);
        },
    }
}

/// The data of frames.
pub open spec fn data_of(frames: Seq<FrameModel>) -> Seq<Seq<char>> {
    Seq::new(frames.len(), |i: int| frames[i].data)
}

proof fn lemma_chat_run(frames: Seq<FrameModel>)
    ensures
        ({
            let step = stream::new_conversion(OpenAiType::Chat).all_processed(frames);
            let run = chat_stream::laws::run(data_of(frames));
            step == (ConversionStep { state: ConversionModel::Chat(run.state), out: run.out })
        }),
    decreases frames.len(),
{
    if frames.len() > 0 {
        lemma_chat_run(frames.drop_last());
        assert(data_of(frames).drop_last() =~= data_of(frames.drop_last()));
    }
}

proof fn lemma_responses_run(frames: Seq<FrameModel>)
    ensures
        ({
            let step = stream::new_conversion(OpenAiType::Responses).all_processed(frames);
            let run = responses_stream::laws::run(frames);
            step == (ConversionStep { state: ConversionModel::Responses(run.state), out: run.out })
        }),
    decreases frames.len(),
{
    if frames.len() > 0 {
        lemma_responses_run(frames.drop_last());
    }
}

/// Whatever bytes a stream of the Chat protocol is made of, its events come in
/// order, and at its end every block that began has ended exactly once and the
/// indices of the blocks are exactly those below the number of blocks, unless the
/// last event is a failure. This holds as long as there are indices for the blocks.
pub proof fn law_chat_in_order(chunks: Seq<Seq<u8>>)
    requires
        chat_stream::laws::blocks_in_all(data_of(frames(sse::together(chunks)))) <= u64::MAX,
    ensures
        ({
            let events = stream::converted(OpenAiType::Chat, arrived(chunks));
            let run = chat_stream::laws::run(data_of(frames(sse::together(chunks))));
            match protocol::nothing_heard().hears_all(events, false) {
                Some(heard) => protocol::complete_up_to(heard, run.state.answer.next_index)
                    || protocol::ends_in_failure(events),
                None => false,
            }
        }),
{
    lemma_converted(OpenAiType::Chat, chunks);
    let all = frames(sse::together(chunks));
    lemma_chat_run(all);
    chat_stream::laws::law_answer_in_order(data_of(all));
}

/// Whatever bytes a stream of the Responses protocol is made of, its events come
/// in order, and at its end every block that began has ended exactly once and the
/// indices of the blocks are exactly those below the number of blocks, unless the
/// last event is a failure. This holds as long as there are indices for the blocks.
pub proof fn law_responses_in_order(chunks: Seq<Seq<u8>>)
    requires
        frames(sse::together(chunks)).len() <= u64::MAX,
    ensures
        ({
            let events = stream::converted(OpenAiType::Responses, arrived(chunks));
            let run = responses_stream::laws::run(frames(sse::together(chunks)));
            match protocol::nothing_heard().hears_all(events, true) {
                Some(heard) => protocol::complete_up_to(heard, run.state.answer.next_index)
                    || protocol::ends_in_failure(events),
                None => false,
            }
        }),
{
    lemma_converted(OpenAiType::Responses, chunks);
    let all = frames(sse::together(chunks));
    lemma_responses_run(all);
    responses_stream::laws::law_answer_in_order(all);
}

/// A stream that comes from an upstream of the Chat protocol gives the events of the answer
/// that its frames make in that protocol, and one from an upstream of the Responses
/// protocol those of the answer in that protocol.
pub proof fn law_stream_is_the_answer(chunks: Seq<Seq<u8>>)
    ensures
        stream::converted(OpenAiType::Chat, arrived(chunks)) == chat_stream::laws::whole(
            data_of(frames(sse::together(chunks))),
        ),
        stream::converted(OpenAiType::Responses, arrived(chunks))
            == responses_stream::laws::whole(frames(sse::together(chunks))),
{
    lemma_converted(OpenAiType::Chat, chunks);
    lemma_converted(OpenAiType::Responses, chunks);
    let all = frames(sse::together(chunks));
    lemma_chat_run(all);
    lemma_responses_run(all);
}

/// The frames of a stream are those of its blocks, and the one that the bytes behind them
/// make, where there are any.
pub proof fn law_frames_of_a_stream(bytes: Seq<u8>)
    ensures
        ({
            let cut = sse::cut(bytes);
            let before = sse::frames_of(cut.blocks);
            let last = sse::frame_of_text(crate::text::lossy_text(cut.rest));
            if cut.rest.len() > 0 && last is Some {
                frames(bytes) == before.push(last->0)
            } else {
                frames(bytes) == before
            }
        }),
{
}

/// When the upstream breaks off, this is told with the reason behind it.
pub proof fn law_break_is_told(
    api_type: OpenAiType,
    chunks: Seq<Seq<u8>>,
    error: Seq<char>,
    more: Seq<ChunkModel>,
)
    ensures
        stream::converted(api_type, arrived(chunks).push(Err(error)) + more).last() == (
        EventModel::Failure { message: "上游流读取失败: "@ + error }),
{
    law_break_is_the_end(api_type, chunks, error, more);
}

/// A client that reads the events of a stream field by field reads the text and the
/// thinking that came in its frames, in their order and as they are.
pub proof fn law_client_reads_what_came(chunks: Seq<Seq<u8>>)
    ensures
        ({
            let all = frames(sse::together(chunks));
            let read = event::laws::read_in(stream::converted(OpenAiType::Chat, arrived(chunks)));
            &&& read.text == chat_stream::laws::text_sent(data_of(all))
            &&& read.thinking == chat_stream::laws::thinking_sent(data_of(all))
        }),
        ({
            let all = frames(sse::together(chunks));
            let read = event::laws::read_in(
                stream::converted(OpenAiType::Responses, arrived(chunks)),
            );
            &&& read.text == responses_stream::laws::text_sent(all)
            &&& read.thinking == responses_stream::laws::thinking_sent(all)
        }),
{
    law_stream_is_the_answer(chunks);
    let all = frames(sse::together(chunks));
    chat_stream::laws::law_text_of_an_answer(data_of(all));
    responses_stream::laws::law_text_of_an_answer(all);
    event::laws::law_client_reads_what_is_said(
        stream::converted(OpenAiType::Chat, arrived(chunks)),
    );
    event::laws::law_client_reads_what_is_said(
        stream::converted(OpenAiType::Responses, arrived(chunks)),
    );
}

/// A client that reads the events of a stream of the Chat protocol field by field reads
/// for the block of each call the input that came for it, in its order and as it is.
pub proof fn law_client_reads_the_input_that_came(chunks: Seq<Seq<u8>>, key: u64)
    requires
        ({
            let data = data_of(frames(sse::together(chunks)));
            &&& chat_stream::laws::blocks_in_all(data) <= u64::MAX
            &&& chat_stream::laws::no_errors(data)
            &&& chat_stream::laws::calls::none_done(data)
            &&& chat_stream::laws::calls::is_sent(chat_stream::laws::calls::all_calls(data), key)
        }),
    ensures
        ({
            let data = data_of(frames(sse::together(chunks)));
            event::laws::input_read(
                stream::converted(OpenAiType::Chat, arrived(chunks)),
                chat_stream::laws::calls::block_of(data, key),
            ) == chat_stream::laws::calls::sent_for(
                chat_stream::laws::calls::all_calls(data),
                key,
            )
        }),
{
    let data = data_of(frames(sse::together(chunks)));
    law_stream_is_the_answer(chunks);
    chat_stream::laws::calls::law_input_of_a_call(data, key);
    event::laws::law_client_reads_the_input(
        stream::converted(OpenAiType::Chat, arrived(chunks)),
        chat_stream::laws::calls::block_of(data, key),
    );
}

}
