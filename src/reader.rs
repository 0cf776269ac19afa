//! The payload queue between the transport and the JSON decoder, and the
//! accumulator that turns decoded chunks into the growing answer.
//!
//! Reading is driven from outside: the driver asks [`CompletionStreamReader::next_step`]
//! what to do, hands raw bytes in with `feed`, decodes each payload it is
//! given and reports the outcome to [`CompletionContentReader::apply_decoded`].
use crate::error::OpenAIError;
use crate::frame::{chunk_payloads, queue_payloads, views};
use crate::model::{chunk_delta, CompletionChunk};
use std::collections::VecDeque;
use vstd::prelude::*;
use vstd::utf8::valid_utf8;

verus! {

/// Relies on std::str::from_utf8: it accepts exactly the byte sequences that
/// are well-formed UTF-8; the error carries its message.
#[verifier::external_body]
fn check_utf8(bytes: &[u8]) -> (r: Result<(), String>)
    ensures
        r is Ok <==> valid_utf8(bytes@),
{
    match std::str::from_utf8(bytes) {
        Ok(_) => Ok(()),
        Err(e) => Err(e.to_string()),
    }
}

/// What the driver of a reader has to do next.
#[derive(Debug)]
pub enum StreamStep {
    /// Decode this payload (the oldest one pending).
    Payload(Vec<u8>),
    /// Nothing is pending: read more bytes from the transport.
    NeedBytes,
    /// Nothing is pending and the stream has ended.
    Finished,
}

/// Pending payloads of a response stream, oldest first, and whether its end
/// has been seen.
pub struct CompletionStreamReader {
    pending: VecDeque<Vec<u8>>,
    done: bool,
}

impl CompletionStreamReader {
    pub closed spec fn pending_payloads(&self) -> Seq<Seq<u8>> {
        views(self.pending@)
    }

    pub closed spec fn at_end(&self) -> bool {
        self.done
    }

    pub fn new() -> (r: Self)
        ensures
            r.pending_payloads() == Seq::<Seq<u8>>::empty(),
            !r.at_end(),
    {
        let r = CompletionStreamReader { pending: VecDeque::new(), done: false };
        assert(r.pending_payloads() =~= Seq::<Seq<u8>>::empty());
        r
    }

    /// Takes one raw chunk of the response body: queues the payloads of its
    /// frames and notes a sentinel. Bytes that are not UTF-8 are refused and
    /// leave the reader as it was.
    pub fn feed(&mut self, bytes: &[u8]) -> (r: Result<(), OpenAIError>)
        ensures
            r is Ok <==> valid_utf8(bytes@),
            r is Ok ==> {
                &&& final(self).pending_payloads() == old(self).pending_payloads() + chunk_payloads(bytes@).0
                &&& final(self).at_end() == (old(self).at_end() || chunk_payloads(bytes@).1)
            },
            r is Err ==> {
                &&& r matches Err(OpenAIError::ParseChunkError(_))
                &&& final(self).pending_payloads() == old(self).pending_payloads()
                &&& final(self).at_end() == old(self).at_end()
            },
    {
        match check_utf8(bytes) {
            Err(msg) => {
                return Err(OpenAIError::ParseChunkError(msg));
            },
            Ok(()) => {},
        }
        let sentinel = queue_payloads(bytes, &mut self.pending);
        self.done = self.done || sentinel;
        Ok(())
    }

    /// The transport has no more bytes: the stream ends once the pending
    /// payloads are taken.
    pub fn close_transport(&mut self)
        ensures
            final(self).pending_payloads() == old(self).pending_payloads(),
            final(self).at_end(),
    {
        self.done = true;
    }

    /// The oldest pending payload, taken out of the queue; or, with none
    /// pending, whether to read more bytes or stop.
    pub fn next_step(&mut self) -> (r: StreamStep)
        ensures
            final(self).at_end() == old(self).at_end(),
            old(self).pending_payloads().len() > 0 ==> {
                &&& r matches StreamStep::Payload(p)
                &&& r->Payload_0@ == old(self).pending_payloads()[0]
                &&& final(self).pending_payloads() == old(self).pending_payloads().drop_first()
            },
            old(self).pending_payloads().len() == 0 ==> {
                &&& final(self).pending_payloads() == old(self).pending_payloads()
                &&& old(self).at_end() ==> r is Finished
                &&& !old(self).at_end() ==> r is NeedBytes
            },
    {
        let ghost before = self.pending@;
        match self.pending.pop_front() {
            Some(p) => {
                assert(views(self.pending@) =~= views(before).drop_first());
                StreamStep::Payload(p)
            },
            None => {
                if self.done {
                    StreamStep::Finished
                } else {
                    StreamStep::NeedBytes
                }
            },
        }
    }

    /// The accumulator that reads from this reader.
    pub fn to_content_reader(self) -> (r: CompletionContentReader)
        ensures
            r.wf(),
            r.content() == Seq::<char>::empty(),
            r.outcomes() == Seq::<Option<CompletionChunk>>::empty(),
            r.stream().pending_payloads() == self.pending_payloads(),
            r.stream().at_end() == self.at_end(),
    {
        CompletionContentReader::new(self)
    }
}

/// The chunks that decoded, in order: a payload that failed to decode
/// (`None`) contributes nothing.
pub open spec fn decoded_chunks(outcomes: Seq<Option<CompletionChunk>>) -> Seq<CompletionChunk>
    decreases outcomes.len(),
{
    if outcomes.len() == 0 {
        Seq::empty()
    } else {
        let init = decoded_chunks(outcomes.drop_last());
        match outcomes.last() {
            Some(c) => init.push(c),
            None => init,
        }
    }
}

/// The answer built from `chunks`: their deltas, concatenated in order.
pub open spec fn accumulated(chunks: Seq<CompletionChunk>) -> Seq<char>
    decreases chunks.len(),
{
    if chunks.len() == 0 {
        Seq::empty()
    } else {
        accumulated(chunks.drop_last()) + chunk_delta(chunks.last())
    }
}

/// A payload that fails to decode, wherever it stands, changes neither the
/// chunks that are decoded from the others nor their order.
pub proof fn lemma_malformed_payload_skipped(outcomes: Seq<Option<CompletionChunk>>, i: int)
    requires
        0 <= i <= outcomes.len(),
    ensures
        decoded_chunks(outcomes.insert(i, None)) == decoded_chunks(outcomes),
    decreases outcomes.len(),
{
    let ins = outcomes.insert(i, None);
    if i == outcomes.len() {
        assert(ins.drop_last() =~= outcomes);
    } else {
        lemma_malformed_payload_skipped(outcomes.drop_last(), i);
        assert(ins.drop_last() =~= outcomes.drop_last().insert(i, None));
        assert(ins.last() == outcomes.last());
    }
}

/// The answers handed out over a run: after each payload that decoded, the
/// answer so far; a payload that did not decode hands out nothing.
pub open spec fn answers(outcomes: Seq<Option<CompletionChunk>>) -> Seq<Seq<char>>
    decreases outcomes.len(),
{
    if outcomes.len() == 0 {
        Seq::empty()
    } else {
        let init = answers(outcomes.drop_last());
        match outcomes.last() {
            Some(_) => init.push(accumulated(decoded_chunks(outcomes))),
            None => init,
        }
    }
}

/// A payload that fails to decode, wherever it stands, changes none of the
/// answers handed out, nor their order.
pub proof fn lemma_malformed_payload_keeps_answers(outcomes: Seq<Option<CompletionChunk>>, i: int)
    requires
        0 <= i <= outcomes.len(),
    ensures
        answers(outcomes.insert(i, None)) == answers(outcomes),
    decreases outcomes.len(),
{
    let ins = outcomes.insert(i, None);
    if i == outcomes.len() {
        assert(ins.drop_last() =~= outcomes);
    } else {
        lemma_malformed_payload_keeps_answers(outcomes.drop_last(), i);
        lemma_malformed_payload_skipped(outcomes, i);
        assert(ins.drop_last() =~= outcomes.drop_last().insert(i, None));
        assert(ins.last() == outcomes.last());
    }
}

/// Each answer extends every earlier one: the answer after the first `i`
/// chunks is a prefix of the answer after the first `j`, for `i <= j`.
pub proof fn lemma_answer_extends(chunks: Seq<CompletionChunk>, i: int, j: int)
    requires
        0 <= i <= j <= chunks.len(),
    ensures
        accumulated(chunks.take(i)).is_prefix_of(accumulated(chunks.take(j))),
    decreases j - i,
{
    if i < j {
        lemma_answer_extends(chunks, i, j - 1);
        assert(chunks.take(j).drop_last() =~= chunks.take(j - 1));
        let a = accumulated(chunks.take(i));
        let b = accumulated(chunks.take(j - 1));
        let c = accumulated(chunks.take(j));
        assert(c == b + chunk_delta(chunks.take(j).last()));
        assert(a =~= c.subrange(0, a.len() as int));
    }
}

/// The running answer of one response, read from a stream reader.
pub struct CompletionContentReader {
    chunk_reader: CompletionStreamReader,
    content: String,
    seen: Ghost<Seq<Option<CompletionChunk>>>,
}

impl CompletionContentReader {
    /// The answer is the concatenated deltas of the chunks decoded so far.
    pub closed spec fn wf(&self) -> bool {
        self.content@ == accumulated(decoded_chunks(self.seen@))
    }

    pub closed spec fn content(&self) -> Seq<char> {
        self.content@
    }

    /// The decode outcome of every payload handed back so far.
    pub closed spec fn outcomes(&self) -> Seq<Option<CompletionChunk>> {
        self.seen@
    }

    pub closed spec fn stream(&self) -> CompletionStreamReader {
        self.chunk_reader
    }

    pub fn new(chunk_reader: CompletionStreamReader) -> (r: Self)
        ensures
            r.wf(),
            r.content() == Seq::<char>::empty(),
            r.outcomes() == Seq::<Option<CompletionChunk>>::empty(),
            r.stream() == chunk_reader,
    {
        CompletionContentReader { chunk_reader, content: String::new(), seen: Ghost(Seq::empty()) }
    }

    /// See [`CompletionStreamReader::feed`].
    pub fn feed(&mut self, bytes: &[u8]) -> (r: Result<(), OpenAIError>)
        requires
            old(self).wf(),
        ensures
            final(self).wf(),
            final(self).content() == old(self).content(),
            final(self).outcomes() == old(self).outcomes(),
            r is Ok <==> valid_utf8(bytes@),
            r is Ok ==> {
                &&& final(self).stream().pending_payloads() == old(self).stream().pending_payloads() + chunk_payloads(bytes@).0
                &&& final(self).stream().at_end() == (old(self).stream().at_end() || chunk_payloads(bytes@).1)
            },
            r is Err ==> {
                &&& r matches Err(OpenAIError::ParseChunkError(_))
                &&& final(self).stream().pending_payloads() == old(self).stream().pending_payloads()
                &&& final(self).stream().at_end() == old(self).stream().at_end()
            },
    {
        self.chunk_reader.feed(bytes)
    }

    /// See [`CompletionStreamReader::close_transport`].
    pub fn close_transport(&mut self)
        requires
            old(self).wf(),
        ensures
            final(self).wf(),
            final(self).content() == old(self).content(),
            final(self).outcomes() == old(self).outcomes(),
            final(self).stream().pending_payloads() == old(self).stream().pending_payloads(),
            final(self).stream().at_end(),
    {
        self.chunk_reader.close_transport()
    }

    /// See [`CompletionStreamReader::next_step`].
    pub fn next_step(&mut self) -> (r: StreamStep)
        requires
            old(self).wf(),
        ensures
            final(self).wf(),
            final(self).content() == old(self).content(),
            final(self).outcomes() == old(self).outcomes(),
            final(self).stream().at_end() == old(self).stream().at_end(),
            old(self).stream().pending_payloads().len() > 0 ==> {
                &&& r matches StreamStep::Payload(p)
                &&& r->Payload_0@ == old(self).stream().pending_payloads()[0]
                &&& final(self).stream().pending_payloads() == old(self).stream().pending_payloads().drop_first()
            },
            old(self).stream().pending_payloads().len() == 0 ==> {
                &&& final(self).stream().pending_payloads() == old(self).stream().pending_payloads()
                &&& old(self).stream().at_end() ==> r is Finished
                &&& !old(self).stream().at_end() ==> r is NeedBytes
            },
    {
        self.chunk_reader.next_step()
    }

    /// Takes the outcome of decoding the last payload. A chunk extends the
    /// answer by its delta and the whole answer so far is returned; a payload
    /// that did not decode is skipped: nothing changes and `None` asks the
    /// driver for the next step.
    pub fn apply_decoded(&mut self, decoded: Option<CompletionChunk>) -> (r: Option<String>)
        requires
            old(self).wf(),
        ensures
            final(self).wf(),
            final(self).outcomes() == old(self).outcomes().push(decoded),
            final(self).content() == accumulated(decoded_chunks(final(self).outcomes())),
            final(self).stream() == old(self).stream(),
            decoded is None ==> r is None && final(self).content() == old(self).content(),
            decoded matches Some(c) ==> {
                &&& final(self).content() == old(self).content() + chunk_delta(c)
                &&& r matches Some(s)
                &&& r->Some_0@ == final(self).content()
            },
            old(self).content().is_prefix_of(final(self).content()),
            decoded matches Some(c) && c.choices@.len() == 0 ==> {
                &&& r matches Some(s)
                &&& r->Some_0@ == old(self).content()
            },
    {
        let ghost prev = self.seen@;
        self.seen = Ghost(self.seen@.push(decoded));
        proof {
            assert(self.seen@.drop_last() =~= prev);
        }
        match decoded {
            None => {
                assert(old(self).content().is_prefix_of(self.content@)) by {
                    assert(self.content@ =~= self.content@.subrange(0, self.content@.len() as int));
                }
                None
            },
            Some(chunk) => {
                if chunk.choices.len() > 0 {
                    match &chunk.choices[0].delta.content {
                        Some(text) => {
                            self.content.append(text.as_str());
                        },
                        None => {},
                    }
                }
                proof {
                    assert(decoded_chunks(self.seen@) == decoded_chunks(prev).push(chunk));
                    assert(decoded_chunks(self.seen@).drop_last() =~= decoded_chunks(prev));
                    assert(old(self).content@ =~= self.content@.subrange(
                        0,
                        old(self).content@.len() as int,
                    ));
                    if chunk.choices@.len() == 0 {
                        assert(self.content@ =~= old(self).content@);
                    }
                }
                Some(self.content.clone())
            },
        }
    }
}

} // verus!
