//! Splitting the raw bytes of an event stream into event payloads.
//!
//! Frames are separated by a blank line (`"\n\n"`); a frame carries a
//! payload when it starts with `"data: "`, and the payload `"[DONE]"` marks
//! the end of the stream. Both markers are ASCII, so splitting the bytes is
//! the same as splitting the text they encode.
use std::collections::VecDeque;
use vstd::prelude::*;

verus! {

/// The frames of `s` from `start` on, with the separator search at `i`.
pub open spec fn frames_from(s: Seq<u8>, start: int, i: int) -> Seq<Seq<u8>>
    decreases s.len() - i,
{
    if i + 1 >= s.len() {
        seq![s.subrange(start, s.len() as int)]
    } else if s[i] == 10u8 && s[i + 1] == 10u8 {
        seq![s.subrange(start, i)] + frames_from(s, i + 2, i + 2)
    } else {
        frames_from(s, start, i + 1)
    }
}

/// `s` cut at each non-overlapping `"\n\n"`, searched left to right.
pub open spec fn frames(s: Seq<u8>) -> Seq<Seq<u8>> {
    frames_from(s, 0, 0)
}

/// The bytes of `"data: "`.
pub open spec fn data_prefix() -> Seq<u8> {
    seq![100u8, 97u8, 116u8, 97u8, 58u8, 32u8]
}

/// The bytes of `"[DONE]"`.
pub open spec fn done_marker() -> Seq<u8> {
    seq![91u8, 68u8, 79u8, 78u8, 69u8, 93u8]
}

pub open spec fn has_data_prefix(f: Seq<u8>) -> bool {
    f.len() >= 6 && f.subrange(0, 6) == data_prefix()
}

/// What follows the data prefix.
pub open spec fn payload_of(f: Seq<u8>) -> Seq<u8> {
    f.subrange(6, f.len() as int)
}

pub open spec fn is_sentinel_frame(f: Seq<u8>) -> bool {
    has_data_prefix(f) && payload_of(f) == done_marker()
}

/// The payloads of `fs` in order, up to the first sentinel frame, and
/// whether a sentinel frame was met.
pub open spec fn scan_frames(fs: Seq<Seq<u8>>) -> (Seq<Seq<u8>>, bool)
    decreases fs.len(),
{
    if fs.len() == 0 {
        (Seq::empty(), false)
    } else {
        let rest = scan_frames(fs.drop_first());
        if is_sentinel_frame(fs[0]) {
            (Seq::empty(), true)
        } else if has_data_prefix(fs[0]) {
            (seq![payload_of(fs[0])] + rest.0, rest.1)
        } else {
            rest
        }
    }
}

/// The payload of every frame that carries the data prefix, in order.
pub open spec fn data_payloads(fs: Seq<Seq<u8>>) -> Seq<Seq<u8>>
    decreases fs.len(),
{
    if fs.len() == 0 {
        Seq::empty()
    } else if has_data_prefix(fs[0]) {
        seq![payload_of(fs[0])] + data_payloads(fs.drop_first())
    } else {
        data_payloads(fs.drop_first())
    }
}

/// What one raw chunk of the stream contributes: its payloads and whether
/// it ends the stream.
pub open spec fn chunk_payloads(bytes: Seq<u8>) -> (Seq<Seq<u8>>, bool) {
    scan_frames(frames(bytes))
}

pub open spec fn views(v: Seq<Vec<u8>>) -> Seq<Seq<u8>> {
    v.map_values(|x: Vec<u8>| x@)
}

/// Without a sentinel frame, every frame that carries the data prefix yields
/// exactly one payload, in order, frames without the prefix yield none, and
/// the end of the stream is not signalled.
pub proof fn lemma_payloads_are_data_frames(fs: Seq<Seq<u8>>)
    requires
        forall|i: int| 0 <= i < fs.len() ==> !is_sentinel_frame(#[trigger] fs[i]),
    ensures
        scan_frames(fs) == (data_payloads(fs), false),
        scan_frames(fs).0.len() == data_payloads(fs).len(),
    decreases fs.len(),
{
    if fs.len() > 0 {
        assert forall|i: int| 0 <= i < fs.drop_first().len() implies !is_sentinel_frame(
            #[trigger] fs.drop_first()[i],
        ) by {
            assert(fs.drop_first()[i] == fs[i + 1]);
        }
        assert(!is_sentinel_frame(fs[0]));
        lemma_payloads_are_data_frames(fs.drop_first());
    }
}

/// The payloads of a sequence of raw chunks, each split on its own.
pub open spec fn stream_payloads(chunks: Seq<Seq<u8>>) -> Seq<Seq<u8>>
    decreases chunks.len(),
{
    if chunks.len() == 0 {
        Seq::empty()
    } else {
        stream_payloads(chunks.drop_last()) + chunk_payloads(chunks.last()).0
    }
}

/// The payloads of the data frames of a sequence of raw chunks, chunk after
/// chunk.
pub open spec fn stream_data_payloads(chunks: Seq<Seq<u8>>) -> Seq<Seq<u8>>
    decreases chunks.len(),
{
    if chunks.len() == 0 {
        Seq::empty()
    } else {
        stream_data_payloads(chunks.drop_last()) + data_payloads(frames(chunks.last()))
    }
}

/// Over any sequence of raw chunks without a sentinel frame, the payloads
/// emitted are exactly those of the frames that carry the data prefix, one
/// each, in order.
pub proof fn lemma_stream_payloads_are_data_frames(chunks: Seq<Seq<u8>>)
    requires
        forall|k: int, i: int|
            0 <= k < chunks.len() && 0 <= i < frames(chunks[k]).len() ==> !is_sentinel_frame(
                #[trigger] frames(chunks[k])[i],
            ),
    ensures
        stream_payloads(chunks) == stream_data_payloads(chunks),
        stream_payloads(chunks).len() == stream_data_payloads(chunks).len(),
    decreases chunks.len(),
{
    if chunks.len() > 0 {
        let init = chunks.drop_last();
        assert forall|k: int, i: int|
            0 <= k < init.len() && 0 <= i < frames(init[k]).len() implies !is_sentinel_frame(
            #[trigger] frames(init[k])[i],
        ) by {
            assert(init[k] == chunks[k]);
        }
        lemma_stream_payloads_are_data_frames(init);
        let last = chunks.last();
        assert forall|i: int| 0 <= i < frames(last).len() implies !is_sentinel_frame(
            #[trigger] frames(last)[i],
        ) by {
            assert(frames(chunks[chunks.len() - 1])[i] == frames(last)[i]);
        }
        lemma_payloads_are_data_frames(frames(last));
    }
}

/// A sentinel frame ends the stream: the payloads are those of the frames
/// before it, and nothing of it or of the frames after it is emitted.
pub proof fn lemma_sentinel_ends_stream(before: Seq<Seq<u8>>, after: Seq<Seq<u8>>)
    requires
        forall|i: int| 0 <= i < before.len() ==> !is_sentinel_frame(#[trigger] before[i]),
    ensures
        scan_frames(before + seq![data_prefix() + done_marker()] + after) == (
        data_payloads(before),
        true,
        ),
    decreases before.len(),
{
    let sentinel = data_prefix() + done_marker();
    let all = before + seq![sentinel] + after;
    if before.len() == 0 {
        assert(all[0] == sentinel);
        assert(sentinel.subrange(0, 6) =~= data_prefix());
        assert(payload_of(sentinel) =~= done_marker());
    } else {
        assert forall|i: int| 0 <= i < before.drop_first().len() implies !is_sentinel_frame(
            #[trigger] before.drop_first()[i],
        ) by {
            assert(before.drop_first()[i] == before[i + 1]);
        }
        assert(!is_sentinel_frame(before[0]));
        lemma_sentinel_ends_stream(before.drop_first(), after);
        assert(all.drop_first() =~= before.drop_first() + seq![sentinel] + after);
        assert(all[0] == before[0]);
    }
}

/// The bytes `s[start..end]` as a vector of their own.
fn copy_range(s: &[u8], start: usize, end: usize) -> (r: Vec<u8>)
    requires
        start <= end <= s@.len(),
    ensures
        r@ == s@.subrange(start as int, end as int),
{
    let mut r: Vec<u8> = Vec::new();
    let mut i: usize = start;
    while i < end
        invariant
            start <= i <= end <= s@.len(),
            r@ == s@.subrange(start as int, i as int),
        decreases end - i,
    {
        r.push(s[i]);
        i = i + 1;
        assert(r@ =~= s@.subrange(start as int, i as int));
    }
    r
}

/// Cuts `bytes` into frames at each `"\n\n"`.
pub fn split_frames(bytes: &[u8]) -> (r: Vec<Vec<u8>>)
    ensures
        views(r@) == frames(bytes@),
{
    let mut out: Vec<Vec<u8>> = Vec::new();
    let mut start: usize = 0;
    let mut i: usize = 0;
    while i < bytes.len() && bytes.len() - i >= 2
        invariant
            start <= i <= bytes@.len(),
            frames(bytes@) == views(out@) + frames_from(bytes@, start as int, i as int),
        decreases bytes@.len() - i,
    {
        if bytes[i] == 10u8 && bytes[i + 1] == 10u8 {
            let frame = copy_range(bytes, start, i);
            proof {
                assert(frames_from(bytes@, start as int, i as int) == seq![frame@] + frames_from(
                    bytes@,
                    i + 2,
                    i + 2,
                ));
            }
            let ghost before = out@;
            out.push(frame);
            assert(views(out@) =~= views(before) + seq![frame@]);
            i = i + 2;
            start = i;
        } else {
            i = i + 1;
        }
    }
    let last = copy_range(bytes, start, bytes.len());
    let ghost before = out@;
    out.push(last);
    assert(views(out@) =~= views(before) + seq![last@]);
    out
}

/// Appends to `queue` the payloads of `frames` up to the first sentinel
/// frame, and tells whether a sentinel frame was met.
fn scan_payloads(frames: &Vec<Vec<u8>>, queue: &mut VecDeque<Vec<u8>>) -> (ended: bool)
    ensures
        views(final(queue)@) == views(old(queue)@) + scan_frames(views(frames@)).0,
        ended == scan_frames(views(frames@)).1,
{
    let ghost fs = views(frames@);
    let ghost start = queue@;
    let mut i: usize = 0;
    assert(fs.skip(0) =~= fs);
    while i < frames.len()
        invariant
            i <= frames@.len(),
            fs == views(frames@),
            start == old(queue)@,
            views(start) + scan_frames(fs).0 == views(queue@) + scan_frames(fs.skip(i as int)).0,
            scan_frames(fs).1 == scan_frames(fs.skip(i as int)).1,
        decreases frames@.len() - i,
    {
        let f = &frames[i];
        proof {
            assert(fs.skip(i as int)[0] == f@);
            assert(fs.skip(i as int).drop_first() =~= fs.skip(i + 1));
        }
        let prefixed = f.len() >= 6 && f[0] == 100u8 && f[1] == 97u8 && f[2] == 116u8 && f[3]
            == 97u8 && f[4] == 58u8 && f[5] == 32u8;
        proof {
            if f@.len() >= 6 {
                assert(prefixed <==> f@.subrange(0, 6) =~= data_prefix());
            }
        }
        if prefixed {
            let payload = copy_range(f.as_slice(), 6, f.len());
            let sentinel = payload.len() == 6 && payload[0] == 91u8 && payload[1] == 68u8
                && payload[2] == 79u8 && payload[3] == 78u8 && payload[4] == 69u8 && payload[5]
                == 93u8;
            proof {
                if payload@.len() == 6 {
                    assert(sentinel <==> payload@ =~= done_marker());
                }
            }
            if sentinel {
                assert(is_sentinel_frame(fs.skip(i as int)[0]));
                assert(scan_frames(fs.skip(i as int)).0 == Seq::<Seq<u8>>::empty());
                assert(views(queue@) + Seq::<Seq<u8>>::empty() =~= views(queue@));
                assert(views(start) + scan_frames(fs).0 == views(queue@));
                return true;
            }
            let ghost before = queue@;
            queue.push_back(payload);
            assert(views(queue@) =~= views(before) + seq![payload@]);
            assert(views(queue@) + scan_frames(fs.skip(i + 1)).0 =~= views(before) + (seq![
                payload@,
            ] + scan_frames(fs.skip(i + 1)).0));
        }
        i = i + 1;
    }
    assert(fs.skip(i as int) =~= Seq::<Seq<u8>>::empty());
    assert(views(queue@) + Seq::<Seq<u8>>::empty() =~= views(queue@));
    false
}

/// Appends to `queue` the payloads that one raw chunk of the stream carries,
/// in order, and tells whether the chunk ends the stream.
pub fn queue_payloads(bytes: &[u8], queue: &mut VecDeque<Vec<u8>>) -> (ended: bool)
    ensures
        views(final(queue)@) == views(old(queue)@) + chunk_payloads(bytes@).0,
        ended == chunk_payloads(bytes@).1,
{
    let frames = split_frames(bytes);
    scan_payloads(&frames, queue)
}

} // verus!
