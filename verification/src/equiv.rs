//! How the two decoders relate.
//!
//! Fed every byte of an image with a valid header, the streaming decoder
//! takes them all, and the pixels it hands out start with those the chunked
//! decoder returns. On a well-formed image they are exactly those, and the
//! streaming decoder ends finished. A header the chunked decoder rejects, the
//! streaming decoder refuses at the first byte that is wrong, unless the
//! image has no pixels and the decoder is finished before it gets there.
use crate::dec::{
    decode_image, decode_ops, exact_ops, has_header, image_header, lemma_decode_ops_len,
    lemma_exact_ops_complete, well_formed_image, Codec,
};
use crate::header::{be_u32, lemma_be_bytes_of, magic};
use crate::ops::{kind_of, op_count, op_len, OpKind};
use crate::pixel::Pixel;
use crate::stream::{lemma_step_wf, Fed, StreamDecoderOutput, StreamDecoderState, StreamModel};
use vstd::prelude::*;

verus! {

/// Feeding a range of bytes is feeding its first part and then, if that was
/// taken whole, the rest.
pub proof fn lemma_feed_split(m: StreamModel, data: Seq<u8>, from: int, mid: int, to: int)
    requires
        0 <= from <= mid <= to <= data.len(),
    ensures
        ({
            let first = m.feed_range(data, from, mid);
            let second = first.model.feed_range(data, mid, to);
            m.feed_range(data, from, to) == if first.accepted {
                Fed {
                    model: second.model,
                    pixels: first.pixels + second.pixels,
                    accepted: second.accepted,
                }
            } else {
                first
            }
        }),
    decreases mid - from,
{
    if from == mid {
        let second = m.feed_range(data, mid, to);
        assert(Seq::<Pixel>::empty() + second.pixels =~= second.pixels);
    } else {
        match m.step(data[from]) {
            (next, Some(out)) => {
                lemma_feed_split(next, data, from + 1, mid, to);
                let first = next.feed_range(data, from + 1, mid);
                let second = first.model.feed_range(data, mid, to);
                assert(out.pixels() + (first.pixels + second.pixels) =~= (out.pixels()
                    + first.pixels) + second.pixels);
            },
            (_, None) => {},
        }
    }
}

/// A finished decoder takes every byte, hands out nothing and stays as it
/// is.
pub proof fn lemma_finished_absorbs(m: StreamModel, data: Seq<u8>, from: int, to: int)
    requires
        m.wf(),
        m.state is Finished,
    ensures
        m.feed_range(data, from, to) == (Fed { model: m, pixels: Seq::empty(), accepted: true }),
    decreases to - from,
{
    if from < 0 || from >= to || to > data.len() {
    } else {
        assert(m.step(data[from]) == (m, Some(StreamDecoderOutput::Finished)));
        lemma_finished_absorbs(m, data, from + 1, to);
        assert(Seq::<Pixel>::empty() + Seq::<Pixel>::empty() =~= Seq::<Pixel>::empty());
    }
}

/// Whatever bytes a decoder is fed, it stays well formed and counts the
/// pixels it hands out, up to `u64::MAX`. So it is finished exactly when the
/// pixels handed out are as many as the header asked for: not before, and
/// whatever bytes follow.
pub proof fn lemma_finished_exactly_at_target(m: StreamModel, data: Seq<u8>, from: int, to: int)
    requires
        m.wf(),
    ensures
        ({
            let fed = m.feed_range(data, from, to);
            &&& fed.model.wf()
            &&& fed.model.produced == if m.produced + fed.pixels.len() > u64::MAX {
                u64::MAX as int
            } else {
                m.produced + fed.pixels.len()
            }
            &&& fed.model.state is Finished <==> fed.model.target == Some(fed.model.produced)
        }),
    decreases to - from,
{
    if from < 0 || from >= to || to > data.len() {
    } else {
        lemma_step_wf(m, data[from]);
        match m.step(data[from]) {
            (next, Some(out)) => {
                lemma_finished_exactly_at_target(next, data, from + 1, to);
                assert(out.pixels().len() == out.pixel_count());
            },
            (_, None) => {},
        }
    }
}

/// A decoder that has turned to the opcodes refuses no byte.
pub proof fn lemma_opcodes_never_refused(m: StreamModel, data: Seq<u8>, from: int, to: int)
    requires
        m.wf(),
        m.state is Idle || m.state is InProgress || m.state is Finished,
    ensures
        m.feed_range(data, from, to).accepted,
    decreases to - from,
{
    if from < 0 || from >= to || to > data.len() {
    } else {
        lemma_step_wf(m, data[from]);
        lemma_opcodes_never_refused(m.step(data[from]).0, data, from + 1, to);
    }
}

/// The width that the bytes 4 to 7 of `data` stand for.
pub open spec fn width_in(data: Seq<u8>) -> int {
    be_u32(data.subrange(4, 8))
}

/// The height that the bytes 8 to 11 of `data` stand for.
pub open spec fn height_in(data: Seq<u8>) -> int {
    be_u32(data.subrange(8, 12))
}

/// The number of header bytes the streaming decoder reads before it either
/// finishes or turns to the opcodes: it finishes on a width of zero after
/// the width, on a height of zero after the height.
pub open spec fn header_stop(data: Seq<u8>) -> int {
    if width_in(data) == 0 {
        8
    } else if height_in(data) == 0 {
        12
    } else {
        14
    }
}

/// Whether the byte at position `k` of `data` is one a header may have
/// there: a magic letter in the first four places, a channel count of 3 or 4
/// in the thirteenth, a colorspace of 0 or 1 in the fourteenth, anything in
/// between.
pub open spec fn header_byte_ok(data: Seq<u8>, k: int) -> bool {
    if k < 4 {
        data[k] == magic()[k]
    } else if k == 12 {
        data[12] == 3 || data[12] == 4
    } else if k == 13 {
        data[13] == 0 || data[13] == 1
    } else {
        true
    }
}

/// What holds of the decoder that has read the first `k` bytes of the
/// header of `data`.
pub open spec fn in_header(m: StreamModel, data: Seq<u8>, k: int) -> bool {
    let w = width_in(data);
    let h = height_in(data);
    &&& m.codec == Codec::initial()
    &&& m.produced == 0
    &&& m.scratch.len() == 4
    &&& m.state == if k == 0 {
        StreamDecoderState::NotStarted
    } else if k < header_stop(data) {
        StreamDecoderState::ParsingHeader(k as u8)
    } else if w * h == 0 {
        StreamDecoderState::Finished
    } else {
        StreamDecoderState::Idle
    }
    &&& m.target == if k < 8 {
        None
    } else if k < 12 {
        Some(w as u64)
    } else {
        Some((w * h) as u64)
    }
    &&& 5 <= k <= 7 ==> m.scratch[0] == data[4]
    &&& 6 <= k <= 7 ==> m.scratch[1] == data[5]
    &&& k == 7 ==> m.scratch[2] == data[6]
    &&& 9 <= k <= 11 ==> m.scratch[0] == data[8]
    &&& 10 <= k <= 11 ==> m.scratch[1] == data[9]
    &&& k == 11 ==> m.scratch[2] == data[10]
}

/// Width and height of a header fit in 32 bits, and their product in 64.
pub proof fn lemma_dimensions(data: Seq<u8>)
    requires
        data.len() >= 14,
    ensures
        0 <= width_in(data) <= u32::MAX,
        0 <= height_in(data) <= u32::MAX,
        0 <= width_in(data) * height_in(data) <= u64::MAX,
        width_in(data) * height_in(data) == 0 <==> width_in(data) == 0 || height_in(data) == 0,
        width_in(data) == be_u32(data.subrange(0, 14).subrange(4, 8)),
        height_in(data) == be_u32(data.subrange(0, 14).subrange(8, 12)),
{
    lemma_be_bytes_of(data.subrange(4, 8));
    lemma_be_bytes_of(data.subrange(8, 12));
    assert(data.subrange(0, 14).subrange(4, 8) =~= data.subrange(4, 8));
    assert(data.subrange(0, 14).subrange(8, 12) =~= data.subrange(8, 12));
    let w = width_in(data);
    let h = height_in(data);
    assert(0 <= w * h <= u64::MAX && (w * h == 0 <==> w == 0 || h == 0)) by (nonlinear_arith)
        requires
            0 <= w <= u32::MAX,
            0 <= h <= u32::MAX,
    ;
}

/// A header is valid exactly when each of its fourteen bytes is one it may
/// have.
pub proof fn lemma_header_bytes_ok(data: Seq<u8>)
    requires
        data.len() >= 14,
    ensures
        has_header(data) <==> forall|k: int| 0 <= k < 14 ==> header_byte_ok(data, k),
{
    let head = data.subrange(0, 14);
    assert(forall|i: int| 0 <= i < 14 ==> head[i] == data[i]);
    assert(forall|i: int| 0 <= i < 4 ==> head.subrange(0, 4)[i] == data[i]);
    if forall|k: int| 0 <= k < 14 ==> header_byte_ok(data, k) {
        assert(header_byte_ok(data, 0) && header_byte_ok(data, 1) && header_byte_ok(data, 2)
            && header_byte_ok(data, 3) && header_byte_ok(data, 12) && header_byte_ok(data, 13));
        assert(head.subrange(0, 4) =~= magic());
    }
    if has_header(data) {
        assert(head.subrange(0, 4) == magic());
    }
}

/// A decoder inside a header takes the next byte, if it is one the header
/// may have there, and hands out no pixel; any other byte it refuses.
pub proof fn lemma_header_step(m: StreamModel, data: Seq<u8>, k: int)
    requires
        data.len() >= 14,
        0 <= k < header_stop(data),
        in_header(m, data, k),
    ensures
        header_byte_ok(data, k) ==> {
            &&& m.step(data[k]).1 is Some
            &&& m.step(data[k]).1->0.pixels() == Seq::<Pixel>::empty()
            &&& in_header(m.step(data[k]).0, data, k + 1)
        },
        !header_byte_ok(data, k) ==> m.step(data[k]).1 is None,
{
    lemma_dimensions(data);
    if k == 7 {
        assert(seq![m.scratch[0], m.scratch[1], m.scratch[2], data[7]] =~= data.subrange(4, 8));
    }
    if k == 11 {
        assert(seq![m.scratch[0], m.scratch[1], m.scratch[2], data[11]] =~= data.subrange(8, 12));
    }
}

/// A decoder that has read `k` bytes of a header takes the bytes up to
/// `limit`, if each is one the header may have, and hands out no pixel.
pub proof fn lemma_feed_header(m: StreamModel, data: Seq<u8>, k: int, limit: int)
    requires
        data.len() >= 14,
        0 <= k <= limit <= header_stop(data),
        in_header(m, data, k),
        forall|j: int| k <= j < limit ==> header_byte_ok(data, j),
    ensures
        ({
            let fed = m.feed_range(data, k, limit);
            &&& fed.accepted
            &&& fed.pixels == Seq::<Pixel>::empty()
            &&& in_header(fed.model, data, limit)
        }),
    decreases limit - k,
{
    if k < limit {
        lemma_header_step(m, data, k);
        lemma_feed_header(m.step(data[k]).0, data, k + 1, limit);
        assert(Seq::<Pixel>::empty() + Seq::<Pixel>::empty() =~= Seq::<Pixel>::empty());
    }
}

/// The decoder that `m` becomes by an opcode that sets its codec to `codec`
/// and hands out `count` pixels: finished if those were the last, idle
/// otherwise.
pub open spec fn after_op(m: StreamModel, codec: Codec, count: int) -> StreamModel {
    StreamModel {
        state: if m.target == Some((m.produced + count) as u64) {
            StreamDecoderState::Finished
        } else {
            StreamDecoderState::Idle
        },
        codec,
        produced: (m.produced + count) as u64,
        ..m
    }
}

/// An idle decoder, fed the bytes of one opcode, does to its last pixel and
/// cache what the opcode says and hands out the opcode's pixels.
pub proof fn lemma_feed_op(m: StreamModel, data: Seq<u8>, pos: int)
    requires
        m.wf(),
        m.state is Idle,
        m.target is Some,
        0 <= pos < data.len(),
        pos + op_len(data[pos]) <= data.len(),
        m.produced + op_count(data[pos]) <= m.target->0,
    ensures
        ({
            let len = op_len(data[pos]);
            let codec = m.codec.apply(data.subrange(pos, pos + len));
            let fed = m.feed_range(data, pos, pos + len);
            &&& fed.accepted
            &&& fed.pixels == Seq::new(op_count(data[pos]) as nat, |i: int| codec.last)
            &&& fed.model == after_op(m, codec, op_count(data[pos]))
        }),
{
    let tag = data[pos];
    let len = op_len(tag);
    let op = data.subrange(pos, pos + len);
    let codec = m.codec.apply(op);
    let fed = m.feed_range(data, pos, pos + len);
    reveal_with_fuel(StreamModel::feed_range, 6);
    assert(op[0] == tag);
    match kind_of(tag) {
        OpKind::Rgb => {
            assert(op[1] == data[pos + 1] && op[2] == data[pos + 2] && op[3] == data[pos + 3]);
            let m1 = m.step(data[pos]).0;
            let m2 = m1.step(data[pos + 1]).0;
            let m3 = m2.step(data[pos + 2]).0;
            let m4 = m3.step(data[pos + 3]).0;
            assert(m4 == after_op(m, codec, 1));
            assert(fed.pixels =~= Seq::new(1, |i: int| codec.last));
        },
        OpKind::Rgba => {
            assert(op[1] == data[pos + 1] && op[2] == data[pos + 2] && op[3] == data[pos + 3]
                && op[4] == data[pos + 4]);
            let m1 = m.step(data[pos]).0;
            let m2 = m1.step(data[pos + 1]).0;
            let m3 = m2.step(data[pos + 2]).0;
            let m4 = m3.step(data[pos + 3]).0;
            let m5 = m4.step(data[pos + 4]).0;
            assert(m5 == after_op(m, codec, 1));
            assert(fed.pixels =~= Seq::new(1, |i: int| codec.last));
        },
        OpKind::Luma => {
            assert(op[1] == data[pos + 1]);
            let m1 = m.step(data[pos]).0;
            let m2 = m1.step(data[pos + 1]).0;
            assert(m2 == after_op(m, codec, 1));
            assert(fed.pixels =~= Seq::new(1, |i: int| codec.last));
        },
        OpKind::Index => {
            let m1 = m.step(data[pos]).0;
            assert(m1 == after_op(m, codec, 1));
            assert(fed.pixels =~= Seq::new(1, |i: int| codec.last));
        },
        OpKind::Diff => {
            let m1 = m.step(data[pos]).0;
            assert(m1 == after_op(m, codec, 1));
            assert(fed.pixels =~= Seq::new(1, |i: int| codec.last));
        },
        OpKind::Run => {
            let m1 = m.step(data[pos]).0;
            assert(m1 == after_op(m, codec, op_count(tag)));
            assert(fed.pixels =~= Seq::new(op_count(tag) as nat, |i: int| codec.last));
        },
    }
}

/// An idle decoder with `n` pixels to go, fed opcodes that make exactly `n`
/// pixels and whatever follows them, hands out the pixels the opcodes decode
/// to and ends finished.
pub proof fn lemma_feed_ops(m: StreamModel, data: Seq<u8>, pos: int, n: nat)
    requires
        m.wf(),
        m.state is Idle,
        m.target == Some((m.produced + n) as u64),
        m.produced + n <= u64::MAX,
        0 <= pos <= data.len(),
        exact_ops(data, pos, n),
    ensures
        ({
            let fed = m.feed_range(data, pos, data.len() as int);
            let decoded = decode_ops(data, pos, m.codec, n);
            &&& fed.accepted
            &&& fed.pixels == decoded.pixels
            &&& fed.model.state is Finished
            &&& fed.model.codec == decoded.codec
            &&& fed.model.produced == m.produced + n
        }),
    decreases n,
{
    let end = data.len() as int;
    assert(n > 0);
    let len = op_len(data[pos]);
    let count = op_count(data[pos]);
    let codec = m.codec.apply(data.subrange(pos, pos + len));
    let next = after_op(m, codec, count);
    lemma_feed_op(m, data, pos);
    lemma_feed_split(m, data, pos, pos + len, end);
    let first = m.feed_range(data, pos, pos + len);
    let second = next.feed_range(data, pos + len, end);
    let rest = decode_ops(data, pos + len, codec, (n - count) as nat);
    assert(m.feed_range(data, pos, end).pixels == first.pixels + second.pixels);
    if count == n {
        lemma_finished_absorbs(next, data, pos + len, end);
    } else {
        lemma_feed_ops(next, data, pos + len, (n - count) as nat);
    }
    assert(second.pixels == rest.pixels);
}

/// An idle decoder with `n` pixels to go, fed whatever follows, hands out
/// first of all the pixels that decoding `n` pixels from there gives: all of
/// them if the opcodes are there whole, those before the input ends if not,
/// and more than them only after a run that passes the `n`-th pixel.
pub proof fn lemma_feed_any_ops(m: StreamModel, data: Seq<u8>, pos: int, n: nat)
    requires
        m.wf(),
        m.state is Idle,
        m.target == Some((m.produced + n) as u64),
        m.produced + n <= u64::MAX,
        0 <= pos <= data.len(),
    ensures
        decode_ops(data, pos, m.codec, n).pixels.is_prefix_of(
            m.feed_range(data, pos, data.len() as int).pixels,
        ),
    decreases n,
{
    let end = data.len() as int;
    let fed = m.feed_range(data, pos, end);
    let decoded = decode_ops(data, pos, m.codec, n);
    assert(n > 0);
    if pos >= end || pos + op_len(data[pos]) > end {
        assert(decoded.pixels =~= fed.pixels.subrange(0, 0));
    } else {
        let len = op_len(data[pos]);
        let count = op_count(data[pos]);
        let codec = m.codec.apply(data.subrange(pos, pos + len));
        if count <= n {
            let next = after_op(m, codec, count);
            lemma_feed_op(m, data, pos);
            lemma_feed_split(m, data, pos, pos + len, end);
            let first = m.feed_range(data, pos, pos + len);
            let second = next.feed_range(data, pos + len, end);
            let rest = decode_ops(data, pos + len, codec, (n - count) as nat);
            assert(fed.pixels == first.pixels + second.pixels);
            assert(decoded.pixels == first.pixels + rest.pixels);
            if count < n {
                lemma_feed_any_ops(next, data, pos + len, (n - count) as nat);
            }
            assert(rest.pixels.is_prefix_of(second.pixels));
            assert(decoded.pixels =~= fed.pixels.subrange(0, decoded.pixels.len() as int));
        } else {
            // only a run yields more than one pixel
            assert(kind_of(data[pos]) is Run);
            let (next, out) = m.step(data[pos]);
            let second = next.feed_range(data, pos + 1, end);
            let run = Seq::new(count as nat, |i: int| m.codec.last);
            assert(out->0.pixels() == run);
            assert(fed.pixels == run + second.pixels);
            let rest = decode_ops(data, pos + 1, m.codec, 0);
            assert(decoded.pixels == Seq::new(n, |i: int| m.codec.last) + rest.pixels);
            assert(decoded.pixels =~= fed.pixels.subrange(0, n as int));
        }
    }
}

/// The streaming decoder, new and fed every byte of a well-formed image,
/// takes them all and hands out, in order, exactly the pixels that decoding
/// the image at once gives. They are as many as the header's width times its
/// height, and then the decoder is finished.
pub proof fn lemma_stream_agrees_with_chunked(data: Seq<u8>)
    requires
        well_formed_image(data),
    ensures
        ({
            let fed = StreamModel::initial().feed_all(data);
            let decoded = decode_image(data);
            &&& decoded.complete
            &&& fed.accepted
            &&& fed.pixels == decoded.pixels
            &&& fed.pixels.len() == image_header(data).width * image_header(data).height
            &&& fed.model.state is Finished
        }),
{
    let start = StreamModel::initial();
    let end = data.len() as int;
    let stop = header_stop(data);
    let n = image_header(data).pixel_count();
    lemma_dimensions(data);
    assert(n == width_in(data) * height_in(data));
    lemma_exact_ops_complete(data, 14, Codec::initial(), n);
    lemma_decode_ops_len(data, 14, Codec::initial(), n);
    lemma_header_bytes_ok(data);
    lemma_feed_header(start, data, 0, stop);
    lemma_feed_split(start, data, 0, stop, end);
    let head = start.feed_range(data, 0, stop);
    let body = head.model.feed_range(data, stop, end);
    assert(Seq::<Pixel>::empty() + body.pixels =~= body.pixels);
    if n == 0 {
        lemma_finished_absorbs(head.model, data, stop, end);
    } else {
        lemma_feed_ops(head.model, data, 14, n);
    }
}

/// The streaming decoder hands the pixels out as their opcodes arrive: fed
/// the first `k` bytes of a well-formed image only, it has handed out the
/// first pixels of the image, in order.
pub proof fn lemma_stream_prefix(data: Seq<u8>, k: int)
    requires
        well_formed_image(data),
        0 <= k <= data.len(),
    ensures
        ({
            let fed = StreamModel::initial().feed_range(data, 0, k);
            let all = decode_image(data).pixels;
            &&& fed.accepted
            &&& fed.pixels.len() <= all.len()
            &&& fed.pixels == all.subrange(0, fed.pixels.len() as int)
        }),
{
    let start = StreamModel::initial();
    lemma_stream_agrees_with_chunked(data);
    lemma_feed_split(start, data, 0, k, data.len() as int);
    let first = start.feed_range(data, 0, k);
    let second = first.model.feed_range(data, k, data.len() as int);
    assert((first.pixels + second.pixels).subrange(0, first.pixels.len() as int)
        =~= first.pixels);
}

/// Fed an image with a valid header, the streaming decoder takes every byte,
/// and the pixels that decoding the image at once gives are the first it
/// hands out. Where the opcodes are not exact, it may hand out more: a run
/// that passes the last pixel is handed out whole, and then the decoder goes
/// on reading opcodes.
pub proof fn lemma_chunked_is_prefix_of_stream(data: Seq<u8>)
    requires
        has_header(data),
    ensures
        StreamModel::initial().feed_all(data).accepted,
        decode_image(data).pixels.is_prefix_of(StreamModel::initial().feed_all(data).pixels),
{
    let start = StreamModel::initial();
    let end = data.len() as int;
    let stop = header_stop(data);
    let n = image_header(data).pixel_count();
    lemma_dimensions(data);
    assert(n == width_in(data) * height_in(data));
    lemma_header_bytes_ok(data);
    lemma_feed_header(start, data, 0, stop);
    lemma_feed_split(start, data, 0, stop, end);
    let head = start.feed_range(data, 0, stop);
    let body = head.model.feed_range(data, stop, end);
    assert(Seq::<Pixel>::empty() + body.pixels =~= body.pixels);
    lemma_opcodes_never_refused(head.model, data, stop, end);
    if n == 0 {
        assert(decode_image(data).pixels =~= body.pixels.subrange(0, 0));
    } else {
        lemma_feed_any_ops(head.model, data, 14, n);
    }
}

/// Where the first bytes of `data` are not the magic letters, the streaming
/// decoder refuses the first byte that differs, not a later one: it takes
/// the bytes before it, and it takes none after it.
pub proof fn lemma_bad_magic_refused(data: Seq<u8>, k: int)
    requires
        0 <= k < 4,
        k < data.len(),
        forall|i: int| 0 <= i < k ==> data[i] == magic()[i],
        data[k] != magic()[k],
    ensures
        ({
            let before = StreamModel::initial().feed_range(data, 0, k);
            &&& before.accepted
            &&& before.pixels == Seq::<Pixel>::empty()
            &&& before.model.step(data[k]).1 is None
        }),
        !StreamModel::initial().feed_all(data).accepted,
        !has_header(data),
{
    reveal_with_fuel(StreamModel::feed_range, 5);
    let start = StreamModel::initial();
    lemma_feed_split(start, data, 0, k, data.len() as int);
    let before = start.feed_range(data, 0, k);
    assert(before.pixels =~= Seq::<Pixel>::empty());
    if data.len() >= 14 {
        assert(data.subrange(0, 14).subrange(0, 4)[k] == data[k]);
    }
}

/// Fed an image of at least one pixel whose magic letters are right and
/// whose channel byte or colorspace byte is not one the format allows, the
/// streaming decoder refuses that byte: it takes the bytes before it and
/// none after it. (Of an image without pixels the decoder is finished before
/// it comes to these bytes.)
pub proof fn lemma_bad_header_refused(data: Seq<u8>, k: int)
    requires
        data.len() >= 14,
        width_in(data) != 0,
        height_in(data) != 0,
        k == 12 || k == 13,
        forall|j: int| 0 <= j < k ==> header_byte_ok(data, j),
        !header_byte_ok(data, k),
    ensures
        ({
            let before = StreamModel::initial().feed_range(data, 0, k);
            &&& before.accepted
            &&& before.pixels == Seq::<Pixel>::empty()
            &&& before.model.step(data[k]).1 is None
        }),
        !StreamModel::initial().feed_all(data).accepted,
        !has_header(data),
{
    let start = StreamModel::initial();
    lemma_header_bytes_ok(data);
    lemma_feed_header(start, data, 0, k);
    let before = start.feed_range(data, 0, k);
    lemma_header_step(before.model, data, k);
    lemma_feed_split(start, data, 0, k, data.len() as int);
}

} // verus!
