//! The chunked decoder: a complete byte buffer in, a header and all pixels
//! out. The module also holds the state both decoders share, the last pixel
//! and the 64-slot cache, and says in one recursive function what an opcode
//! stream decodes to.
use crate::error::Error;
use crate::header::{header_fault, header_of, header_valid, Header};
use crate::ops::{
    apply_diff, apply_luma, classify, diff_pixel, kind_of, luma_pixel, op_count, op_len, op_length,
    run_length, OpKind,
};
use crate::pixel::{lemma_wrapping_add, Pixel};
use vstd::prelude::*;

verus! {

/// What a decoder remembers between opcodes: the pixel it produced last and
/// the cache of pixels seen before.
pub struct Codec {
    pub last: Pixel,
    pub cache: Seq<Pixel>,
}

impl Codec {
    /// The state every decode starts from: opaque black, and a cache of
    /// transparent black in all 64 slots.
    pub open spec fn initial() -> Codec {
        Codec { last: Pixel::start(), cache: Seq::new(64, |i: int| Pixel::zero()) }
    }

    /// Whether the cache has its 64 slots.
    pub open spec fn wf(self) -> bool {
        self.cache.len() == 64
    }

    /// The state after pixel `p` was produced by anything but a run: `p` is
    /// the last pixel and sits in its slot of the cache, whatever was there.
    pub open spec fn produce(self, p: Pixel) -> Codec {
        Codec { last: p, cache: self.cache.update(p.slot(), p) }
    }

    /// The pixel that the opcode `op`, given whole, makes in this state.
    pub open spec fn pixel_of(self, op: Seq<u8>) -> Pixel
        recommends
            self.wf(),
            op.len() > 0,
            op.len() == op_len(op[0]),
    {
        match kind_of(op[0]) {
            OpKind::Rgb => Pixel { r: op[1], g: op[2], b: op[3], a: self.last.a },
            OpKind::Rgba => Pixel { r: op[1], g: op[2], b: op[3], a: op[4] },
            OpKind::Index => self.cache[op[0] as int],
            OpKind::Diff => diff_pixel(self.last, op[0]),
            OpKind::Luma => luma_pixel(self.last, op[0], op[1]),
            OpKind::Run => self.last,
        }
    }

    /// The state after the opcode `op`. A run repeats the last pixel and
    /// leaves the state as it is; every other opcode produces its pixel.
    pub open spec fn apply(self, op: Seq<u8>) -> Codec
        recommends
            self.wf(),
            op.len() > 0,
            op.len() == op_len(op[0]),
    {
        if kind_of(op[0]) is Run {
            self
        } else {
            self.produce(self.pixel_of(op))
        }
    }
}

/// After any opcode but a run, the last pixel sits in its own slot of the
/// cache; a run leaves last pixel and cache as they are.
pub proof fn lemma_cache_holds_last(codec: Codec, op: Seq<u8>)
    requires
        codec.wf(),
        op.len() > 0,
    ensures
        codec.apply(op).wf(),
        kind_of(op[0]) is Run ==> codec.apply(op) == codec,
        !(kind_of(op[0]) is Run) ==> {
            let next = codec.apply(op);
            &&& next.last == codec.pixel_of(op)
            &&& next.cache[next.last.slot()] == next.last
            &&& forall|i: int|
                0 <= i < 64 && i != next.last.slot() ==> next.cache[i] == codec.cache[i]
        },
{
}

/// What decoding an opcode stream came to.
pub struct Decoded {
    /// The pixels decoded, in order.
    pub pixels: Seq<Pixel>,
    /// The decoder state after the last opcode that was read whole.
    pub codec: Codec,
    /// Whether every pixel asked for was decoded before the input ended.
    pub complete: bool,
}

/// Decodes `n` pixels from the opcodes that start at `data[pos]`, in state
/// `codec`.
///
/// Each opcode is read whole or not at all: where the input ends before an
/// opcode does, decoding stops there and is not complete. A run that would
/// pass the `n`-th pixel is cut at it. Bytes after the last opcode needed are
/// not looked at.
pub open spec fn decode_ops(data: Seq<u8>, pos: int, codec: Codec, n: nat) -> Decoded
    decreases n,
{
    if n == 0 {
        Decoded { pixels: Seq::empty(), codec, complete: true }
    } else if pos < 0 || pos >= data.len() || pos + op_len(data[pos]) > data.len() {
        Decoded { pixels: Seq::empty(), codec, complete: false }
    } else {
        let len = op_len(data[pos]);
        let next = codec.apply(data.subrange(pos, pos + len));
        let count = if op_count(data[pos]) < n {
            op_count(data[pos]) as nat
        } else {
            n
        };
        let rest = decode_ops(data, pos + len, next, (n - count) as nat);
        Decoded {
            pixels: Seq::new(count, |i: int| next.last) + rest.pixels,
            codec: rest.codec,
            complete: rest.complete,
        }
    }
}

/// Whether `data` starts with a valid header.
pub open spec fn has_header(data: Seq<u8>) -> bool {
    data.len() >= 14 && header_valid(data.subrange(0, 14))
}

/// The header `data` starts with.
pub open spec fn image_header(data: Seq<u8>) -> Header
    recommends
        has_header(data),
{
    header_of(data.subrange(0, 14))
}

/// What the opcodes after the header of `data` decode to: as many pixels as
/// the header's width times its height, from the initial state.
pub open spec fn decode_image(data: Seq<u8>) -> Decoded
    recommends
        has_header(data),
{
    decode_ops(data, 14, Codec::initial(), image_header(data).pixel_count())
}

/// Whether the opcodes that start at `data[pos]` make exactly `n` pixels:
/// each opcode is there whole, and no run passes the `n`-th pixel.
pub open spec fn exact_ops(data: Seq<u8>, pos: int, n: nat) -> bool
    decreases n,
{
    n == 0 || {
        &&& 0 <= pos < data.len()
        &&& pos + op_len(data[pos]) <= data.len()
        &&& op_count(data[pos]) <= n
        &&& exact_ops(data, pos + op_len(data[pos]), (n - op_count(data[pos])) as nat)
    }
}

/// Whether `data` is an image as an encoder writes it: a valid header, then
/// opcodes that make exactly as many pixels as the header asks for. What
/// follows the last opcode is free.
pub open spec fn well_formed_image(data: Seq<u8>) -> bool {
    has_header(data) && exact_ops(data, 14, image_header(data).pixel_count())
}

/// Opcodes that make exactly `n` pixels decode completely.
pub proof fn lemma_exact_ops_complete(data: Seq<u8>, pos: int, codec: Codec, n: nat)
    requires
        exact_ops(data, pos, n),
    ensures
        decode_ops(data, pos, codec, n).complete,
    decreases n,
{
    if n > 0 {
        let len = op_len(data[pos]);
        let next = codec.apply(data.subrange(pos, pos + len));
        lemma_exact_ops_complete(data, pos + len, next, (n - op_count(data[pos])) as nat);
    }
}

/// Opcodes that make exactly `n` pixels still do when bytes are appended to
/// the input.
pub proof fn lemma_exact_ops_extend(data: Seq<u8>, extra: Seq<u8>, pos: int, n: nat)
    requires
        exact_ops(data, pos, n),
    ensures
        exact_ops(data + extra, pos, n),
    decreases n,
{
    if n > 0 {
        assert((data + extra)[pos] == data[pos]);
        lemma_exact_ops_extend(
            data,
            extra,
            pos + op_len(data[pos]),
            (n - op_count(data[pos])) as nat,
        );
    }
}

/// A decode that is complete comes to the same when bytes are appended to
/// the input: what follows the last opcode needed is not looked at.
pub proof fn lemma_decode_ops_extend(
    data: Seq<u8>,
    extra: Seq<u8>,
    pos: int,
    codec: Codec,
    n: nat,
)
    requires
        decode_ops(data, pos, codec, n).complete,
    ensures
        decode_ops(data + extra, pos, codec, n) == decode_ops(data, pos, codec, n),
    decreases n,
{
    if n > 0 {
        let longer = data + extra;
        let len = op_len(data[pos]);
        assert(longer[pos] == data[pos]);
        assert(longer.subrange(pos, pos + len) =~= data.subrange(pos, pos + len));
        let next = codec.apply(data.subrange(pos, pos + len));
        let count = if op_count(data[pos]) < n {
            op_count(data[pos]) as nat
        } else {
            n
        };
        lemma_decode_ops_extend(data, extra, pos + len, next, (n - count) as nat);
    }
}

/// What follows the last opcode of an image changes nothing: with any bytes
/// appended, an image that decodes completely has the same header and
/// decodes to the same pixels and the same decoder state, and a well-formed
/// image is still well formed.
pub proof fn lemma_trailing_bytes(data: Seq<u8>, extra: Seq<u8>)
    requires
        has_header(data),
        decode_image(data).complete,
    ensures
        has_header(data + extra),
        image_header(data + extra) == image_header(data),
        decode_image(data + extra) == decode_image(data),
        well_formed_image(data) ==> well_formed_image(data + extra),
{
    let longer = data + extra;
    let n = image_header(data).pixel_count();
    assert(longer.subrange(0, 14) =~= data.subrange(0, 14));
    lemma_decode_ops_extend(data, extra, 14, Codec::initial(), n);
    if well_formed_image(data) {
        lemma_exact_ops_extend(data, extra, 14, n);
    }
}

/// A complete decode yields exactly the pixels asked for.
pub proof fn lemma_decode_ops_len(data: Seq<u8>, pos: int, codec: Codec, n: nat)
    ensures
        decode_ops(data, pos, codec, n).pixels.len() <= n,
        decode_ops(data, pos, codec, n).complete ==> decode_ops(data, pos, codec, n).pixels.len()
            == n,
    decreases n,
{
    if n == 0 {
    } else if pos < 0 || pos >= data.len() || pos + op_len(data[pos]) > data.len() {
    } else {
        let len = op_len(data[pos]);
        let next = codec.apply(data.subrange(pos, pos + len));
        let count = if op_count(data[pos]) < n {
            op_count(data[pos]) as nat
        } else {
            n
        };
        lemma_decode_ops_len(data, pos + len, next, (n - count) as nat);
    }
}

/// A decoder for complete images.
///
/// It holds the state of a decode, the last pixel produced and the cache, and
/// starts every [`Decoder::decode`] by resetting it, so one decoder serves
/// any number of images.
pub struct Decoder {
    state: Pixel,
    buffer: [Pixel; 64],
}

impl View for Decoder {
    type V = Codec;

    closed spec fn view(&self) -> Codec {
        Codec { last: self.state, cache: self.buffer@ }
    }
}

/// A cache with transparent black in all 64 slots.
///
/// Each slot is written in turn. Of an array made by repeating one value the
/// verifier knows nothing where the call comes from the impl of a std trait,
/// as this one does from `Default`.
pub(crate) fn blank_cache() -> (cache: [Pixel; 64])
    ensures
        cache@ == Codec::initial().cache,
{
    let zero = Pixel::default();
    let mut cache: [Pixel; 64] = [zero; 64];
    let mut i: usize = 0;
    while i < 64
        invariant
            i <= 64,
            zero == Pixel::zero(),
            forall|j: int| 0 <= j < i ==> cache@[j] == zero,
        decreases 64 - i,
    {
        cache[i] = zero;
        i += 1;
    }
    assert(cache@ =~= Codec::initial().cache);
    cache
}

impl Default for Decoder {
    fn default() -> (d: Decoder)
        ensures
            d@ == Codec::initial(),
    {
        Self::new()
    }
}

impl Decoder {
    /// Creates a new decoder in the initial state.
    pub fn new() -> (d: Decoder)
        ensures
            d@ == Codec::initial(),
    {
        Decoder { state: Pixel::new(0, 0, 0, 255), buffer: blank_cache() }
    }

    /// Puts the decoder back into the initial state.
    pub fn reset(&mut self)
        ensures
            final(self)@ == Codec::initial(),
    {
        self.state = Pixel::new(0, 0, 0, 255);
        self.buffer = blank_cache();
    }

    /// Hashes a pixel with 8-bit wrapping arithmetic throughout.
    pub fn hash_pixel(p: Pixel) -> (h: u8)
        ensures
            h as int == p.hash(),
    {
        let r3: u8 = p.r.wrapping_mul(3);
        let g5: u8 = p.g.wrapping_mul(5);
        let b7: u8 = p.b.wrapping_mul(7);
        let a11: u8 = p.a.wrapping_mul(11);
        let s1: u8 = r3.wrapping_add(g5);
        let s2: u8 = s1.wrapping_add(b7);
        let h: u8 = s2.wrapping_add(a11);
        proof {
            lemma_wrapping_add(r3, g5, p.r * 3, p.g * 5);
            lemma_wrapping_add(s1, b7, p.r * 3 + p.g * 5, p.b * 7);
            lemma_wrapping_add(s2, a11, p.r * 3 + p.g * 5 + p.b * 7, p.a * 11);
        }
        h
    }

    /// Makes `p` the last pixel and puts it in its slot of the cache.
    fn produce(&mut self, p: Pixel)
        ensures
            final(self)@ == old(self)@.produce(p),
    {
        let hash = Decoder::hash_pixel(p);
        self.state = p;
        self.buffer[(hash % 64) as usize] = p;
    }

    /// Decodes a complete image: the fourteen header bytes, then opcodes
    /// until the header's width times height pixels are there.
    ///
    /// The decoder is reset first, so what comes out depends on `data`
    /// alone. Bytes after the last opcode needed are not looked at. Where the
    /// input ends early, inside the header or before the last pixel, the
    /// error is an `IoError`; where the fourteen header bytes are there and
    /// are no valid header, it is a `HeaderParseError`. No pixels are
    /// returned on failure.
    pub fn decode(&mut self, data: &[u8]) -> (res: Result<(Header, Vec<Pixel>), Error>)
        ensures
            res is Ok <==> has_header(data@) && decode_image(data@).complete,
            res matches Ok((header, img)) ==> {
                &&& header == image_header(data@)
                &&& img@ == decode_image(data@).pixels
                &&& img@.len() == header.width * header.height
            },
            res matches Err(e) ==> (if data@.len() < 14 {
                e is IoError && e.text() == "Input ended inside the header"@
            } else if has_header(data@) {
                e is IoError && e.text() == "Input ended before the last pixel"@
            } else {
                e is HeaderParseError && e.text() == header_fault(data@.subrange(0, 14))
            }),
            final(self)@ == (if has_header(data@) {
                decode_image(data@).codec
            } else {
                Codec::initial()
            }),
    {
        self.reset();
        if data.len() < 14 {
            return Err(Error::IoError("Input ended inside the header".to_owned()));
        }
        let mut buf = [0u8; 14];
        let mut i: usize = 0;
        while i < 14
            invariant
                i <= 14,
                data@.len() >= 14,
                forall|j: int| 0 <= j < i ==> buf@[j] == data@[j],
            decreases 14 - i,
        {
            buf[i] = data[i];
            i += 1;
        }
        assert(buf@ =~= data@.subrange(0, 14));
        let header = match Header::from_bytes(&buf) {
            Ok(h) => h,
            Err(e) => {
                return Err(e);
            },
        };
        assert(header.width * header.height <= u64::MAX) by (nonlinear_arith)
            requires
                header.width <= u32::MAX,
                header.height <= u32::MAX,
        ;
        let num_pixels: u64 = header.width as u64 * header.height as u64;
        let mut img: Vec<Pixel> = Vec::new();
        let mut done: u64 = 0;
        let mut pos: usize = 14;
        let ghost all = decode_image(data@);
        while done < num_pixels
            invariant
                14 <= pos <= data@.len(),
                done <= num_pixels,
                img@.len() == done,
                self@.wf(),
                has_header(data@),
                all == decode_image(data@),
                all == decode_ops(data@, 14, Codec::initial(), num_pixels as nat),
                ({
                    let rest = decode_ops(data@, pos as int, self@, (num_pixels - done) as nat);
                    &&& all.complete == rest.complete
                    &&& all.codec == rest.codec
                    &&& all.pixels == img@ + rest.pixels
                }),
            decreases num_pixels - done,
        {
            let ghost before = self@;
            let ghost had = img@;
            if pos >= data.len() {
                return Err(Error::IoError("Input ended before the last pixel".to_owned()));
            }
            let tag = data[pos];
            let len = op_length(tag);
            if data.len() - pos < len {
                return Err(Error::IoError("Input ended before the last pixel".to_owned()));
            }
            let ghost op = data@.subrange(pos as int, pos + len);
            let mut count: u8 = 1;
            match classify(tag) {
                OpKind::Rgb => {
                    let p = Pixel::new(data[pos + 1], data[pos + 2], data[pos + 3], self.state.a);
                    self.produce(p);
                },
                OpKind::Rgba => {
                    let p = Pixel::new(
                        data[pos + 1],
                        data[pos + 2],
                        data[pos + 3],
                        data[pos + 4],
                    );
                    self.produce(p);
                },
                OpKind::Index => {
                    let p = self.buffer[tag as usize];
                    self.produce(p);
                },
                OpKind::Diff => {
                    let p = apply_diff(self.state, tag);
                    self.produce(p);
                },
                OpKind::Luma => {
                    let p = apply_luma(self.state, tag, data[pos + 1]);
                    self.produce(p);
                },
                OpKind::Run => {
                    count = run_length(tag);
                },
            }
            assert(self@ == before.apply(op));
            let left: u64 = num_pixels - done;
            let emit: u64 = if (count as u64) < left {
                count as u64
            } else {
                left
            };
            let mut k: u64 = 0;
            while k < emit
                invariant
                    k <= emit,
                    img@ == had + Seq::new(k as nat, |i: int| self.state),
                decreases emit - k,
            {
                img.push(self.state);
                k += 1;
            }
            proof {
                let rest = decode_ops(data@, pos + len, self@, (left - emit) as nat);
                let here = decode_ops(data@, pos as int, before, left as nat);
                assert(here.pixels == Seq::new(emit as nat, |i: int| self@.last) + rest.pixels);
                assert(img@ + rest.pixels =~= had + here.pixels);
            }
            done += emit;
            pos += len;
        }
        proof {
            lemma_decode_ops_len(data@, 14, Codec::initial(), num_pixels as nat);
        }
        Ok((header, img))
    }
}

} // verus!
