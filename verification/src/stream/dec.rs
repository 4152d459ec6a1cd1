//! The streaming decoder, a state machine that takes one byte at a time.
//!
//! [`StreamModel`] is the machine as a mathematical value and
//! [`StreamModel::step`] its transition function; [`StreamDecoder::feed`]
//! is proved to make exactly that step.
use crate::dec::{blank_cache, Codec, Decoder};
use crate::error::Error;
use crate::header::{be_u32, magic, Channels, Colorspace};
use crate::ops::{
    apply_diff, apply_luma, classify, diff_pixel, kind_of, luma_pixel, run_length, OpKind,
};
use crate::pixel::Pixel;
use vstd::prelude::*;

verus! {

/// A run of equal pixels, handed out one at a time: `count` more copies of
/// `pixel` are to come.
#[derive(Copy, Clone, Debug, PartialEq, Eq, Structural)]
pub struct PixelsIter {
    /// How many pixels are still to come.
    pub count: u8,
    /// The pixel that each of them is.
    pub pixel: Pixel,
}

impl View for PixelsIter {
    type V = Seq<Pixel>;

    /// The pixels still to come.
    open spec fn view(&self) -> Seq<Pixel> {
        Seq::new(self.count as nat, |i: int| self.pixel)
    }
}

impl PixelsIter {
    /// A run of `count` copies of `pixel`.
    pub fn new(count: u8, pixel: Pixel) -> (it: PixelsIter)
        ensures
            it == (PixelsIter { count, pixel }),
    {
        PixelsIter { count, pixel }
    }

    /// Hands out the next pixel, or `None` when the run is over.
    pub fn next(&mut self) -> (res: Option<Pixel>)
        ensures
            old(self).count == 0 ==> res is None && *final(self) == *old(self),
            old(self).count > 0 ==> res == Some(old(self).pixel) && *final(self) == (PixelsIter {
                count: (old(self).count - 1) as u8,
                pixel: old(self).pixel,
            }),
            res matches Some(p) ==> old(self)@ == seq![p] + final(self)@,
    {
        if self.count > 0 {
            self.count -= 1;
            assert(old(self)@ =~= seq![self.pixel] + self@);
            Some(self.pixel)
        } else {
            None
        }
    }

    /// The number of pixels still to come, as a lower and an upper bound.
    pub fn size_hint(&self) -> (res: (usize, Option<usize>))
        ensures
            res.0 == self.count,
            res.1 == Some(self.count as usize),
    {
        let c = self.count as usize;
        (c, Some(c))
    }
}

/// What one byte completed.
#[derive(Copy, Clone, Debug, PartialEq, Eq, Structural)]
pub enum StreamDecoderOutput {
    /// All pixels of the image have been handed out.
    Finished,
    /// The byte was taken; this many more complete what is being read. A
    /// hint only.
    NeedMore(u8),
    /// The byte completed an opcode, which yields these pixels.
    Pixels(PixelsIter),
    /// The byte completed the header's width.
    ImageWidthParsed(u32),
    /// The byte completed the header's height.
    ImageHeightParsed(u32),
    /// The byte was the header's channel byte.
    ImageChannelParsed(Channels),
    /// The byte was the header's colorspace byte, the last of the header.
    ImageColorspaceParsed(Colorspace),
}

impl StreamDecoderOutput {
    /// The pixels that come with this event: those of `Pixels`, none with
    /// any other.
    pub open spec fn pixels(self) -> Seq<Pixel> {
        match self {
            StreamDecoderOutput::Pixels(it) => it@,
            _ => Seq::empty(),
        }
    }

    /// The number of pixels that come with this event.
    pub open spec fn pixel_count(self) -> nat {
        match self {
            StreamDecoderOutput::Pixels(it) => it.count as nat,
            _ => 0,
        }
    }
}

/// Where in the byte stream a streaming decoder stands.
#[derive(Copy, Clone, Debug, PartialEq, Eq, Structural)]
pub enum StreamDecoderState {
    /// No byte has been fed.
    NotStarted,
    /// All pixels have been handed out.
    Finished,
    /// Inside the header; holds the number of header bytes taken so far.
    ParsingHeader(u8),
    /// Between opcodes: the next byte is a tag.
    Idle,
    /// Inside an opcode of more than one byte; holds its tag and the number
    /// of bytes taken after the tag.
    InProgress { opcode: u8, bytes_read: u8 },
}

/// A streaming decoder as a mathematical value.
pub struct StreamModel {
    /// Where in the byte stream the decoder stands.
    pub state: StreamDecoderState,
    /// The last pixel and the cache. Inside an RGB or RGBA opcode the last
    /// pixel already holds the channels that have arrived.
    pub codec: Codec,
    /// Four bytes of scratch space, in which the bytes of width and height
    /// wait for their last.
    pub scratch: Seq<u8>,
    /// The number of pixels the image has, once the header has told: the
    /// width after its last byte, width times height after the height's.
    pub target: Option<u64>,
    /// The number of pixels handed out so far. It stops at `u64::MAX`.
    pub produced: u64,
}

impl StreamModel {
    /// A decoder that no byte has been fed to.
    pub open spec fn initial() -> StreamModel {
        StreamModel {
            state: StreamDecoderState::NotStarted,
            codec: Codec::initial(),
            scratch: seq![0u8, 0u8, 0u8, 0u8],
            target: None,
            produced: 0,
        }
    }

    /// What holds of every decoder: the header counter and the byte count of
    /// an opcode in flight are in range, width is known while height is read,
    /// and the decoder is finished exactly when the pixels handed out are as
    /// many as the header asked for.
    pub open spec fn wf(self) -> bool {
        &&& self.codec.wf()
        &&& self.scratch.len() == 4
        &&& match self.state {
            StreamDecoderState::ParsingHeader(c) => {
                &&& c <= 13
                &&& 8 <= c <= 11 ==> self.target is Some && self.target->0 <= u32::MAX
            },
            StreamDecoderState::InProgress { opcode, bytes_read } => match kind_of(opcode) {
                OpKind::Rgb => bytes_read < 3,
                OpKind::Rgba => bytes_read < 4,
                OpKind::Luma => bytes_read == 0,
                _ => false,
            },
            _ => true,
        }
        &&& self.state is Finished <==> self.target == Some(self.produced)
    }

    /// Takes `byte` as the header byte at position `c`. `None` where the
    /// byte is not one the header may have there.
    pub open spec fn header_byte(self, c: u8, byte: u8) -> Option<
        (StreamModel, StreamDecoderOutput),
    > {
        if c <= 3 {
            if byte == magic()[c as int] {
                Some(
                    (
                        StreamModel {
                            state: StreamDecoderState::ParsingHeader((c + 1) as u8),
                            ..self
                        },
                        StreamDecoderOutput::NeedMore(
                            if c == 3 {
                                4
                            } else {
                                (3 - c) as u8
                            },
                        ),
                    ),
                )
            } else {
                None
            }
        } else if c == 7 || c == 11 {
            let v = be_u32(seq![self.scratch[0], self.scratch[1], self.scratch[2], byte]) as u32;
            if c == 7 {
                Some(
                    (
                        StreamModel {
                            state: StreamDecoderState::ParsingHeader(8),
                            target: Some(v as u64),
                            ..self
                        },
                        StreamDecoderOutput::ImageWidthParsed(v),
                    ),
                )
            } else {
                Some(
                    (
                        StreamModel {
                            state: StreamDecoderState::ParsingHeader(12),
                            target: Some((self.target->0 * v) as u64),
                            ..self
                        },
                        StreamDecoderOutput::ImageHeightParsed(v),
                    ),
                )
            }
        } else if c <= 11 {
            Some(
                (
                    StreamModel {
                        state: StreamDecoderState::ParsingHeader((c + 1) as u8),
                        scratch: self.scratch.update((c % 4) as int, byte),
                        ..self
                    },
                    StreamDecoderOutput::NeedMore(((11 - c) % 4) as u8),
                ),
            )
        } else if c == 12 {
            if byte == 3 || byte == 4 {
                Some(
                    (
                        StreamModel { state: StreamDecoderState::ParsingHeader(13), ..self },
                        StreamDecoderOutput::ImageChannelParsed(Channels::of_code(byte)),
                    ),
                )
            } else {
                None
            }
        } else if c == 13 {
            if byte == 0 || byte == 1 {
                Some(
                    (
                        StreamModel { state: StreamDecoderState::Idle, ..self },
                        StreamDecoderOutput::ImageColorspaceParsed(Colorspace::of_code(byte)),
                    ),
                )
            } else {
                None
            }
        } else {
            None
        }
    }

    /// What is wrong with `byte` as the header byte at position `c`, where
    /// it is refused.
    pub open spec fn header_byte_fault(c: u8) -> Seq<char> {
        if c == 0 {
            "Failed to parse header: idx=0"@
        } else if c == 1 {
            "Failed to parse header: idx=1"@
        } else if c == 2 {
            "Failed to parse header: idx=2"@
        } else if c == 3 {
            "Failed to parse header: idx=3"@
        } else if c == 12 {
            "Unknown value for channels"@
        } else {
            "Unknown value for colorspace"@
        }
    }

    /// What is wrong with a byte that the decoder refuses in the state it
    /// is in.
    pub open spec fn fault(self) -> Seq<char> {
        match self.state {
            StreamDecoderState::ParsingHeader(c) => Self::header_byte_fault(c),
            _ => Self::header_byte_fault(0),
        }
    }

    /// The decoder after it produced `p` by an opcode that is no run, and the
    /// event that hands `p` out.
    pub open spec fn yield_pixel(self, p: Pixel) -> (StreamModel, StreamDecoderOutput) {
        (
            StreamModel { state: StreamDecoderState::Idle, codec: self.codec.produce(p), ..self },
            StreamDecoderOutput::Pixels(PixelsIter { count: 1, pixel: p }),
        )
    }

    /// Takes `tag` as the first byte of an opcode.
    pub open spec fn op_first(self, tag: u8) -> (StreamModel, StreamDecoderOutput) {
        match kind_of(tag) {
            OpKind::Rgb => (
                StreamModel {
                    state: StreamDecoderState::InProgress { opcode: tag, bytes_read: 0 },
                    ..self
                },
                StreamDecoderOutput::NeedMore(3),
            ),
            OpKind::Rgba => (
                StreamModel {
                    state: StreamDecoderState::InProgress { opcode: tag, bytes_read: 0 },
                    ..self
                },
                StreamDecoderOutput::NeedMore(4),
            ),
            OpKind::Luma => (
                StreamModel {
                    state: StreamDecoderState::InProgress { opcode: tag, bytes_read: 0 },
                    ..self
                },
                StreamDecoderOutput::NeedMore(1),
            ),
            OpKind::Index => self.yield_pixel(self.codec.cache[tag as int]),
            OpKind::Diff => self.yield_pixel(diff_pixel(self.codec.last, tag)),
            OpKind::Run => (
                StreamModel { state: StreamDecoderState::Idle, ..self },
                StreamDecoderOutput::Pixels(
                    PixelsIter { count: (tag % 64 + 1) as u8, pixel: self.codec.last },
                ),
            ),
        }
    }

    /// The decoder with channel `i` of its last pixel set to `byte`, for the
    /// channels in the order red, green, blue, alpha.
    pub open spec fn with_channel(self, i: u8, byte: u8) -> StreamModel {
        let last = self.codec.last;
        let set = if i == 0 {
            Pixel { r: byte, ..last }
        } else if i == 1 {
            Pixel { g: byte, ..last }
        } else if i == 2 {
            Pixel { b: byte, ..last }
        } else {
            Pixel { a: byte, ..last }
        };
        StreamModel { codec: Codec { last: set, ..self.codec }, ..self }
    }

    /// Takes `byte` as the next byte of the opcode `opcode`, of which
    /// `bytes_read` bytes after the tag were taken before.
    pub open spec fn op_next(self, opcode: u8, bytes_read: u8, byte: u8) -> (
        StreamModel,
        StreamDecoderOutput,
    ) {
        if kind_of(opcode) is Luma {
            self.yield_pixel(luma_pixel(self.codec.last, opcode, byte))
        } else {
            let payload: u8 = if kind_of(opcode) is Rgb {
                3
            } else {
                4
            };
            let set = self.with_channel(bytes_read, byte);
            if bytes_read + 1 < payload {
                (
                    StreamModel {
                        state: StreamDecoderState::InProgress {
                            opcode,
                            bytes_read: (bytes_read + 1) as u8,
                        },
                        ..set
                    },
                    StreamDecoderOutput::NeedMore((payload - bytes_read - 1) as u8),
                )
            } else {
                set.yield_pixel(set.codec.last)
            }
        }
    }

    /// Takes `byte` in the state the decoder is in, before the pixels it
    /// yields are counted. `None` where the byte is refused.
    pub open spec fn advance(self, byte: u8) -> Option<(StreamModel, StreamDecoderOutput)> {
        match self.state {
            StreamDecoderState::NotStarted => self.header_byte(0, byte),
            StreamDecoderState::ParsingHeader(c) => self.header_byte(c, byte),
            StreamDecoderState::Idle => Some(self.op_first(byte)),
            StreamDecoderState::InProgress { opcode, bytes_read } => Some(
                self.op_next(opcode, bytes_read, byte),
            ),
            StreamDecoderState::Finished => Some((self, StreamDecoderOutput::Finished)),
        }
    }

    /// Counts `count` more pixels as handed out, and finishes the decoder if
    /// that makes them as many as the header asked for.
    pub open spec fn count_pixels(self, count: nat) -> StreamModel {
        let produced: u64 = if self.produced + count > u64::MAX {
            u64::MAX
        } else {
            (self.produced + count) as u64
        };
        StreamModel {
            state: if self.target == Some(produced) {
                StreamDecoderState::Finished
            } else {
                self.state
            },
            produced,
            ..self
        }
    }

    /// One step of the machine: the decoder after `byte` and the event the
    /// byte gives, or the decoder as it was and `None` where the byte is
    /// refused.
    pub open spec fn step(self, byte: u8) -> (StreamModel, Option<StreamDecoderOutput>) {
        match self.advance(byte) {
            Some((next, out)) => (next.count_pixels(out.pixel_count()), Some(out)),
            None => (self, None),
        }
    }
}

/// A streaming decoder.
///
/// It stores no pixels: each is handed out as soon as its opcode is complete,
/// and between two bytes the decoder keeps only the state of the decode.
/// After the last pixel, or after an error, `reset` makes it ready for
/// another image.
pub struct StreamDecoder {
    state: StreamDecoderState,
    last_pixel: Pixel,
    dec_buffer: [Pixel; 64],
    buffer: [u8; 4],
    num_pix: Option<u64>,
    cur_pix: u64,
}

impl View for StreamDecoder {
    type V = StreamModel;

    closed spec fn view(&self) -> StreamModel {
        StreamModel {
            state: self.state,
            codec: Codec { last: self.last_pixel, cache: self.dec_buffer@ },
            scratch: self.buffer@,
            target: self.num_pix,
            produced: self.cur_pix,
        }
    }
}

impl Default for StreamDecoder {
    fn default() -> (d: StreamDecoder)
        ensures
            d@ == StreamModel::initial(),
    {
        Self::new()
    }
}

impl StreamDecoder {
    #[verifier::type_invariant]
    spec fn inv(self) -> bool {
        self@.wf()
    }

    /// Creates a decoder that no byte has been fed to.
    pub fn new() -> (d: StreamDecoder)
        ensures
            d@ == StreamModel::initial(),
    {
        let d = StreamDecoder {
            state: StreamDecoderState::NotStarted,
            last_pixel: Pixel::new(0, 0, 0, 255),
            dec_buffer: blank_cache(),
            buffer: [0, 0, 0, 0],
            num_pix: None,
            cur_pix: 0,
        };
        assert(d.buffer@ =~= StreamModel::initial().scratch);
        d
    }

    /// Puts the decoder back into the state of a new one. It must be called
    /// before another image is fed, after the last pixel of one or after an
    /// error.
    pub fn reset(&mut self)
        ensures
            final(self)@ == StreamModel::initial(),
    {
        let fresh = StreamDecoder::new();
        *self = fresh;
    }

    /// Takes the header byte at position `c`. Returns the state to go to,
    /// the pixel target as it is after the byte, and the event.
    fn feed_header(&mut self, c: u8, byte: u8) -> (res: Result<
        (StreamDecoderState, Option<u64>, StreamDecoderOutput),
        Error,
    >)
        requires
            c <= 13,
            8 <= c <= 11 ==> old(self)@.target is Some && old(self)@.target->0 <= u32::MAX,
        ensures
            final(self)@ == (StreamModel { scratch: final(self)@.scratch, ..old(self)@ }),
            match res {
                Ok((state, target, out)) => old(self)@.header_byte(c, byte) == Some(
                    (StreamModel { state, target, ..final(self)@ }, out),
                ),
                Err(e) => {
                    &&& old(self)@.header_byte(c, byte) is None
                    &&& e is HeaderParseError
                    &&& e.text() == StreamModel::header_byte_fault(c)
                    &&& final(self)@ == old(self)@
                },
            },
    {
        proof {
            use_type_invariant(&*self);
        }
        if c <= 3 {
            let expected: u8 = if c == 0 {
                0x71
            } else if c == 1 {
                0x6f
            } else if c == 2 {
                0x69
            } else {
                0x66
            };
            if byte != expected {
                let text = if c == 0 {
                    "Failed to parse header: idx=0"
                } else if c == 1 {
                    "Failed to parse header: idx=1"
                } else if c == 2 {
                    "Failed to parse header: idx=2"
                } else {
                    "Failed to parse header: idx=3"
                };
                return Err(Error::HeaderParseError(text.to_owned()));
            }
            let more: u8 = if c == 3 {
                4
            } else {
                3 - c
            };
            Ok((StreamDecoderState::ParsingHeader(c + 1), self.num_pix, StreamDecoderOutput::NeedMore(more)))
        } else if c == 7 || c == 11 {
            let b0 = self.buffer[0] as u32;
            let b1 = self.buffer[1] as u32;
            let b2 = self.buffer[2] as u32;
            let b3 = byte as u32;
            let v: u32 = b0 << 24 | b1 << 16 | b2 << 8 | b3;
            assert(v == b0 * 0x100_0000 + b1 * 0x1_0000 + b2 * 0x100 + b3) by (bit_vector)
                requires
                    v == b0 << 24 | b1 << 16 | b2 << 8 | b3,
                    b0 < 256,
                    b1 < 256,
                    b2 < 256,
                    b3 < 256,
            ;
            if c == 7 {
                Ok((StreamDecoderState::ParsingHeader(8), Some(v as u64), StreamDecoderOutput::ImageWidthParsed(v)))
            } else {
                let width = match self.num_pix {
                    Some(w) => w,
                    None => 0,
                };
                assert(width * v <= u64::MAX) by (nonlinear_arith)
                    requires
                        width <= u32::MAX,
                        v <= u32::MAX,
                ;
                Ok((StreamDecoderState::ParsingHeader(12), Some(width * (v as u64)), StreamDecoderOutput::ImageHeightParsed(v)))
            }
        } else if c <= 11 {
            self.buffer[(c % 4) as usize] = byte;
            Ok((StreamDecoderState::ParsingHeader(c + 1), self.num_pix, StreamDecoderOutput::NeedMore((11 - c) % 4)))
        } else if c == 12 {
            match Channels::try_from(byte) {
                Ok(ch) => Ok((StreamDecoderState::ParsingHeader(13), self.num_pix, StreamDecoderOutput::ImageChannelParsed(ch))),
                Err(e) => Err(e),
            }
        } else {
            match Colorspace::try_from(byte) {
                Ok(cs) => Ok((StreamDecoderState::Idle, self.num_pix, StreamDecoderOutput::ImageColorspaceParsed(cs))),
                Err(e) => Err(e),
            }
        }
    }

    /// Makes `p` the last pixel, puts it in its slot of the cache, and
    /// returns the event that hands it out.
    fn yield_pixel(&mut self, p: Pixel) -> (out: StreamDecoderOutput)
        ensures
            old(self)@.yield_pixel(p) == (
                StreamModel { state: StreamDecoderState::Idle, ..final(self)@ },
                out,
            ),
            final(self)@ == (StreamModel { codec: final(self)@.codec, ..old(self)@ }),
    {
        proof {
            use_type_invariant(&*self);
        }
        let hash = Decoder::hash_pixel(p);
        self.last_pixel = p;
        self.dec_buffer[(hash % 64) as usize] = p;
        StreamDecoderOutput::Pixels(PixelsIter::new(1, p))
    }

    /// Takes the first byte of an opcode. Returns the state to go to and the
    /// event.
    fn feed_op_first(&mut self, tag: u8) -> (res: (StreamDecoderState, StreamDecoderOutput))
        ensures
            old(self)@.op_first(tag) == (StreamModel { state: res.0, ..final(self)@ }, res.1),
            final(self)@ == (StreamModel { codec: final(self)@.codec, ..old(self)@ }),
    {
        proof {
            use_type_invariant(&*self);
        }
        match classify(tag) {
            OpKind::Rgb => (
                StreamDecoderState::InProgress { opcode: tag, bytes_read: 0 },
                StreamDecoderOutput::NeedMore(3),
            ),
            OpKind::Rgba => (
                StreamDecoderState::InProgress { opcode: tag, bytes_read: 0 },
                StreamDecoderOutput::NeedMore(4),
            ),
            OpKind::Luma => (
                StreamDecoderState::InProgress { opcode: tag, bytes_read: 0 },
                StreamDecoderOutput::NeedMore(1),
            ),
            OpKind::Index => {
                let p = self.dec_buffer[tag as usize];
                (StreamDecoderState::Idle, self.yield_pixel(p))
            },
            OpKind::Diff => {
                let p = apply_diff(self.last_pixel, tag);
                (StreamDecoderState::Idle, self.yield_pixel(p))
            },
            OpKind::Run => {
                let run = run_length(tag);
                (
                    StreamDecoderState::Idle,
                    StreamDecoderOutput::Pixels(PixelsIter::new(run, self.last_pixel)),
                )
            },
        }
    }

    /// Takes a byte of the opcode in flight, after its tag. Returns the state
    /// to go to and the event.
    fn feed_op_next(&mut self, opcode: u8, bytes_read: u8, byte: u8) -> (res: (
        StreamDecoderState,
        StreamDecoderOutput,
    ))
        requires
            match kind_of(opcode) {
                OpKind::Rgb => bytes_read < 3,
                OpKind::Rgba => bytes_read < 4,
                OpKind::Luma => bytes_read == 0,
                _ => false,
            },
        ensures
            old(self)@.op_next(opcode, bytes_read, byte) == (
                StreamModel { state: res.0, ..final(self)@ },
                res.1,
            ),
            final(self)@ == (StreamModel { codec: final(self)@.codec, ..old(self)@ }),
    {
        proof {
            use_type_invariant(&*self);
        }
        match classify(opcode) {
            OpKind::Luma => {
                let p = apply_luma(self.last_pixel, opcode, byte);
                (StreamDecoderState::Idle, self.yield_pixel(p))
            },
            kind => {
                let payload: u8 = match kind {
                    OpKind::Rgb => 3,
                    _ => 4,
                };
                if bytes_read == 0 {
                    self.last_pixel.r = byte;
                } else if bytes_read == 1 {
                    self.last_pixel.g = byte;
                } else if bytes_read == 2 {
                    self.last_pixel.b = byte;
                } else {
                    self.last_pixel.a = byte;
                }
                if bytes_read + 1 < payload {
                    (
                        StreamDecoderState::InProgress { opcode, bytes_read: bytes_read + 1 },
                        StreamDecoderOutput::NeedMore(payload - bytes_read - 1),
                    )
                } else {
                    let p = self.last_pixel;
                    (StreamDecoderState::Idle, self.yield_pixel(p))
                }
            },
        }
    }

    /// Feeds the decoder the next byte of an image and says what the byte
    /// completed.
    ///
    /// The bytes are to come in order, from the first byte of the header on,
    /// each exactly once. A byte that the header may not have where it
    /// stands is refused with a `HeaderParseError`, and the decoder stays as
    /// it was. Every other byte makes one step of the machine. Once the
    /// pixels handed out are as many as the header asked for, the decoder is
    /// finished and answers `Finished` to every further byte.
    pub fn feed(&mut self, byte: u8) -> (res: Result<StreamDecoderOutput, Error>)
        ensures
            old(self)@.wf(),
            final(self)@.wf(),
            final(self)@ == old(self)@.step(byte).0,
            match res {
                Ok(out) => old(self)@.step(byte).1 == Some(out),
                Err(e) => {
                    &&& old(self)@.step(byte).1 is None
                    &&& e is HeaderParseError
                    &&& e.text() == old(self)@.fault()
                },
            },
    {
        proof {
            use_type_invariant(&*self);
            lemma_step_wf(self@, byte);
        }
        let (next, target, out) = match self.state {
            StreamDecoderState::Finished => {
                return Ok(StreamDecoderOutput::Finished);
            },
            StreamDecoderState::NotStarted => {
                match self.feed_header(0, byte) {
                    Ok(taken) => taken,
                    Err(e) => {
                        return Err(e);
                    },
                }
            },
            StreamDecoderState::ParsingHeader(c) => {
                match self.feed_header(c, byte) {
                    Ok(taken) => taken,
                    Err(e) => {
                        return Err(e);
                    },
                }
            },
            StreamDecoderState::Idle => {
                let (next, out) = self.feed_op_first(byte);
                (next, self.num_pix, out)
            },
            StreamDecoderState::InProgress { opcode, bytes_read } => {
                let (next, out) = self.feed_op_next(opcode, bytes_read, byte);
                (next, self.num_pix, out)
            },
        };
        let count: u8 = match out {
            StreamDecoderOutput::Pixels(it) => it.count,
            _ => 0,
        };
        let cur_pix = self.cur_pix.saturating_add(count as u64);
        let state = match target {
            Some(n) if n == cur_pix => StreamDecoderState::Finished,
            _ => next,
        };
        *self = StreamDecoder { state, num_pix: target, cur_pix, ..*self };
        Ok(out)
    }
}

/// What feeding a decoder a sequence of bytes came to.
pub struct Fed {
    /// The decoder after the last byte it took.
    pub model: StreamModel,
    /// The pixels handed out, in order.
    pub pixels: Seq<Pixel>,
    /// Whether every byte was taken. Feeding stops at the first byte that is
    /// refused.
    pub accepted: bool,
}

impl StreamModel {
    /// Feeds the decoder the bytes `data[from]` to `data[to - 1]`, one step
    /// each, and collects the pixels of every event.
    pub open spec fn feed_range(self, data: Seq<u8>, from: int, to: int) -> Fed
        recommends
            0 <= from <= to <= data.len(),
        decreases to - from,
    {
        if from < 0 || from >= to || to > data.len() {
            Fed { model: self, pixels: Seq::empty(), accepted: true }
        } else {
            match self.step(data[from]) {
                (next, Some(out)) => {
                    let rest = next.feed_range(data, from + 1, to);
                    Fed {
                        model: rest.model,
                        pixels: out.pixels() + rest.pixels,
                        accepted: rest.accepted,
                    }
                },
                (_, None) => Fed { model: self, pixels: Seq::empty(), accepted: false },
            }
        }
    }

    /// Feeds the decoder every byte of `data` in order.
    pub open spec fn feed_all(self, data: Seq<u8>) -> Fed {
        self.feed_range(data, 0, data.len() as int)
    }
}

/// Every step leaves a well-formed decoder well-formed.
pub proof fn lemma_step_wf(m: StreamModel, byte: u8)
    requires
        m.wf(),
    ensures
        m.step(byte).0.wf(),
{
}

} // verus!
