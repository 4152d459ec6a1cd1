//! The six opcodes: how a tag byte is read, how long its opcode is, how many
//! pixels it yields and which pixel it makes of the one before.
//!
//! Everything here is stated arithmetically, over quotients and remainders of
//! the tag byte; the executable functions work on bit patterns and are proved
//! to agree.
use crate::pixel::{lemma_wrapping_add, lemma_wrapping_sub, wrap8, Pixel};
use vstd::prelude::*;

verus! {

/// The tag of an RGB opcode, all eight bits of it.
pub const QOI_OP_RGB: u8 = 0xfe;

/// The tag of an RGBA opcode, all eight bits of it.
pub const QOI_OP_RGBA: u8 = 0xff;

/// The top two bits of an INDEX tag.
pub const QOI_OP_INDEX: u8 = 0x00;

/// The top two bits of a DIFF tag.
pub const QOI_OP_DIFF: u8 = 0x40;

/// The top two bits of a LUMA tag.
pub const QOI_OP_LUMA: u8 = 0x80;

/// The top two bits of a RUN tag.
pub const QOI_OP_RUN: u8 = 0xc0;

/// What a tag byte announces.
#[derive(Copy, Clone, Debug, PartialEq, Eq, Structural)]
pub enum OpKind {
    /// Three bytes follow: red, green, blue. Alpha stays.
    Rgb,
    /// Four bytes follow: red, green, blue, alpha.
    Rgba,
    /// The low six bits name a cache slot.
    Index,
    /// The low six bits hold three differences of two bits each.
    Diff,
    /// The low six bits hold the green difference; one byte follows.
    Luma,
    /// The low six bits hold the length of a run, less one.
    Run,
}

/// The kind of opcode that starts with `tag`. The two eight-bit tags come
/// first; every other byte is told by its top two bits.
pub open spec fn kind_of(tag: u8) -> OpKind {
    if tag == 0xfe {
        OpKind::Rgb
    } else if tag == 0xff {
        OpKind::Rgba
    } else if tag / 64 == 0 {
        OpKind::Index
    } else if tag / 64 == 1 {
        OpKind::Diff
    } else if tag / 64 == 2 {
        OpKind::Luma
    } else {
        OpKind::Run
    }
}

/// The number of bytes of the opcode that starts with `tag`, the tag included.
pub open spec fn op_len(tag: u8) -> int {
    match kind_of(tag) {
        OpKind::Rgb => 4,
        OpKind::Rgba => 5,
        OpKind::Luma => 2,
        _ => 1,
    }
}

/// The number of pixels that the opcode starting with `tag` yields.
pub open spec fn op_count(tag: u8) -> int {
    if kind_of(tag) is Run {
        tag % 64 + 1
    } else {
        1
    }
}

/// The pixel a DIFF opcode makes of `p`: each colour channel moves by its
/// two-bit field less 2.
pub open spec fn diff_pixel(p: Pixel, tag: u8) -> Pixel {
    Pixel {
        r: wrap8(p.r + (tag / 16) % 4 - 2),
        g: wrap8(p.g + (tag / 4) % 4 - 2),
        b: wrap8(p.b + tag % 4 - 2),
        a: p.a,
    }
}

/// The pixel a LUMA opcode makes of `p`: green moves by the tag's six-bit
/// field less 32, red and blue by that plus their four-bit field less 8.
pub open spec fn luma_pixel(p: Pixel, tag: u8, second: u8) -> Pixel {
    Pixel {
        r: wrap8(p.r + (tag % 64 - 32) + (second / 16 - 8)),
        g: wrap8(p.g + (tag % 64 - 32)),
        b: wrap8(p.b + (tag % 64 - 32) + (second % 16 - 8)),
        a: p.a,
    }
}

/// Reads a tag byte.
pub fn classify(tag: u8) -> (kind: OpKind)
    ensures
        kind == kind_of(tag),
{
    if tag == QOI_OP_RGB {
        OpKind::Rgb
    } else if tag == QOI_OP_RGBA {
        OpKind::Rgba
    } else {
        let top: u8 = tag & 0xc0;
        assert(top == (tag / 64) * 64) by (bit_vector)
            requires
                top == tag & 0xc0,
        ;
        if top == QOI_OP_INDEX {
            OpKind::Index
        } else if top == QOI_OP_DIFF {
            OpKind::Diff
        } else if top == QOI_OP_LUMA {
            OpKind::Luma
        } else {
            OpKind::Run
        }
    }
}

/// The length of the opcode that starts with `tag`.
pub fn op_length(tag: u8) -> (len: usize)
    ensures
        len == op_len(tag),
{
    match classify(tag) {
        OpKind::Rgb => 4,
        OpKind::Rgba => 5,
        OpKind::Luma => 2,
        _ => 1,
    }
}

/// The length of the run that a RUN tag announces: its low six bits plus one.
pub fn run_length(tag: u8) -> (count: u8)
    ensures
        count == tag % 64 + 1,
{
    let low: u8 = tag & 0x3f;
    assert(low == tag % 64) by (bit_vector)
        requires
            low == tag & 0x3f,
    ;
    low + 1
}

/// Applies a DIFF opcode to `p`.
pub fn apply_diff(p: Pixel, tag: u8) -> (q: Pixel)
    ensures
        q == diff_pixel(p, tag),
{
    let dr: u8 = (tag >> 4) & 0x03;
    let dg: u8 = (tag >> 2) & 0x03;
    let db: u8 = tag & 0x03;
    assert(dr == (tag / 16) % 4 && dg == (tag / 4) % 4 && db == tag % 4) by (bit_vector)
        requires
            dr == (tag >> 4) & 0x03,
            dg == (tag >> 2) & 0x03,
            db == tag & 0x03,
    ;
    let er: u8 = dr.wrapping_sub(2);
    let eg: u8 = dg.wrapping_sub(2);
    let eb: u8 = db.wrapping_sub(2);
    proof {
        lemma_wrapping_sub(dr, 2, dr as int, 2);
        lemma_wrapping_sub(dg, 2, dg as int, 2);
        lemma_wrapping_sub(db, 2, db as int, 2);
        lemma_wrapping_add(p.r, er, p.r as int, dr - 2);
        lemma_wrapping_add(p.g, eg, p.g as int, dg - 2);
        lemma_wrapping_add(p.b, eb, p.b as int, db - 2);
    }
    Pixel { r: p.r.wrapping_add(er), g: p.g.wrapping_add(eg), b: p.b.wrapping_add(eb), a: p.a }
}

/// Applies a LUMA opcode, of tag `tag` and second byte `second`, to `p`.
pub fn apply_luma(p: Pixel, tag: u8, second: u8) -> (q: Pixel)
    ensures
        q == luma_pixel(p, tag, second),
{
    let low: u8 = tag & 0x3f;
    let dr_dg: u8 = (second >> 4) & 0x0f;
    let db_dg: u8 = second & 0x0f;
    assert(low == tag % 64 && dr_dg == second / 16 && db_dg == second % 16) by (bit_vector)
        requires
            low == tag & 0x3f,
            dr_dg == (second >> 4) & 0x0f,
            db_dg == second & 0x0f,
    ;
    let dg: u8 = low.wrapping_sub(32);
    let mid: u8 = dg.wrapping_sub(8);
    let er: u8 = mid.wrapping_add(dr_dg);
    let eb: u8 = mid.wrapping_add(db_dg);
    proof {
        lemma_wrapping_sub(low, 32, low as int, 32);
        lemma_wrapping_sub(dg, 8, low - 32, 8);
        lemma_wrapping_add(mid, dr_dg, low - 32 - 8, dr_dg as int);
        lemma_wrapping_add(mid, db_dg, low - 32 - 8, db_dg as int);
        lemma_wrapping_add(p.r, er, p.r as int, low - 32 - 8 + dr_dg);
        lemma_wrapping_add(p.g, dg, p.g as int, low - 32);
        lemma_wrapping_add(p.b, eb, p.b as int, low - 32 - 8 + db_dg);
    }
    Pixel { r: p.r.wrapping_add(er), g: p.g.wrapping_add(dg), b: p.b.wrapping_add(eb), a: p.a }
}

} // verus!
