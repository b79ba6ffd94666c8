//! What a font file says without regard to size: whether it is a font at
//! all, and which glyph it has for a character. Both are asked of the
//! `rusttype` crate.

use vstd::prelude::*;
use crate::font::CacheGlyphError;

verus! {

/// The number of glyphs that `rusttype::Font::glyph_count` reports for the
/// font that `rusttype::Font::try_from_bytes` reads from `data`; `None` where
/// the bytes are not a font.
pub uninterp spec fn font_glyph_count(data: Seq<u8>) -> Option<usize>;

/// The glyph number that `rusttype`'s `IntoGlyphId` gives the character `c`
/// in the font read from `data`.
pub uninterp spec fn font_glyph_index(data: Seq<u8>, c: char) -> u16;

/// `rusttype::Font::try_from_bytes` followed by `Font::glyph_count`: reads
/// the bytes as a font, the first of a collection, and answers with the
/// number of its glyphs, or with `None` where the bytes are not a font. The
/// answer depends on the bytes alone.
#[verifier::external_body]
fn glyph_count(data: &[u8]) -> (count: Option<usize>)
    ensures
        count == font_glyph_count(data@),
{
    match rusttype::Font::try_from_bytes(data) {
        Some(font) => Some(font.glyph_count()),
        None => None,
    }
}

/// `rusttype::IntoGlyphId::into_glyph_id` for a character, on the font that
/// `rusttype::Font::try_from_bytes` reads from the bytes: the number of the
/// glyph that the font's character map gives the character, 0 where it gives
/// none. The answer is `None` exactly where the bytes are not a font, and
/// depends on the bytes and the character alone.
#[verifier::external_body]
fn glyph_index(data: &[u8], c: char) -> (index: Option<u16>)
    ensures
        index is Some <==> font_glyph_count(data@) is Some,
        index matches Some(i) ==> i == font_glyph_index(data@, c),
{
    match rusttype::Font::try_from_bytes(data) {
        Some(font) => Some(rusttype::IntoGlyphId::into_glyph_id(c, &font).0),
        None => None,
    }
}

/// The glyph a font of `count` glyphs has under the number `index`: the
/// number itself where the font has that many glyphs, and 0, the number of
/// the glyph that stands for a missing one, where it has not.
pub open spec fn usable_glyph(index: u16, count: usize) -> u32 {
    if index < count {
        index as u32
    } else {
        0
    }
}

/// The glyph numbers of `charset` in the font `data`, one for each character
/// and in the same order; 0 for a character the font has no glyph for.
pub open spec fn glyph_ids_of(data: Seq<u8>, charset: Seq<char>, count: usize) -> Seq<u32> {
    charset.map_values(|c: char| usable_glyph(font_glyph_index(data, c), count))
}

/// Looks up the glyph of every character of `charset` in the font file
/// `font_data`. The answer holds one glyph number for each character, in the
/// order of `charset`, and 0 where the font has no glyph for the character.
/// Bytes that are not a font are answered with `DecodeError`.
pub fn glyph_ids(font_data: &[u8], charset: &[char]) -> (res: Result<Vec<u32>, CacheGlyphError>)
    ensures
        match font_glyph_count(font_data@) {
            Some(count) => res matches Ok(ids) && ids@ == glyph_ids_of(
                font_data@,
                charset@,
                count,
            ),
            None => res matches Err(CacheGlyphError::DecodeError),
        },
{
    let count = match glyph_count(font_data) {
        Some(count) => count,
        None => {
            return Err(CacheGlyphError::DecodeError);
        },
    };
    let mut ids: Vec<u32> = Vec::new();
    let mut i: usize = 0;
    while i < charset.len()
        invariant
            i <= charset.len(),
            font_glyph_count(font_data@) == Some(count),
            ids@ == glyph_ids_of(font_data@, charset@.take(i as int), count),
        decreases charset.len() - i,
    {
        let index = match glyph_index(font_data, charset[i]) {
            Some(index) => index,
            None => vstd::pervasive::unreached(),
        };
        let id: u32 = if (index as usize) < count {
            index as u32
        } else {
            0
        };
        ids.push(id);
        i += 1;
        assert(ids@ =~= glyph_ids_of(font_data@, charset@.take(i as int), count));
    }
    assert(charset@.take(i as int) =~= charset@);
    Ok(ids)
}

} // verus!
