//! Fonts as the glyph cache names them: keys, handles, character sets and
//! errors.

use vstd::prelude::*;
use vstd::string::StringExecFns;
use std::collections::HashSet;
use std::error::Error;

verus! {

/// Why glyphs could not be cached.
#[derive(Debug)]
pub enum CacheGlyphError {
    /// The font has no glyph for some of the requested characters. Holds
    /// those characters, each once, in the order of the request.
    GlyphNotSupported(Vec<char>),
    /// The glyph atlas has no room for all the requested glyphs.
    CacheTooSmall,
    /// The font's file could not be read.
    IoError(std::io::Error),
    /// The bytes read are not a font.
    DecodeError,
}

impl vstd::std_specs::convert::FromSpecImpl<std::io::Error> for CacheGlyphError {
    open spec fn obeys_from_spec() -> bool {
        true
    }

    open spec fn from_spec(e: std::io::Error) -> Self {
        CacheGlyphError::IoError(e)
    }
}

impl From<std::io::Error> for CacheGlyphError {
    /// The error of a font file that could not be read.
    fn from(e: std::io::Error) -> (r: Self) {
        CacheGlyphError::IoError(e)
    }
}

/// The text that `format!` of the standard library writes for a list of
/// characters under `{:?}`: the characters in quotes, escaped where they do
/// not print, between square brackets.
pub uninterp spec fn chars_debug(chars: Seq<char>) -> Seq<char>;

/// `format!("{:?}", ..)` of the standard library for a list of characters,
/// that is the `Debug` form of a `Vec<char>`. It depends on the characters
/// alone.
#[verifier::external_body]
fn debug_chars(chars: &Vec<char>) -> (text: String)
    ensures
        text@ == chars_debug(chars@),
{
    format!("{:?}", chars)
}

/// `format!("{}", ..)` of the standard library for an I/O error, that is the
/// error's own `Display` form. Nothing is claimed of the text.
#[verifier::external_body]
fn io_error_text(e: &std::io::Error) -> (text: String) {
    format!("{}", e)
}

/// `std::error::Error::description` of an I/O error: the short text the
/// standard library holds for the kind of error. Nothing is claimed of the
/// text.
#[verifier::external_body]
#[allow(deprecated)]
fn io_error_description(e: &std::io::Error) -> (text: &str) {
    e.description()
}

impl CacheGlyphError {
    /// The error in words, with what it holds: the characters that are not
    /// supported, as a list in quotes, or the text of the I/O error.
    pub fn message(&self) -> (text: String)
        ensures
            match self {
                CacheGlyphError::GlyphNotSupported(chars) => text@
                    == "The following chars are not supported by the given font:\n               "@
                    + chars_debug(chars@),
                CacheGlyphError::CacheTooSmall => text@
                    == "The cache is to small to contain all the characters\n             given."@,
                CacheGlyphError::IoError(_) => true,
                CacheGlyphError::DecodeError => text@ == "The font file does not hold a font."@,
            },
    {
        match self {
            CacheGlyphError::GlyphNotSupported(chars) => {
                let mut text =
                    "The following chars are not supported by the given font:\n               ".to_owned();
                let list = debug_chars(chars);
                text.append(list.as_str());
                text
            },
            CacheGlyphError::CacheTooSmall =>
                "The cache is to small to contain all the characters\n             given.".to_owned(),
            CacheGlyphError::IoError(e) => io_error_text(e),
            CacheGlyphError::DecodeError => "The font file does not hold a font.".to_owned(),
        }
    }

    /// A sentence for the kind of error; for an I/O error, the sentence the
    /// standard library has for it.
    pub fn description(&self) -> (s: &str)
        ensures
            match self {
                CacheGlyphError::GlyphNotSupported(_) => s@ == "A glyph is not supported."@,
                CacheGlyphError::CacheTooSmall => s@
                    == "The cache is too small for these characters with this font."@,
                CacheGlyphError::IoError(_) => true,
                CacheGlyphError::DecodeError => s@ == "The font file does not hold a font."@,
            },
    {
        match self {
            CacheGlyphError::GlyphNotSupported(_) => "A glyph is not supported.",
            CacheGlyphError::CacheTooSmall =>
                "The cache is too small for these characters with this font.",
            CacheGlyphError::IoError(e) => io_error_description(e),
            CacheGlyphError::DecodeError => "The font file does not hold a font.",
        }
    }
}

/// The answer to a lookup of a glyph that was never cached.
#[derive(Clone, Copy, Debug, PartialEq, Eq, Structural)]
pub struct CacheReadError;

impl CacheReadError {
    /// A sentence for the error.
    pub fn description(&self) -> (s: &'static str)
        ensures
            s@ == "The requested glyph was not in the cache"@,
    {
        "The requested glyph was not in the cache"
    }
}

/// The character sets `gen_charset` knows.
#[derive(Clone, Copy, Debug, PartialEq, Eq, Hash, Structural)]
pub enum Charset {
    /// The letters a to z.
    Lowercase,
    /// The letters A to Z.
    Uppercase,
    /// The digits 0 to 9.
    Numbers,
    /// The punctuation of ISO/IEC 8859-1 that a keyboard offers.
    Punctuation,
}

/// The characters of one set, in the order in which `gen_charset` lists them.
pub open spec fn charset_chars(set: Charset) -> Seq<char> {
    match set {
        Charset::Lowercase => seq![
            'a', 'b', 'c', 'd', 'e', 'f', 'g', 'h', 'i', 'j', 'k', 'l', 'm', 'n', 'o', 'p', 'q',
            'r', 's', 't', 'u', 'v', 'w', 'x', 'y', 'z',
        ],
        Charset::Uppercase => seq![
            'A', 'B', 'C', 'D', 'E', 'F', 'G', 'H', 'I', 'J', 'K', 'L', 'M', 'N', 'O', 'P', 'Q',
            'R', 'S', 'T', 'U', 'V', 'W', 'X', 'Y', 'Z',
        ],
        Charset::Numbers => seq!['0', '1', '2', '3', '4', '5', '6', '7', '8', '9'],
        Charset::Punctuation => seq![
            ' ', '!', '"', '#', '\u{a3}', '$', '%', '&', '\'', '(', ')', '*', '+', ',', '-', '.',
            '/', ':', ';', '<', '=', '>', '?', '@', '[', '\\', ']', '^', '_', '`', '{', '|', '}',
            '~', '\u{ac}',
        ],
    }
}

/// The characters of `set` where `sets` holds it, and nothing otherwise.
pub open spec fn charset_part(sets: Set<Charset>, set: Charset) -> Seq<char> {
    if sets.contains(set) {
        charset_chars(set)
    } else {
        Seq::empty()
    }
}

/// The characters of the chosen sets: lower case, upper case, digits and
/// punctuation, in this order, each where it was chosen.
pub open spec fn charset_of(sets: Set<Charset>) -> Seq<char> {
    charset_part(sets, Charset::Lowercase) + charset_part(sets, Charset::Uppercase) + charset_part(
        sets,
        Charset::Numbers,
    ) + charset_part(sets, Charset::Punctuation)
}

/// `HashSet::contains` of the standard library for a set of `Charset`: the
/// answer is whether the set holds the value. `Charset` has no fields and
/// takes its `Hash` and `Eq` from `derive`, so equal values hash alike.
#[verifier::external_body]
fn holds_charset(sets: &HashSet<Charset>, set: Charset) -> (held: bool)
    ensures
        held == sets@.contains(set),
{
    sets.contains(&set)
}

/// The characters of one set.
fn chars_of(set: Charset) -> (chars: Vec<char>)
    ensures
        chars@ == charset_chars(set),
{
    let chars = match set {
        Charset::Lowercase => vec![
            'a', 'b', 'c', 'd', 'e', 'f', 'g', 'h', 'i', 'j', 'k', 'l', 'm', 'n', 'o', 'p', 'q',
            'r', 's', 't', 'u', 'v', 'w', 'x', 'y', 'z',
        ],
        Charset::Uppercase => vec![
            'A', 'B', 'C', 'D', 'E', 'F', 'G', 'H', 'I', 'J', 'K', 'L', 'M', 'N', 'O', 'P', 'Q',
            'R', 'S', 'T', 'U', 'V', 'W', 'X', 'Y', 'Z',
        ],
        Charset::Numbers => vec!['0', '1', '2', '3', '4', '5', '6', '7', '8', '9'],
        Charset::Punctuation => vec![
            ' ', '!', '"', '#', '\u{a3}', '$', '%', '&', '\'', '(', ')', '*', '+', ',', '-', '.',
            '/', ':', ';', '<', '=', '>', '?', '@', '[', '\\', ']', '^', '_', '`', '{', '|', '}',
            '~', '\u{ac}',
        ],
    };
    assert(chars@ =~= charset_chars(set));
    chars
}

/// Appends the characters of `set` to `chars` where `sets` holds it.
fn push_charset(chars: &mut Vec<char>, sets: &HashSet<Charset>, set: Charset)
    ensures
        final(chars)@ == old(chars)@ + charset_part(sets@, set),
{
    if holds_charset(sets, set) {
        let mut part = chars_of(set);
        chars.append(&mut part);
    } else {
        assert(chars@ + Seq::<char>::empty() =~= chars@);
    }
}

/// The characters of the commonly used sets named in `sets`, ready to be
/// handed to a glyph cache: lower case, upper case, digits and punctuation,
/// in this order, each where `sets` names it.
pub fn gen_charset(sets: &HashSet<Charset>) -> (chars: Vec<char>)
    ensures
        chars@ == charset_of(sets@),
{
    let mut chars = Vec::new();
    assert(chars@ + charset_part(sets@, Charset::Lowercase) =~= charset_part(
        sets@,
        Charset::Lowercase,
    ));
    push_charset(&mut chars, sets, Charset::Lowercase);
    push_charset(&mut chars, sets, Charset::Uppercase);
    push_charset(&mut chars, sets, Charset::Numbers);
    push_charset(&mut chars, sets, Charset::Punctuation);
    chars
}

/// What identifies a font: the path of its file and its size. Two files with
/// the same content under different paths are different fonts.
#[derive(Clone, Debug, PartialEq, Eq, PartialOrd, Ord)]
pub struct FontSpec {
    path: String,
    /// The horizontal size times 100: 2400 for a font of 24 points.
    x_scale: u32,
    /// The vertical size times 100.
    y_scale: u32,
}

impl View for FontSpec {
    type V = (Seq<char>, u32, u32);

    closed spec fn view(&self) -> (Seq<char>, u32, u32) {
        (self.path@, self.x_scale, self.y_scale)
    }
}

impl FontSpec {
    /// The key of the font at `path` in the given size. The sizes
    /// are 100 times the size in points: 2400 for a font of 24 points.
    pub fn new(path: &str, x_scale: u32, y_scale: u32) -> (spec: FontSpec)
        ensures
            spec@ == (path@, x_scale, y_scale),
    {
        FontSpec { path: path.to_owned(), x_scale, y_scale }
    }

    /// The path of the font's file.
    pub fn path(&self) -> (path: &str)
        ensures
            path@ == self@.0,
    {
        self.path.as_str()
    }

    /// The horizontal size times 100.
    pub fn x_scale(&self) -> (x: u32)
        ensures
            x == self@.1,
    {
        self.x_scale
    }

    /// The vertical size times 100.
    pub fn y_scale(&self) -> (y: u32)
        ensures
            y == self@.2,
    {
        self.y_scale
    }

    /// Whether the two keys name the same font.
    pub fn same_as(&self, other: &FontSpec) -> (same: bool)
        ensures
            same == (self@ == other@),
    {
        self.x_scale == other.x_scale && self.y_scale == other.y_scale && self.path == other.path
    }

    /// A copy of the key.
    pub fn duplicate(&self) -> (spec: FontSpec)
        ensures
            spec@ == self@,
    {
        FontSpec { path: self.path.clone(), x_scale: self.x_scale, y_scale: self.y_scale }
    }
}

/// Names one font of a glyph cache. Handles are issued in increasing order by
/// the cache and are never reused.
#[derive(Clone, Copy, Debug, PartialEq, Eq, Structural, PartialOrd, Ord)]
pub struct FontHandle(pub usize);

impl std::ops::Deref for FontHandle {
    type Target = usize;

    /// The number of the handle.
    fn deref(&self) -> (n: &usize)
        ensures
            *n == self.0,
    {
        &self.0
    }
}

impl View for FontHandle {
    type V = nat;

    open spec fn view(&self) -> nat {
        self.0 as nat
    }
}

} // verus!
