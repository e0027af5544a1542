//! Patch operations and the parser that turns one command-line token into one.
use vstd::prelude::*;
use vstd::string::StringSliceAdditionalSpecFns;
use crate::header::{copy_padded, zero_padded, GAME_CODE_LEN, MAKER_CODE_LEN, TITLE_LEN};

verus! {

pub const DASH: u8 = 0x2D;

pub const PLUS: u8 = 0x2B;

pub const DIGIT_ZERO: u8 = 0x30;

pub const DIGIT_NINE: u8 = 0x39;

/// `-p`: pad.
pub const LETTER_PAD: u8 = 0x70;

/// `-t`: title.
pub const LETTER_TITLE: u8 = 0x74;

/// `-c`: game code.
pub const LETTER_GAME_CODE: u8 = 0x63;

/// `-m`: maker code.
pub const LETTER_MAKER_CODE: u8 = 0x6D;

/// `-r`: version.
pub const LETTER_VERSION: u8 = 0x72;

/// `-d`: debug handler.
pub const LETTER_DEBUG: u8 = 0x64;

/// One requested change to an image.
#[derive(Clone, Copy, Debug, PartialEq, Eq)]
pub enum PatchOp {
    /// Pad the image to a power-of-two length.
    Pad,
    /// Set the title; `None` derives it from the file name.
    Title(Option<[u8; TITLE_LEN]>),
    GameCode([u8; GAME_CODE_LEN]),
    MakerCode([u8; MAKER_CODE_LEN]),
    Version(u8),
    /// Switch the debug handler on or off.
    Debug(bool),
}

/// A patch operation with its fields as byte sequences.
pub enum PatchOpModel {
    Pad,
    Title(Option<Seq<u8>>),
    GameCode(Seq<u8>),
    MakerCode(Seq<u8>),
    Version(u8),
    Debug(bool),
}

impl View for PatchOp {
    type V = PatchOpModel;

    open spec fn view(&self) -> PatchOpModel {
        match *self {
            PatchOp::Pad => PatchOpModel::Pad,
            PatchOp::Title(None) => PatchOpModel::Title(None),
            PatchOp::Title(Some(t)) => PatchOpModel::Title(Some(t@)),
            PatchOp::GameCode(c) => PatchOpModel::GameCode(c@),
            PatchOp::MakerCode(c) => PatchOpModel::MakerCode(c@),
            PatchOp::Version(v) => PatchOpModel::Version(v),
            PatchOp::Debug(on) => PatchOpModel::Debug(on),
        }
    }
}

/// Why a token was rejected.
#[derive(Clone, Copy, Debug, PartialEq, Eq, Structural)]
pub enum ParseError {
    TitleTooLong,
    GameCodeTooLong,
    MakerCodeTooLong,
    InvalidVersion,
    InvalidDebugLevel,
    UnknownArgument,
}

impl ParseError {
    /// A short description of the rejection.
    pub fn message(&self) -> (r: &'static str)
        ensures
            r@ == match *self {
                ParseError::TitleTooLong => "title too long"@,
                ParseError::GameCodeTooLong => "game code too long"@,
                ParseError::MakerCodeTooLong => "maker code too long"@,
                ParseError::InvalidVersion => "invalid version"@,
                ParseError::InvalidDebugLevel => "debug level must be 0 or 1"@,
                ParseError::UnknownArgument => "unknown argument"@,
            },
    {
        match *self {
            ParseError::TitleTooLong => "title too long",
            ParseError::GameCodeTooLong => "game code too long",
            ParseError::MakerCodeTooLong => "maker code too long",
            ParseError::InvalidVersion => "invalid version",
            ParseError::InvalidDebugLevel => "debug level must be 0 or 1",
            ParseError::UnknownArgument => "unknown argument",
        }
    }
}

pub open spec fn is_digit(b: u8) -> bool {
    DIGIT_ZERO <= b <= DIGIT_NINE
}

/// The value of a run of decimal digits.
pub open spec fn digits_value(s: Seq<u8>) -> nat
    decreases s.len(),
{
    if s.len() == 0 {
        0
    } else {
        digits_value(s.drop_last()) * 10 + (s.last() - DIGIT_ZERO) as nat
    }
}

/// `s` without one leading `+`, which unsigned decimal numbers may carry.
pub open spec fn unsigned_digits(s: Seq<u8>) -> Seq<u8> {
    if s.len() > 0 && s[0] == PLUS {
        s.skip(1)
    } else {
        s
    }
}

/// The byte that `s` spells in decimal: an optional `+`, then one or more
/// digits whose value is at most 255.
pub open spec fn decimal_u8(s: Seq<u8>) -> Option<u8> {
    let d = unsigned_digits(s);
    if d.len() > 0 && (forall|i: int| 0 <= i < d.len() ==> is_digit(d[i])) && digits_value(d)
        <= 255 {
        Some(digits_value(d) as u8)
    } else {
        None
    }
}

/// Whether token `t` starts with `-` followed by `letter`.
pub open spec fn has_flag(t: Seq<u8>, letter: u8) -> bool {
    t.len() >= 2 && t[0] == DASH && t[1] == letter
}

/// What a token's bytes parse to.
pub open spec fn parse_spec(t: Seq<u8>) -> Result<PatchOpModel, ParseError> {
    let rest = t.skip(2);
    if t == seq![DASH, LETTER_PAD] {
        Ok(PatchOpModel::Pad)
    } else if has_flag(t, LETTER_TITLE) {
        if rest.len() == 0 {
            Ok(PatchOpModel::Title(None))
        } else if rest.len() > TITLE_LEN {
            Err(ParseError::TitleTooLong)
        } else {
            Ok(PatchOpModel::Title(Some(zero_padded(rest, TITLE_LEN as nat))))
        }
    } else if has_flag(t, LETTER_GAME_CODE) {
        if rest.len() > GAME_CODE_LEN {
            Err(ParseError::GameCodeTooLong)
        } else {
            Ok(PatchOpModel::GameCode(zero_padded(rest, GAME_CODE_LEN as nat)))
        }
    } else if has_flag(t, LETTER_MAKER_CODE) {
        if rest.len() > MAKER_CODE_LEN {
            Err(ParseError::MakerCodeTooLong)
        } else {
            Ok(PatchOpModel::MakerCode(zero_padded(rest, MAKER_CODE_LEN as nat)))
        }
    } else if has_flag(t, LETTER_VERSION) {
        match decimal_u8(rest) {
            Some(v) => Ok(PatchOpModel::Version(v)),
            None => Err(ParseError::InvalidVersion),
        }
    } else if has_flag(t, LETTER_DEBUG) {
        match decimal_u8(rest) {
            Some(0) => Ok(PatchOpModel::Debug(false)),
            Some(1) => Ok(PatchOpModel::Debug(true)),
            _ => Err(ParseError::InvalidDebugLevel),
        }
    } else {
        Err(ParseError::UnknownArgument)
    }
}

/// A parse result, with the operation seen through its view.
pub open spec fn parse_outcome(r: Result<PatchOp, ParseError>) -> Result<PatchOpModel, ParseError> {
    match r {
        Ok(op) => Ok(op@),
        Err(e) => Err(e),
    }
}

/// Reads the decimal byte spelled by `t` from `start` on.
fn parse_decimal_u8(t: &[u8], start: usize) -> (r: Option<u8>)
    requires
        start <= t@.len(),
    ensures
        r == decimal_u8(t@.skip(start as int)),
{
    let ghost d = unsigned_digits(t@.skip(start as int));
    let mut first = start;
    if first < t.len() && t[first] == PLUS {
        first = first + 1;
    }
    assert(d =~= t@.skip(first as int));
    if first == t.len() {
        return None;
    }
    let mut value: u32 = 0;
    let mut i = first;
    while i < t.len()
        invariant
            start <= first <= i <= t@.len(),
            d == t@.skip(first as int),
            d == unsigned_digits(t@.skip(start as int)),
            forall|k: int| first <= k < i ==> is_digit(t@[k]),
            value == (if digits_value(t@.subrange(first as int, i as int)) > 255 {
                256
            } else {
                digits_value(t@.subrange(first as int, i as int))
            }),
        decreases t@.len() - i,
    {
        let b = t[i];
        if b < DIGIT_ZERO || b > DIGIT_NINE {
            assert(!is_digit(d[i - first]));
            assert(!(forall|k: int| 0 <= k < d.len() ==> is_digit(d[k])));
            return None;
        }
        assert(t@.subrange(first as int, i + 1).drop_last() =~= t@.subrange(first as int, i as int));
        let digit = (b - DIGIT_ZERO) as u32;
        if value == 256 || value * 10 + digit > 255 {
            value = 256;
        } else {
            value = value * 10 + digit;
        }
        i = i + 1;
    }
    assert(t@.subrange(first as int, i as int) =~= d);
    if value <= 255 {
        Some(value as u8)
    } else {
        None
    }
}

/// Parses one option token (`-p`, `-t<title>`, `-c<code>`, `-m<maker>`,
/// `-r<version>`, `-d<0|1>`) into a patch operation.
pub fn parse_token(token: &str) -> (r: Result<PatchOp, ParseError>)
    ensures
        parse_outcome(r) == parse_spec(token.spec_bytes()),
{
    let t = token.as_bytes();
    let ghost rest = t@.skip(2);
    if t.len() == 2 && t[0] == DASH && t[1] == LETTER_PAD {
        assert(t@ =~= seq![DASH, LETTER_PAD]);
        return Ok(PatchOp::Pad);
    }
    if t.len() < 2 || t[0] != DASH {
        return Err(ParseError::UnknownArgument);
    }
    assert(t@ != seq![DASH, LETTER_PAD]);
    assert(t@.subrange(2, t@.len() as int) =~= rest);
    let n = t.len() - 2;
    let letter = t[1];
    if letter == LETTER_TITLE {
        if n == 0 {
            Ok(PatchOp::Title(None))
        } else if n > TITLE_LEN {
            Err(ParseError::TitleTooLong)
        } else {
            Ok(PatchOp::Title(Some(copy_padded(t, 2, t.len()))))
        }
    } else if letter == LETTER_GAME_CODE {
        if n > GAME_CODE_LEN {
            Err(ParseError::GameCodeTooLong)
        } else {
            Ok(PatchOp::GameCode(copy_padded(t, 2, t.len())))
        }
    } else if letter == LETTER_MAKER_CODE {
        if n > MAKER_CODE_LEN {
            Err(ParseError::MakerCodeTooLong)
        } else {
            Ok(PatchOp::MakerCode(copy_padded(t, 2, t.len())))
        }
    } else if letter == LETTER_VERSION {
        match parse_decimal_u8(t, 2) {
            Some(v) => Ok(PatchOp::Version(v)),
            None => Err(ParseError::InvalidVersion),
        }
    } else if letter == LETTER_DEBUG {
        match parse_decimal_u8(t, 2) {
            Some(0) => Ok(PatchOp::Debug(false)),
            Some(1) => Ok(PatchOp::Debug(true)),
            _ => Err(ParseError::InvalidDebugLevel),
        }
    } else {
        Err(ParseError::UnknownArgument)
    }
}

} // verus!
