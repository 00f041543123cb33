//! The wire grammar, stated mathematically.
//!
//! A payload is a UTF-8 JSON object written as bytes: `{` and `}` around
//! comma-separated `"key": value` pairs, with the four JSON whitespace
//! bytes allowed around tokens. Keys and string values are quoted byte
//! strings with the short escapes `\" \\ \/ \b \f \n \r \t`; unescaped
//! bytes below `0x20` are rejected, as are `\u` sequences. Booleans are
//! the literals `true` and `false`. The object must carry exactly the
//! five schema fields, each once, each with the right value type, and
//! `level` must name a severity level (ASCII-case-insensitively).
//!
//! [`decode`] is the whole story: it maps every byte sequence to the
//! configuration it denotes or to the error that classifies it, and the
//! executable decoder is proved to return exactly `decode` of its input.

use vstd::prelude::*;

use crate::config::{DecodeErrorView, Field, LoggerConfigView, LoggerLevel};

verus! {

/// JSON whitespace: space, tab, line feed, carriage return.
pub open spec fn is_ws(b: u8) -> bool {
    b == 0x20 || b == 0x09 || b == 0x0a || b == 0x0d
}

/// The first index at or after `i` holding a non-whitespace byte, or the
/// payload's length when only whitespace remains.
pub open spec fn skip_ws(s: Seq<u8>, i: int) -> int
    decreases s.len() - i,
{
    if 0 <= i < s.len() && is_ws(s[i]) {
        skip_ws(s, i + 1)
    } else {
        i
    }
}

pub proof fn lemma_skip_ws_bounds(s: Seq<u8>, i: int)
    requires
        0 <= i <= s.len(),
    ensures
        i <= skip_ws(s, i) <= s.len(),
    decreases s.len() - i,
{
    if i < s.len() && is_ws(s[i]) {
        lemma_skip_ws_bounds(s, i + 1);
    }
}

/// What the byte after a backslash stands for, if anything: the short
/// JSON escapes, each denoting one byte.
pub open spec fn unescape(b: u8) -> Option<u8> {
    if b == 0x22 {
        Some(0x22u8)  // \" quotation mark
    } else if b == 0x5c {
        Some(0x5cu8)  // \\ reverse solidus
    } else if b == 0x2f {
        Some(0x2fu8)  // \/ solidus
    } else if b == 0x62 {
        Some(0x08u8)  // \b backspace
    } else if b == 0x66 {
        Some(0x0cu8)  // \f form feed
    } else if b == 0x6e {
        Some(0x0au8)  // \n line feed
    } else if b == 0x72 {
        Some(0x0du8)  // \r carriage return
    } else if b == 0x74 {
        Some(0x09u8)  // \t horizontal tab
    } else {
        None
    }
}

/// The body of a quoted string starting at `i` (just past the opening
/// quote): the bytes it denotes and the index just past the closing
/// quote, or `None` when no well-formed body starts there.
pub open spec fn string_body(s: Seq<u8>, i: int) -> Option<(Seq<u8>, int)>
    decreases s.len() - i,
{
    if !(0 <= i < s.len()) {
        None
    } else if s[i] == 0x22 {
        Some((Seq::<u8>::empty(), i + 1))
    } else if s[i] == 0x5c {
        if i + 1 < s.len() {
            match unescape(s[i + 1]) {
                Some(b) => match string_body(s, i + 2) {
                    Some(t) => Some((seq![b] + t.0, t.1)),
                    None => None,
                },
                None => None,
            }
        } else {
            None
        }
    } else if s[i] >= 0x20 {
        match string_body(s, i + 1) {
            Some(t) => Some((seq![s[i]] + t.0, t.1)),
            None => None,
        }
    } else {
        None
    }
}

pub proof fn lemma_string_body_bounds(s: Seq<u8>, i: int)
    requires
        0 <= i,
        string_body(s, i) is Some,
    ensures
        i < string_body(s, i).unwrap().1 <= s.len(),
    decreases s.len() - i,
{
    if s[i] == 0x22 {
    } else if s[i] == 0x5c {
        lemma_string_body_bounds(s, i + 2);
    } else {
        lemma_string_body_bounds(s, i + 1);
    }
}

/// The boolean literal starting at `i`, with the index just past it.
pub open spec fn bool_lit(s: Seq<u8>, i: int) -> Option<(bool, int)> {
    if 0 <= i && i + 4 <= s.len() && s[i] == 0x74 && s[i + 1] == 0x72 && s[i + 2] == 0x75
        && s[i + 3] == 0x65 {
        Some((true, i + 4))
    } else if 0 <= i && i + 5 <= s.len() && s[i] == 0x66 && s[i + 1] == 0x61 && s[i + 2] == 0x6c
        && s[i + 3] == 0x73 && s[i + 4] == 0x65 {
        Some((false, i + 5))
    } else {
        None
    }
}

/// Whether `b` can open a JSON value: a string, a number, an object, an
/// array, or one of the word literals. Used to tell a value of the wrong
/// type (rejected as a type mismatch) from bytes that open no value at
/// all (rejected as a syntax error).
pub open spec fn opens_value(b: u8) -> bool {
    b == 0x22 || b == 0x2d || (0x30 <= b <= 0x39) || b == 0x7b || b == 0x5b || b == 0x74
        || b == 0x66 || b == 0x6e
}

/// The ASCII-lowercase image of a byte.
pub open spec fn lower(b: u8) -> u8 {
    if 0x41 <= b <= 0x5a {
        (b + 0x20) as u8
    } else {
        b
    }
}

pub open spec fn lower_seq(v: Seq<u8>) -> Seq<u8> {
    v.map_values(|b: u8| lower(b))
}

/// The bytes of `"log_path"`.
pub open spec fn name_log_path() -> Seq<u8> {
    seq![0x6cu8, 0x6f, 0x67, 0x5f, 0x70, 0x61, 0x74, 0x68]
}

/// The bytes of `"level"`.
pub open spec fn name_level() -> Seq<u8> {
    seq![0x6cu8, 0x65, 0x76, 0x65, 0x6c]
}

/// The bytes of `"show_level"`.
pub open spec fn name_show_level() -> Seq<u8> {
    seq![0x73u8, 0x68, 0x6f, 0x77, 0x5f, 0x6c, 0x65, 0x76, 0x65, 0x6c]
}

/// The bytes of `"show_log_origin"`.
pub open spec fn name_show_log_origin() -> Seq<u8> {
    seq![0x73u8, 0x68, 0x6f, 0x77, 0x5f, 0x6c, 0x6f, 0x67, 0x5f, 0x6f, 0x72, 0x69, 0x67, 0x69,
        0x6e]
}

/// The bytes of `"show_thread_name"`.
pub open spec fn name_show_thread_name() -> Seq<u8> {
    seq![0x73u8, 0x68, 0x6f, 0x77, 0x5f, 0x74, 0x68, 0x72, 0x65, 0x61, 0x64, 0x5f, 0x6e, 0x61,
        0x6d, 0x65]
}

/// The schema field a key names, if any.
pub open spec fn field_of(k: Seq<u8>) -> Option<Field> {
    if k == name_log_path() {
        Some(Field::LogPath)
    } else if k == name_level() {
        Some(Field::Level)
    } else if k == name_show_level() {
        Some(Field::ShowLevel)
    } else if k == name_show_log_origin() {
        Some(Field::ShowLogOrigin)
    } else if k == name_show_thread_name() {
        Some(Field::ShowThreadName)
    } else {
        None
    }
}

/// The bytes of `"error"`.
pub open spec fn name_error() -> Seq<u8> {
    seq![0x65u8, 0x72, 0x72, 0x6f, 0x72]
}

/// The bytes of `"warning"`.
pub open spec fn name_warning() -> Seq<u8> {
    seq![0x77u8, 0x61, 0x72, 0x6e, 0x69, 0x6e, 0x67]
}

/// The bytes of `"info"`.
pub open spec fn name_info() -> Seq<u8> {
    seq![0x69u8, 0x6e, 0x66, 0x6f]
}

/// The bytes of `"debug"`.
pub open spec fn name_debug() -> Seq<u8> {
    seq![0x64u8, 0x65, 0x62, 0x75, 0x67]
}

/// The severity level a string value names: its ASCII-lowercase image
/// must spell one of the four level names.
pub open spec fn level_of(v: Seq<u8>) -> Option<LoggerLevel> {
    if lower_seq(v) == name_error() {
        Some(LoggerLevel::Error)
    } else if lower_seq(v) == name_warning() {
        Some(LoggerLevel::Warning)
    } else if lower_seq(v) == name_info() {
        Some(LoggerLevel::Info)
    } else if lower_seq(v) == name_debug() {
        Some(LoggerLevel::Debug)
    } else {
        None
    }
}

/// The fields gathered so far while scanning an object's members.
pub struct PartialView {
    pub log_path: Option<Seq<u8>>,
    pub level: Option<LoggerLevel>,
    pub show_level: Option<bool>,
    pub show_log_origin: Option<bool>,
    pub show_thread_name: Option<bool>,
}

pub open spec fn empty_partial() -> PartialView {
    PartialView {
        log_path: None,
        level: None,
        show_level: None,
        show_log_origin: None,
        show_thread_name: None,
    }
}

/// Whether `p` already holds field `f`.
pub open spec fn partial_has(p: PartialView, f: Field) -> bool {
    match f {
        Field::LogPath => p.log_path is Some,
        Field::Level => p.level is Some,
        Field::ShowLevel => p.show_level is Some,
        Field::ShowLogOrigin => p.show_log_origin is Some,
        Field::ShowThreadName => p.show_thread_name is Some,
    }
}

/// The value of one member, expected to suit field `f`, starting at `i`
/// (whitespace already skipped): `p` with the field filled in and the
/// index just past the value, or the error that classifies the bytes.
pub open spec fn member_value(s: Seq<u8>, i: int, f: Field, p: PartialView) -> Result<
    (PartialView, int),
    DecodeErrorView,
> {
    match f {
        Field::LogPath => {
            if 0 <= i < s.len() && s[i] == 0x22 {
                match string_body(s, i + 1) {
                    Some(t) => Ok((PartialView { log_path: Some(t.0), ..p }, t.1)),
                    None => Err(DecodeErrorView::Syntax),
                }
            } else if 0 <= i < s.len() && opens_value(s[i]) {
                Err(DecodeErrorView::TypeMismatch(f))
            } else {
                Err(DecodeErrorView::Syntax)
            }
        },
        Field::Level => {
            if 0 <= i < s.len() && s[i] == 0x22 {
                match string_body(s, i + 1) {
                    Some(t) => match level_of(t.0) {
                        Some(l) => Ok((PartialView { level: Some(l), ..p }, t.1)),
                        None => Err(DecodeErrorView::InvalidEnumValue(t.0)),
                    },
                    None => Err(DecodeErrorView::Syntax),
                }
            } else if 0 <= i < s.len() && opens_value(s[i]) {
                Err(DecodeErrorView::TypeMismatch(f))
            } else {
                Err(DecodeErrorView::Syntax)
            }
        },
        _ => {
            match bool_lit(s, i) {
                Some(t) => Ok(
                    (
                        match f {
                            Field::ShowLevel => PartialView { show_level: Some(t.0), ..p },
                            Field::ShowLogOrigin => PartialView {
                                show_log_origin: Some(t.0),
                                ..p
                            },
                            _ => PartialView { show_thread_name: Some(t.0), ..p },
                        },
                        t.1,
                    ),
                ),
                None => {
                    if 0 <= i < s.len() && opens_value(s[i]) && s[i] != 0x74 && s[i] != 0x66 {
                        Err(DecodeErrorView::TypeMismatch(f))
                    } else {
                        Err(DecodeErrorView::Syntax)
                    }
                },
            }
        },
    }
}

pub proof fn lemma_member_value_bounds(s: Seq<u8>, i: int, f: Field, p: PartialView)
    requires
        0 <= i,
        member_value(s, i, f, p) is Ok,
    ensures
        i < member_value(s, i, f, p)->Ok_0.1 <= s.len(),
{
    match f {
        Field::LogPath | Field::Level => {
            lemma_string_body_bounds(s, i + 1);
        },
        _ => {},
    }
}

/// The members of the object, scanned from `i` (positioned at a key,
/// whitespace already skipped) with `p` the fields gathered before `i`:
/// the gathered fields and the index just past the closing brace, or the
/// first error met. A key outside the schema is rejected at once, as is
/// a repeated key, before its value is looked at.
pub open spec fn members(s: Seq<u8>, i: int, p: PartialView) -> Result<
    (PartialView, int),
    DecodeErrorView,
>
    decreases s.len() - i,
    via members_decreases
{
    if !(0 <= i < s.len() && s[i] == 0x22) {
        Err(DecodeErrorView::Syntax)
    } else {
        match string_body(s, i + 1) {
            None => Err(DecodeErrorView::Syntax),
            Some(kt) => {
                let j = skip_ws(s, kt.1);
                if !(j < s.len() && s[j] == 0x3a) {
                    Err(DecodeErrorView::Syntax)
                } else {
                    match field_of(kt.0) {
                        None => Err(DecodeErrorView::UnknownField(kt.0)),
                        Some(f) => {
                            if partial_has(p, f) {
                                Err(DecodeErrorView::DuplicateField(f))
                            } else {
                                match member_value(s, skip_ws(s, j + 1), f, p) {
                                    Err(e) => Err(e),
                                    Ok(vt) => {
                                        let k = skip_ws(s, vt.1);
                                        if k < s.len() && s[k] == 0x2c {
                                            members(s, skip_ws(s, k + 1), vt.0)
                                        } else if k < s.len() && s[k] == 0x7d {
                                            Ok((vt.0, k + 1))
                                        } else {
                                            Err(DecodeErrorView::Syntax)
                                        }
                                    },
                                }
                            }
                        },
                    }
                }
            },
        }
    }
}

#[via_fn]
proof fn members_decreases(s: Seq<u8>, i: int, p: PartialView) {
    if 0 <= i < s.len() && s[i] == 0x22 {
        if let Some(kt) = string_body(s, i + 1) {
            lemma_string_body_bounds(s, i + 1);
            lemma_skip_ws_bounds(s, kt.1);
            let j = skip_ws(s, kt.1);
            if j < s.len() && s[j] == 0x3a {
                lemma_skip_ws_bounds(s, j + 1);
                if let Some(f) = field_of(kt.0) {
                    if let Ok(vt) = member_value(s, skip_ws(s, j + 1), f, p) {
                        lemma_member_value_bounds(s, skip_ws(s, j + 1), f, p);
                        lemma_skip_ws_bounds(s, vt.1);
                        let k = skip_ws(s, vt.1);
                        if k < s.len() && s[k] == 0x2c {
                            lemma_skip_ws_bounds(s, k + 1);
                        }
                    }
                }
            }
        }
    }
}

/// The first schema field, in declaration order, that `p` is missing.
pub open spec fn first_missing(p: PartialView) -> Option<Field> {
    if p.log_path is None {
        Some(Field::LogPath)
    } else if p.level is None {
        Some(Field::Level)
    } else if p.show_level is None {
        Some(Field::ShowLevel)
    } else if p.show_log_origin is None {
        Some(Field::ShowLogOrigin)
    } else if p.show_thread_name is None {
        Some(Field::ShowThreadName)
    } else {
        None
    }
}

/// After the closing brace at `j`: a missing field is reported first;
/// otherwise anything but trailing whitespace is a syntax error.
pub open spec fn finish(s: Seq<u8>, j: int, p: PartialView) -> Result<
    LoggerConfigView,
    DecodeErrorView,
> {
    match first_missing(p) {
        Some(f) => Err(DecodeErrorView::MissingField(f)),
        None => {
            if skip_ws(s, j) == s.len() {
                Ok(
                    LoggerConfigView {
                        log_path: p.log_path.unwrap(),
                        level: p.level.unwrap(),
                        show_level: p.show_level.unwrap(),
                        show_log_origin: p.show_log_origin.unwrap(),
                        show_thread_name: p.show_thread_name.unwrap(),
                    },
                )
            } else {
                Err(DecodeErrorView::Syntax)
            }
        },
    }
}

/// What a payload denotes: the configuration it encodes, or the error
/// that classifies it. This is the reference the executable decoder is
/// proved against, byte for byte.
pub open spec fn decode(s: Seq<u8>) -> Result<LoggerConfigView, DecodeErrorView> {
    let i0 = skip_ws(s, 0);
    if !(i0 < s.len() && s[i0] == 0x7b) {
        Err(DecodeErrorView::Syntax)
    } else {
        let i1 = skip_ws(s, i0 + 1);
        if i1 < s.len() && s[i1] == 0x7d {
            finish(s, i1 + 1, empty_partial())
        } else {
            match members(s, i1, empty_partial()) {
                Err(e) => Err(e),
                Ok(t) => finish(s, t.1, t.0),
            }
        }
    }
}

} // verus!
