//! The payload decoder: executable, and proved to return exactly what
//! the grammar's [`decode`] function says of its input — the same
//! configuration on success, the same classified error on failure.

use vstd::prelude::*;

use crate::config::{DecodeError, DecodeErrorView, Field, LoggerConfig, LoggerConfigView,
    LoggerLevel};
use crate::grammar::{bool_lit, decode, empty_partial, field_of, finish, first_missing, is_ws,
    level_of, lower, lower_seq, member_value, members, name_debug, name_error, name_info,
    name_level, name_log_path, name_show_level, name_show_log_origin, name_show_thread_name,
    name_warning, opens_value, skip_ws, string_body, unescape, PartialView};

verus! {

/// The fields gathered so far while scanning the object's members.
pub struct Partial {
    pub log_path: Option<Vec<u8>>,
    pub level: Option<LoggerLevel>,
    pub show_level: Option<bool>,
    pub show_log_origin: Option<bool>,
    pub show_thread_name: Option<bool>,
}

impl View for Partial {
    type V = PartialView;

    open spec fn view(&self) -> PartialView {
        PartialView {
            log_path: match self.log_path {
                Some(v) => Some(v@),
                None => None,
            },
            level: self.level,
            show_level: self.show_level,
            show_log_origin: self.show_log_origin,
            show_thread_name: self.show_thread_name,
        }
    }
}

impl Partial {
    pub fn empty() -> (p: Partial)
        ensures
            p@ == empty_partial(),
    {
        Partial {
            log_path: None,
            level: None,
            show_level: None,
            show_log_origin: None,
            show_thread_name: None,
        }
    }
}

fn is_ws_exec(b: u8) -> (r: bool)
    ensures
        r == is_ws(b),
{
    b == 0x20 || b == 0x09 || b == 0x0a || b == 0x0d
}

fn skip_ws_exec(s: &[u8], i: usize) -> (j: usize)
    requires
        i <= s@.len(),
    ensures
        j == skip_ws(s@, i as int),
        i <= j <= s@.len(),
{
    let mut j = i;
    while j < s.len() && is_ws_exec(s[j])
        invariant
            i <= j <= s@.len(),
            skip_ws(s@, i as int) == skip_ws(s@, j as int),
        decreases s@.len() - j,
    {
        j += 1;
    }
    j
}

fn unescape_exec(b: u8) -> (r: Option<u8>)
    ensures
        r == unescape(b),
{
    if b == 0x22 {
        Some(0x22)
    } else if b == 0x5c {
        Some(0x5c)
    } else if b == 0x2f {
        Some(0x2f)
    } else if b == 0x62 {
        Some(0x08)
    } else if b == 0x66 {
        Some(0x0c)
    } else if b == 0x6e {
        Some(0x0a)
    } else if b == 0x72 {
        Some(0x0d)
    } else if b == 0x74 {
        Some(0x09)
    } else {
        None
    }
}

fn string_body_exec(s: &[u8], i: usize) -> (r: Option<(Vec<u8>, usize)>)
    requires
        i <= s@.len(),
    ensures
        (match r {
            Some(t) => string_body(s@, i as int) == Some((t.0@, t.1 as int)) && i < t.1
                <= s@.len(),
            None => string_body(s@, i as int) is None,
        }),
    decreases s@.len() - i,
{
    if i >= s.len() {
        return None;
    }
    let c = s[i];
    if c == 0x22 {
        let v: Vec<u8> = Vec::new();
        proof {
            assert(v@ =~= Seq::<u8>::empty());
        }
        Some((v, i + 1))
    } else if c == 0x5c {
        if s.len() - i >= 2 {
            match unescape_exec(s[i + 1]) {
                Some(b) => match string_body_exec(s, i + 2) {
                    Some(t) => {
                        let (mut v, j) = t;
                        let ghost rest = v@;
                        v.insert(0, b);
                        proof {
                            assert(v@ =~= seq![b] + rest);
                        }
                        Some((v, j))
                    },
                    None => None,
                },
                None => None,
            }
        } else {
            None
        }
    } else if c >= 0x20 {
        match string_body_exec(s, i + 1) {
            Some(t) => {
                let (mut v, j) = t;
                let ghost rest = v@;
                v.insert(0, c);
                proof {
                    assert(v@ =~= seq![c] + rest);
                }
                Some((v, j))
            },
            None => None,
        }
    } else {
        None
    }
}

fn bool_lit_exec(s: &[u8], i: usize) -> (r: Option<(bool, usize)>)
    requires
        i <= s@.len(),
    ensures
        (match r {
            Some(t) => bool_lit(s@, i as int) == Some((t.0, t.1 as int)) && i < t.1 <= s@.len(),
            None => bool_lit(s@, i as int) is None,
        }),
{
    if s.len() - i >= 4 && s[i] == 0x74 && s[i + 1] == 0x72 && s[i + 2] == 0x75 && s[i + 3]
        == 0x65 {
        Some((true, i + 4))
    } else if s.len() - i >= 5 && s[i] == 0x66 && s[i + 1] == 0x61 && s[i + 2] == 0x6c && s[i + 3]
        == 0x73 && s[i + 4] == 0x65 {
        Some((false, i + 5))
    } else {
        None
    }
}

fn opens_value_exec(b: u8) -> (r: bool)
    ensures
        r == opens_value(b),
{
    b == 0x22 || b == 0x2d || (0x30 <= b && b <= 0x39) || b == 0x7b || b == 0x5b || b == 0x74
        || b == 0x66 || b == 0x6e
}

/// The schema field a key names, if any.
fn field_of_exec(k: &Vec<u8>) -> (r: Option<Field>)
    ensures
        r == field_of(k@),
{
    if k.len() == 8 && k[0] == 0x6c && k[1] == 0x6f && k[2] == 0x67 && k[3] == 0x5f && k[4]
        == 0x70 && k[5] == 0x61 && k[6] == 0x74 && k[7] == 0x68 {
        proof {
            assert(k@ =~= name_log_path());
        }
        Some(Field::LogPath)
    } else if k.len() == 5 && k[0] == 0x6c && k[1] == 0x65 && k[2] == 0x76 && k[3] == 0x65 && k[4]
        == 0x6c {
        proof {
            assert(k@ =~= name_level());
        }
        Some(Field::Level)
    } else if k.len() == 10 && k[0] == 0x73 && k[1] == 0x68 && k[2] == 0x6f && k[3] == 0x77 && k[4]
        == 0x5f && k[5] == 0x6c && k[6] == 0x65 && k[7] == 0x76 && k[8] == 0x65 && k[9] == 0x6c {
        proof {
            assert(k@ =~= name_show_level());
        }
        Some(Field::ShowLevel)
    } else if k.len() == 15 && k[0] == 0x73 && k[1] == 0x68 && k[2] == 0x6f && k[3] == 0x77 && k[4]
        == 0x5f && k[5] == 0x6c && k[6] == 0x6f && k[7] == 0x67 && k[8] == 0x5f && k[9] == 0x6f
        && k[10] == 0x72 && k[11] == 0x69 && k[12] == 0x67 && k[13] == 0x69 && k[14] == 0x6e {
        proof {
            assert(k@ =~= name_show_log_origin());
        }
        Some(Field::ShowLogOrigin)
    } else if k.len() == 16 && k[0] == 0x73 && k[1] == 0x68 && k[2] == 0x6f && k[3] == 0x77 && k[4]
        == 0x5f && k[5] == 0x74 && k[6] == 0x68 && k[7] == 0x72 && k[8] == 0x65 && k[9] == 0x61
        && k[10] == 0x64 && k[11] == 0x5f && k[12] == 0x6e && k[13] == 0x61 && k[14] == 0x6d
        && k[15] == 0x65 {
        proof {
            assert(k@ =~= name_show_thread_name());
        }
        Some(Field::ShowThreadName)
    } else {
        None
    }
}

fn lower_exec(b: u8) -> (r: u8)
    ensures
        r == lower(b),
{
    if 0x41 <= b && b <= 0x5a {
        b + 0x20
    } else {
        b
    }
}

/// The severity level a string value names, matched on the value's
/// ASCII-lowercase image.
fn level_of_exec(v: &Vec<u8>) -> (r: Option<LoggerLevel>)
    ensures
        r == level_of(v@),
{
    proof {
        assert forall|j: int| 0 <= j < v@.len() implies lower_seq(v@)[j] == lower(v@[j]) by {}
        assert(lower_seq(v@).len() == v@.len());
    }
    if v.len() == 5 && lower_exec(v[0]) == 0x65 && lower_exec(v[1]) == 0x72 && lower_exec(v[2])
        == 0x72 && lower_exec(v[3]) == 0x6f && lower_exec(v[4]) == 0x72 {
        proof {
            assert(lower_seq(v@) =~= name_error());
        }
        Some(LoggerLevel::Error)
    } else if v.len() == 7 && lower_exec(v[0]) == 0x77 && lower_exec(v[1]) == 0x61 && lower_exec(
        v[2],
    ) == 0x72 && lower_exec(v[3]) == 0x6e && lower_exec(v[4]) == 0x69 && lower_exec(v[5]) == 0x6e
        && lower_exec(v[6]) == 0x67 {
        proof {
            assert(lower_seq(v@) =~= name_warning());
        }
        Some(LoggerLevel::Warning)
    } else if v.len() == 4 && lower_exec(v[0]) == 0x69 && lower_exec(v[1]) == 0x6e && lower_exec(
        v[2],
    ) == 0x66 && lower_exec(v[3]) == 0x6f {
        proof {
            assert(lower_seq(v@) =~= name_info());
        }
        Some(LoggerLevel::Info)
    } else if v.len() == 5 && lower_exec(v[0]) == 0x64 && lower_exec(v[1]) == 0x65 && lower_exec(
        v[2],
    ) == 0x62 && lower_exec(v[3]) == 0x75 && lower_exec(v[4]) == 0x67 {
        proof {
            assert(lower_seq(v@) =~= name_debug());
        }
        Some(LoggerLevel::Debug)
    } else {
        None
    }
}

fn partial_has_exec(p: &Partial, f: Field) -> (r: bool)
    ensures
        r == crate::grammar::partial_has(p@, f),
{
    match f {
        Field::LogPath => p.log_path.is_some(),
        Field::Level => p.level.is_some(),
        Field::ShowLevel => p.show_level.is_some(),
        Field::ShowLogOrigin => p.show_log_origin.is_some(),
        Field::ShowThreadName => p.show_thread_name.is_some(),
    }
}

fn member_value_exec(s: &[u8], i: usize, f: Field, p: Partial) -> (r: Result<
    (Partial, usize),
    DecodeError,
>)
    requires
        i <= s@.len(),
    ensures
        (match r {
            Ok(t) => member_value(s@, i as int, f, p@) == Ok::<_, DecodeErrorView>(
                (t.0@, t.1 as int),
            ) && i < t.1 <= s@.len(),
            Err(e) => member_value(s@, i as int, f, p@) == Err::<(PartialView, int), _>(e@),
        }),
{
    match f {
        Field::LogPath => {
            if i < s.len() && s[i] == 0x22 {
                match string_body_exec(s, i + 1) {
                    Some(t) => Ok((Partial { log_path: Some(t.0), ..p }, t.1)),
                    None => Err(DecodeError::Syntax),
                }
            } else if i < s.len() && opens_value_exec(s[i]) {
                Err(DecodeError::TypeMismatch(f))
            } else {
                Err(DecodeError::Syntax)
            }
        },
        Field::Level => {
            if i < s.len() && s[i] == 0x22 {
                match string_body_exec(s, i + 1) {
                    Some(t) => match level_of_exec(&t.0) {
                        Some(l) => Ok((Partial { level: Some(l), ..p }, t.1)),
                        None => Err(DecodeError::InvalidEnumValue(t.0)),
                    },
                    None => Err(DecodeError::Syntax),
                }
            } else if i < s.len() && opens_value_exec(s[i]) {
                Err(DecodeError::TypeMismatch(f))
            } else {
                Err(DecodeError::Syntax)
            }
        },
        Field::ShowLevel | Field::ShowLogOrigin | Field::ShowThreadName => {
            match bool_lit_exec(s, i) {
                Some(t) => Ok(
                    (
                        match f {
                            Field::ShowLevel => Partial { show_level: Some(t.0), ..p },
                            Field::ShowLogOrigin => Partial { show_log_origin: Some(t.0), ..p },
                            _ => Partial { show_thread_name: Some(t.0), ..p },
                        },
                        t.1,
                    ),
                ),
                None => {
                    if i < s.len() && opens_value_exec(s[i]) && s[i] != 0x74 && s[i] != 0x66 {
                        Err(DecodeError::TypeMismatch(f))
                    } else {
                        Err(DecodeError::Syntax)
                    }
                },
            }
        },
    }
}

fn members_exec(s: &[u8], i: usize, p: Partial) -> (r: Result<(Partial, usize), DecodeError>)
    requires
        i <= s@.len(),
    ensures
        (match r {
            Ok(t) => members(s@, i as int, p@) == Ok::<_, DecodeErrorView>((t.0@, t.1 as int))
                && i < t.1 <= s@.len(),
            Err(e) => members(s@, i as int, p@) == Err::<(PartialView, int), _>(e@),
        }),
    decreases s@.len() - i,
{
    if !(i < s.len() && s[i] == 0x22) {
        return Err(DecodeError::Syntax);
    }
    match string_body_exec(s, i + 1) {
        None => Err(DecodeError::Syntax),
        Some(kt) => {
            let j = skip_ws_exec(s, kt.1);
            if !(j < s.len() && s[j] == 0x3a) {
                return Err(DecodeError::Syntax);
            }
            match field_of_exec(&kt.0) {
                None => Err(DecodeError::UnknownField(kt.0)),
                Some(f) => {
                    if partial_has_exec(&p, f) {
                        return Err(DecodeError::DuplicateField(f));
                    }
                    let v_start = skip_ws_exec(s, j + 1);
                    match member_value_exec(s, v_start, f, p) {
                        Err(e) => Err(e),
                        Ok(vt) => {
                            let k = skip_ws_exec(s, vt.1);
                            if k < s.len() && s[k] == 0x2c {
                                let next = skip_ws_exec(s, k + 1);
                                members_exec(s, next, vt.0)
                            } else if k < s.len() && s[k] == 0x7d {
                                Ok((vt.0, k + 1))
                            } else {
                                Err(DecodeError::Syntax)
                            }
                        },
                    }
                },
            }
        },
    }
}

fn first_missing_exec(p: &Partial) -> (r: Option<Field>)
    ensures
        r == first_missing(p@),
{
    if p.log_path.is_none() {
        Some(Field::LogPath)
    } else if p.level.is_none() {
        Some(Field::Level)
    } else if p.show_level.is_none() {
        Some(Field::ShowLevel)
    } else if p.show_log_origin.is_none() {
        Some(Field::ShowLogOrigin)
    } else if p.show_thread_name.is_none() {
        Some(Field::ShowThreadName)
    } else {
        None
    }
}

fn finish_exec(s: &[u8], j: usize, p: Partial) -> (r: Result<LoggerConfig, DecodeError>)
    requires
        j <= s@.len(),
    ensures
        (match r {
            Ok(c) => finish(s@, j as int, p@) == Ok::<_, DecodeErrorView>(c@),
            Err(e) => finish(s@, j as int, p@) == Err::<LoggerConfigView, _>(e@),
        }),
{
    match first_missing_exec(&p) {
        Some(f) => Err(DecodeError::MissingField(f)),
        None => {
            let j2 = skip_ws_exec(s, j);
            if j2 == s.len() {
                Ok(
                    LoggerConfig {
                        log_path: p.log_path.unwrap(),
                        level: p.level.unwrap(),
                        show_level: p.show_level.unwrap(),
                        show_log_origin: p.show_log_origin.unwrap(),
                        show_thread_name: p.show_thread_name.unwrap(),
                    },
                )
            } else {
                Err(DecodeError::Syntax)
            }
        },
    }
}

/// Structural decode of a raw payload against the schema: all or
/// nothing, no side effects, and exactly the [`decode`] function of the
/// payload's bytes — the same configuration on success, the same
/// classified error on failure.
pub fn decode_payload(s: &[u8]) -> (r: Result<LoggerConfig, DecodeError>)
    ensures
        (match r {
            Ok(c) => decode(s@) == Ok::<_, DecodeErrorView>(c@),
            Err(e) => decode(s@) == Err::<LoggerConfigView, _>(e@),
        }),
{
    let i0 = skip_ws_exec(s, 0);
    if !(i0 < s.len() && s[i0] == 0x7b) {
        return Err(DecodeError::Syntax);
    }
    let i1 = skip_ws_exec(s, i0 + 1);
    if i1 < s.len() && s[i1] == 0x7d {
        finish_exec(s, i1 + 1, Partial::empty())
    } else {
        match members_exec(s, i1, Partial::empty()) {
            Err(e) => Err(e),
            Ok(t) => finish_exec(s, t.1, t.0),
        }
    }
}

} // verus!
