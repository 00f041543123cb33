//! The laws of the translation layer, stated over the grammar and
//! proved once for all payloads: a canonical encoder and its round
//! trip through [`decode`], and the rejection guarantees for unknown
//! keys, missing fields and out-of-domain levels.

use vstd::prelude::*;

use crate::config::{DecodeErrorView, Field, LoggerConfigView, LoggerLevel};
use crate::grammar::{bool_lit, decode, empty_partial, field_of, finish, first_missing, is_ws,
    level_of, lower, lower_seq, member_value, members, name_debug, name_error, name_info,
    name_level, name_log_path, name_show_level, name_show_log_origin, name_show_thread_name,
    name_warning, partial_has, skip_ws, string_body, unescape, PartialView};

verus! {

/// A byte that a quoted string can denote: anything outside the
/// control range, plus the five control bytes the short escapes reach.
pub open spec fn encodable_byte(x: u8) -> bool {
    x >= 0x20 || x == 0x08 || x == 0x09 || x == 0x0a || x == 0x0c || x == 0x0d
}

pub open spec fn encodable(b: Seq<u8>) -> bool {
    forall|i: int| 0 <= i < b.len() ==> encodable_byte(b[i])
}

/// A byte a quoted string carries as itself, with no escape.
pub open spec fn plain_byte(x: u8) -> bool {
    x >= 0x20 && x != 0x22 && x != 0x5c
}

pub open spec fn plain(b: Seq<u8>) -> bool {
    forall|i: int| 0 <= i < b.len() ==> plain_byte(b[i])
}

/// The canonical escape of one byte inside a quoted string.
pub open spec fn esc_byte(x: u8) -> Seq<u8> {
    if x == 0x22 {
        seq![0x5cu8, 0x22]
    } else if x == 0x5c {
        seq![0x5cu8, 0x5c]
    } else if x == 0x08 {
        seq![0x5cu8, 0x62]
    } else if x == 0x0c {
        seq![0x5cu8, 0x66]
    } else if x == 0x0a {
        seq![0x5cu8, 0x6e]
    } else if x == 0x0d {
        seq![0x5cu8, 0x72]
    } else if x == 0x09 {
        seq![0x5cu8, 0x74]
    } else {
        seq![x]
    }
}

/// The canonical escape of a byte string.
pub open spec fn esc_all(b: Seq<u8>) -> Seq<u8>
    decreases b.len(),
{
    if b.len() == 0 {
        Seq::<u8>::empty()
    } else {
        esc_byte(b[0]) + esc_all(b.drop_first())
    }
}

/// The canonical quoted form of a byte string.
pub open spec fn quoted(b: Seq<u8>) -> Seq<u8> {
    seq![0x22u8] + esc_all(b) + seq![0x22u8]
}

/// Escaping leaves a string of plain bytes unchanged.
pub proof fn lemma_esc_all_plain(b: Seq<u8>)
    requires
        plain(b),
    ensures
        esc_all(b) == b,
    decreases b.len(),
{
    if b.len() == 0 {
        assert(b =~= Seq::<u8>::empty());
    } else {
        assert forall|i: int| 0 <= i < b.drop_first().len() implies plain_byte(
            b.drop_first()[i],
        ) by {
            assert(b.drop_first()[i] == b[i + 1]);
        }
        lemma_esc_all_plain(b.drop_first());
        assert(esc_byte(b[0]) =~= seq![b[0]]);
        assert(esc_all(b) =~= b);
    }
}

/// A quoted string parses back to exactly the bytes it escapes: if the
/// payload carries `esc_all(b)` followed by a closing quote at `i`, the
/// string body starting at `i` denotes `b` and ends past the quote.
pub proof fn lemma_string_body_of_escape(s: Seq<u8>, i: int, b: Seq<u8>)
    requires
        0 <= i,
        encodable(b),
        i + esc_all(b).len() + 1 <= s.len(),
        s.subrange(i, i + esc_all(b).len() + 1) == esc_all(b) + seq![0x22u8],
    ensures
        string_body(s, i) == Some((b, i + esc_all(b).len() + 1)),
    decreases b.len(),
{
    let e = esc_all(b);
    let sub = s.subrange(i, i + e.len() + 1);
    if b.len() == 0 {
        assert(s[i] == 0x22) by {
            assert(sub[0] == s[i]);
        }
        assert(b =~= Seq::<u8>::empty());
    } else {
        let h = b[0];
        let t = b.drop_first();
        assert(encodable_byte(h));
        assert forall|k: int| 0 <= k < t.len() implies encodable_byte(t[k]) by {
            assert(t[k] == b[k + 1]);
        }
        assert(e == esc_byte(h) + esc_all(t));
        let hb = esc_byte(h);
        let i2 = i + hb.len();
        assert(s.subrange(i2, i2 + esc_all(t).len() + 1) =~= esc_all(t) + seq![0x22u8]) by {
            assert forall|k: int| 0 <= k < esc_all(t).len() + 1 implies s.subrange(
                i2,
                i2 + esc_all(t).len() + 1,
            )[k] == (esc_all(t) + seq![0x22u8])[k] by {
                assert(s.subrange(i2, i2 + esc_all(t).len() + 1)[k] == s[i2 + k]);
                assert(s[i2 + k] == sub[hb.len() + k]);
                assert(sub[hb.len() + k] == (e + seq![0x22u8])[hb.len() + k]);
            }
        }
        lemma_string_body_of_escape(s, i2, t);
        assert(seq![h] + t =~= b);
        if plain_byte(h) {
            assert(hb =~= seq![h]);
            assert(s[i] == h) by {
                assert(sub[0] == s[i]);
                assert((e + seq![0x22u8])[0] == e[0]);
                assert(e[0] == hb[0]);
            }
        } else {
            assert(hb.len() == 2);
            assert(s[i] == hb[0] && s[i + 1] == hb[1]) by {
                assert(sub[0] == s[i]);
                assert(sub[1] == s[i + 1]);
                assert((e + seq![0x22u8])[0] == e[0] && (e + seq![0x22u8])[1] == e[1]);
                assert(e[0] == hb[0] && e[1] == hb[1]);
            }
            assert(s[i] == 0x5c);
            assert(unescape(hb[1]) == Some(h));
        }
    }
}

/// LAW (unknown keys stop the scan): wherever the member scan stands —
/// any position, any fields already gathered — a key outside the
/// schema, written in canonical quoted form with its colon, makes the
/// scan fail with `UnknownField` carrying exactly that key, whatever
/// bytes follow the colon.
pub proof fn lemma_members_unknown_field(s: Seq<u8>, i: int, p: PartialView, k: Seq<u8>)
    requires
        0 <= i,
        encodable(k),
        field_of(k) is None,
        s.len() > i + esc_all(k).len() + 2,
        s.subrange(i, i + esc_all(k).len() as int + 2) == quoted(k),
        s[i + esc_all(k).len() as int + 2] == 0x3a,
    ensures
        members(s, i, p) == Err::<(PartialView, int), DecodeErrorView>(
            DecodeErrorView::UnknownField(k),
        ),
{
    let qe = esc_all(k).len() as int;
    assert(s[i] == 0x22) by {
        assert(s.subrange(i, i + qe + 2)[0] == s[i]);
    }
    assert(!is_ws(s[i + qe + 2]));
    assert(s.subrange(i + 1, i + 1 + qe + 1) =~= esc_all(k) + seq![0x22u8]) by {
        assert forall|j: int| 0 <= j < qe + 1 implies s.subrange(i + 1, i + 1 + qe + 1)[j] == (
        esc_all(k) + seq![0x22u8])[j] by {
            assert(s.subrange(i + 1, i + 1 + qe + 1)[j] == s[i + 1 + j]);
            assert(s[i + 1 + j] == s.subrange(i, i + qe + 2)[1 + j]);
        }
    }
    lemma_string_body_of_escape(s, i + 1, k);
    assert(skip_ws(s, i + qe + 2) == i + qe + 2);
}

/// LAW (unknown-field rejection): a payload whose object opens with a
/// key outside the schema is rejected with `UnknownField` carrying
/// exactly that key, whatever bytes follow the colon.
pub proof fn lemma_unknown_field_rejected(s: Seq<u8>, k: Seq<u8>)
    requires
        encodable(k),
        field_of(k) is None,
        s.len() > esc_all(k).len() + 3,
        s[0] == 0x7b,
        s.subrange(1, esc_all(k).len() as int + 3) == quoted(k),
        s[esc_all(k).len() as int + 3] == 0x3a,
    ensures
        decode(s) == Err::<LoggerConfigView, DecodeErrorView>(DecodeErrorView::UnknownField(k)),
{
    let qe = esc_all(k).len() as int;
    assert(s[1] == 0x22) by {
        assert(s.subrange(1, qe + 3)[0] == s[1]);
    }
    assert(!is_ws(s[0]) && !is_ws(s[1]));
    assert(s.subrange(1, 1 + qe + 2) == s.subrange(1, qe + 3));
    lemma_members_unknown_field(s, 1, empty_partial(), k);
}

/// LAW (missing-field rejection): a payload whose object scans cleanly
/// — empty, or with every member accepted — but omits a required field
/// is rejected with `MissingField` naming the first omitted field in
/// declaration order, whatever the trailing bytes.
pub proof fn lemma_missing_field_rejected(s: Seq<u8>, p: PartialView, j: int)
    requires
        ({
            let i0 = skip_ws(s, 0);
            let i1 = skip_ws(s, i0 + 1);
            &&& i0 < s.len()
            &&& s[i0] == 0x7b
            &&& {
                ||| (i1 < s.len() && s[i1] == 0x7d && p == empty_partial() && j == i1 + 1)
                ||| (!(i1 < s.len() && s[i1] == 0x7d) && members(s, i1, empty_partial())
                    == Ok::<(PartialView, int), DecodeErrorView>((p, j)))
            }
        }),
        first_missing(p) is Some,
    ensures
        decode(s) == Err::<LoggerConfigView, DecodeErrorView>(
            DecodeErrorView::MissingField(first_missing(p).unwrap()),
        ),
{
    assert(finish(s, j, p) == Err::<LoggerConfigView, DecodeErrorView>(
        DecodeErrorView::MissingField(first_missing(p).unwrap()),
    ));
}

/// LAW (out-of-domain levels stop the scan): wherever the member scan
/// stands, a `level` member not yet seen whose quoted value names no
/// severity level makes the scan fail with `InvalidEnumValue` carrying
/// exactly that value, whatever bytes follow the value.
pub proof fn lemma_members_invalid_level(s: Seq<u8>, i: int, p: PartialView, v: Seq<u8>)
    requires
        0 <= i,
        encodable(v),
        level_of(v) is None,
        !partial_has(p, Field::Level),
        s.len() > i + 9 + esc_all(v).len(),
        s.subrange(i, i + 7) == quoted(name_level()),
        s[i + 7] == 0x3a,
        s[i + 8] == 0x22,
        s.subrange(i + 9, i + 9 + esc_all(v).len() as int + 1) == esc_all(v) + seq![0x22u8],
    ensures
        members(s, i, p) == Err::<(PartialView, int), DecodeErrorView>(
            DecodeErrorView::InvalidEnumValue(v),
        ),
{
    assert(plain(name_level()));
    lemma_esc_all_plain(name_level());
    assert(s[i] == 0x22) by {
        assert(s.subrange(i, i + 7)[0] == s[i]);
    }
    assert(!is_ws(s[i + 7]) && !is_ws(s[i + 8]));
    assert(s.subrange(i + 1, i + 7) =~= name_level() + seq![0x22u8]) by {
        assert forall|j: int| 0 <= j < 6 implies s.subrange(i + 1, i + 7)[j] == (name_level()
            + seq![0x22u8])[j] by {
            assert(s.subrange(i + 1, i + 7)[j] == s[i + 1 + j]);
            assert(s[i + 1 + j] == s.subrange(i, i + 7)[1 + j]);
        }
    }
    lemma_string_body_of_escape(s, i + 1, name_level());
    assert(string_body(s, i + 1) == Some((name_level(), i + 7)));
    assert(field_of(name_level()) == Some(Field::Level));
    assert(skip_ws(s, i + 7) == i + 7 && skip_ws(s, i + 8) == i + 8);
    lemma_string_body_of_escape(s, i + 9, v);
}

/// LAW (out-of-domain level rejection): a payload whose object opens
/// with a `level` member whose quoted value names no severity level is
/// rejected with `InvalidEnumValue` carrying exactly that value,
/// whatever bytes follow the value.
pub proof fn lemma_invalid_level_rejected(s: Seq<u8>, v: Seq<u8>)
    requires
        encodable(v),
        level_of(v) is None,
        s.len() > 9 + esc_all(v).len() + 1,
        s[0] == 0x7b,
        s.subrange(1, 8) == quoted(name_level()),
        s[8] == 0x3a,
        s[9] == 0x22,
        s.subrange(10, 10 + esc_all(v).len() as int + 1) == esc_all(v) + seq![0x22u8],
    ensures
        decode(s) == Err::<LoggerConfigView, DecodeErrorView>(
            DecodeErrorView::InvalidEnumValue(v),
        ),
{
    assert(s[1] == 0x22) by {
        assert(s.subrange(1, 8)[0] == s[1]);
    }
    assert(!is_ws(s[0]) && !is_ws(s[1]));
    lemma_members_invalid_level(s, 1, empty_partial(), v);
}

/// Every byte string a quoted string body denotes is encodable, so the
/// round-trip law's premise covers everything a payload can carry.
pub proof fn lemma_string_body_encodable(s: Seq<u8>, i: int)
    requires
        0 <= i,
        string_body(s, i) is Some,
    ensures
        encodable(string_body(s, i).unwrap().0),
    decreases s.len() - i,
{
    let b = string_body(s, i).unwrap().0;
    if s[i] == 0x22 {
    } else if s[i] == 0x5c {
        lemma_string_body_encodable(s, i + 2);
        let h = unescape(s[i + 1]).unwrap();
        let t = string_body(s, i + 2).unwrap().0;
        assert forall|j: int| 0 <= j < b.len() implies encodable_byte(b[j]) by {
            if j == 0 {
                assert(b[0] == h);
            } else {
                assert(b[j] == t[j - 1]);
            }
        }
    } else {
        lemma_string_body_encodable(s, i + 1);
        let t = string_body(s, i + 1).unwrap().0;
        assert forall|j: int| 0 <= j < b.len() implies encodable_byte(b[j]) by {
            if j == 0 {
                assert(b[0] == s[i]);
            } else {
                assert(b[j] == t[j - 1]);
            }
        }
    }
}

/// Scanning members keeps the gathered path encodable: whatever the
/// scan records for `log_path` came out of a quoted string body.
proof fn lemma_members_path_encodable(s: Seq<u8>, i: int, p: PartialView)
    requires
        0 <= i,
        members(s, i, p) is Ok,
        p.log_path is Some ==> encodable(p.log_path.unwrap()),
    ensures
        members(s, i, p)->Ok_0.0.log_path is Some ==> encodable(
            members(s, i, p)->Ok_0.0.log_path.unwrap(),
        ),
    decreases s.len() - i,
{
    let kt = string_body(s, i + 1).unwrap();
    crate::grammar::lemma_string_body_bounds(s, i + 1);
    crate::grammar::lemma_skip_ws_bounds(s, kt.1);
    let j = skip_ws(s, kt.1);
    let f = field_of(kt.0).unwrap();
    crate::grammar::lemma_skip_ws_bounds(s, j + 1);
    let w = skip_ws(s, j + 1);
    let vt = member_value(s, w, f, p)->Ok_0;
    crate::grammar::lemma_member_value_bounds(s, w, f, p);
    if f == Field::LogPath {
        lemma_string_body_encodable(s, w + 1);
    }
    assert(vt.0.log_path is Some ==> encodable(vt.0.log_path.unwrap()));
    crate::grammar::lemma_skip_ws_bounds(s, vt.1);
    let k = skip_ws(s, vt.1);
    if k < s.len() && s[k] == 0x2c {
        crate::grammar::lemma_skip_ws_bounds(s, k + 1);
        lemma_members_path_encodable(s, skip_ws(s, k + 1), vt.0);
    }
}

/// LAW (range of the decoder): every configuration a payload decodes
/// to has an encodable path, so [`lemma_round_trip`] applies to it.
pub proof fn lemma_decoded_path_encodable(s: Seq<u8>)
    requires
        decode(s) is Ok,
    ensures
        encodable(decode(s)->Ok_0.log_path),
{
    let i0 = skip_ws(s, 0);
    let i1 = skip_ws(s, i0 + 1);
    if i1 < s.len() && s[i1] == 0x7d {
        assert(first_missing(empty_partial()) is Some);
    } else {
        let t = members(s, i1, empty_partial())->Ok_0;
        lemma_members_path_encodable(s, i1, empty_partial());
        assert(first_missing(t.0) is None);
    }
}

/// The canonical bytes of a boolean literal.
pub open spec fn bool_bytes(v: bool) -> Seq<u8> {
    if v {
        seq![0x74u8, 0x72, 0x75, 0x65]
    } else {
        seq![0x66u8, 0x61, 0x6c, 0x73, 0x65]
    }
}

/// The canonical bytes of a severity level's name.
pub open spec fn level_bytes(l: LoggerLevel) -> Seq<u8> {
    match l {
        LoggerLevel::Error => name_error(),
        LoggerLevel::Warning => name_warning(),
        LoggerLevel::Info => name_info(),
        LoggerLevel::Debug => name_debug(),
    }
}

/// Every level's canonical name names that level back.
pub proof fn lemma_level_roundtrip(l: LoggerLevel)
    ensures
        level_of(level_bytes(l)) == Some(l),
{
    let v = level_bytes(l);
    assert forall|j: int| 0 <= j < v.len() implies lower_seq(v)[j] == lower(v[j]) by {}
    assert(lower_seq(v) =~= v);
    assert(name_debug()[0] != name_error()[0]);
}

/// One canonical member: the quoted key, a colon, the value's bytes.
pub open spec fn member(name: Seq<u8>, value: Seq<u8>) -> Seq<u8> {
    quoted(name) + seq![0x3au8] + value
}

/// The canonical encoding of a configuration: the five members in
/// declaration order, comma-separated, inside braces, no whitespace.
pub open spec fn encode(c: LoggerConfigView) -> Seq<u8> {
    seq![0x7bu8] + member(name_log_path(), quoted(c.log_path)) + seq![0x2cu8] + member(
        name_level(),
        quoted(level_bytes(c.level)),
    ) + seq![0x2cu8] + member(name_show_level(), bool_bytes(c.show_level)) + seq![0x2cu8]
        + member(name_show_log_origin(), bool_bytes(c.show_log_origin)) + seq![0x2cu8] + member(
        name_show_thread_name(),
        bool_bytes(c.show_thread_name),
    ) + seq![0x7du8]
}

/// How the scan of one canonical string-valued member advances: from
/// the member's first byte, `members` either continues past a comma or
/// closes at a brace, with the field recorded.
proof fn lemma_member_step_string(s: Seq<u8>, i: int, p: PartialView, name: Seq<u8>, f: Field,
    v: Seq<u8>)
    requires
        0 <= i,
        plain(name),
        name.len() > 0,
        field_of(name) == Some(f),
        f == Field::LogPath || f == Field::Level,
        f == Field::Level ==> level_of(v) is Some,
        !partial_has(p, f),
        encodable(v),
        ({
            let a = i + member(name, quoted(v)).len();
            &&& a < s.len()
            &&& s.subrange(i, a) == member(name, quoted(v))
            &&& !is_ws(s[a])
            &&& (s[a] == 0x2c ==> a + 1 < s.len() && !is_ws(s[a + 1]))
        }),
    ensures
        ({
            let a = i + member(name, quoted(v)).len();
            let p2 = if f == Field::LogPath {
                PartialView { log_path: Some(v), ..p }
            } else {
                PartialView { level: Some(level_of(v).unwrap()), ..p }
            };
            &&& (s[a] == 0x2c ==> members(s, i, p) == members(s, a + 1, p2))
            &&& (s[a] == 0x7d ==> members(s, i, p) == Ok::<(PartialView, int), DecodeErrorView>(
                (p2, a + 1),
            ))
        }),
{
    lemma_esc_all_plain(name);
    assert forall|j: int| 0 <= j < name.len() implies encodable_byte(name[j]) by {}
    let m = member(name, quoted(v));
    let a = i + m.len();
    let sub = s.subrange(i, a);
    let nl = name.len() as int;
    let ql = esc_all(v).len() as int;
    assert forall|j: int| 0 <= j < m.len() implies s[i + j] == m[j] by {
        assert(sub[j] == s[i + j]);
    }
    assert(m[0] == 0x22 && s[i] == m[0]);
    assert(s.subrange(i + 1, i + nl + 2) =~= esc_all(name) + seq![0x22u8]) by {
        assert forall|j: int| 0 <= j < nl + 1 implies s.subrange(i + 1, i + nl + 2)[j] == (esc_all(
            name,
        ) + seq![0x22u8])[j] by {
            assert(s.subrange(i + 1, i + nl + 2)[j] == s[i + 1 + j]);
            assert(s[i + 1 + j] == m[1 + j]);
        }
    }
    lemma_string_body_of_escape(s, i + 1, name);
    assert(string_body(s, i + 1) == Some((name, i + nl + 2)));
    let q = i + nl + 2;
    assert(m[nl + 2] == 0x3a && s[q] == m[nl + 2]);
    assert(skip_ws(s, q) == q);
    assert(m[nl + 3] == 0x22 && s[q + 1] == m[nl + 3]);
    assert(skip_ws(s, q + 1) == q + 1);
    assert(s.subrange(q + 2, q + 2 + ql + 1) =~= esc_all(v) + seq![0x22u8]) by {
        assert forall|j: int| 0 <= j < ql + 1 implies s.subrange(q + 2, q + 2 + ql + 1)[j] == (
        esc_all(v) + seq![0x22u8])[j] by {
            assert(s.subrange(q + 2, q + 2 + ql + 1)[j] == s[q + 2 + j]);
            assert(s[q + 2 + j] == m[nl + 4 + j]);
        }
    }
    lemma_string_body_of_escape(s, q + 2, v);
    assert(string_body(s, q + 2) == Some((v, a)));
    let p2 = if f == Field::LogPath {
        PartialView { log_path: Some(v), ..p }
    } else {
        PartialView { level: Some(level_of(v).unwrap()), ..p }
    };
    assert(member_value(s, q + 1, f, p) == Ok::<(PartialView, int), DecodeErrorView>((p2, a)));
    assert(skip_ws(s, a) == a);
    if s[a] == 0x2c {
        assert(skip_ws(s, a + 1) == a + 1);
    }
}

/// Records a boolean value on the field it belongs to.
pub open spec fn with_bool(p: PartialView, f: Field, bv: bool) -> PartialView {
    match f {
        Field::ShowLevel => PartialView { show_level: Some(bv), ..p },
        Field::ShowLogOrigin => PartialView { show_log_origin: Some(bv), ..p },
        _ => PartialView { show_thread_name: Some(bv), ..p },
    }
}

/// How the scan of one canonical boolean-valued member advances.
proof fn lemma_member_step_bool(s: Seq<u8>, i: int, p: PartialView, name: Seq<u8>, f: Field,
    bv: bool)
    requires
        0 <= i,
        plain(name),
        name.len() > 0,
        field_of(name) == Some(f),
        f == Field::ShowLevel || f == Field::ShowLogOrigin || f == Field::ShowThreadName,
        !partial_has(p, f),
        ({
            let a = i + member(name, bool_bytes(bv)).len();
            &&& a < s.len()
            &&& s.subrange(i, a) == member(name, bool_bytes(bv))
            &&& !is_ws(s[a])
            &&& (s[a] == 0x2c ==> a + 1 < s.len() && !is_ws(s[a + 1]))
        }),
    ensures
        ({
            let a = i + member(name, bool_bytes(bv)).len();
            let p2 = with_bool(p, f, bv);
            &&& (s[a] == 0x2c ==> members(s, i, p) == members(s, a + 1, p2))
            &&& (s[a] == 0x7d ==> members(s, i, p) == Ok::<(PartialView, int), DecodeErrorView>(
                (p2, a + 1),
            ))
        }),
{
    lemma_esc_all_plain(name);
    assert forall|j: int| 0 <= j < name.len() implies encodable_byte(name[j]) by {}
    let m = member(name, bool_bytes(bv));
    let a = i + m.len();
    let sub = s.subrange(i, a);
    let nl = name.len() as int;
    let bl = bool_bytes(bv).len() as int;
    assert forall|j: int| 0 <= j < m.len() implies s[i + j] == m[j] by {
        assert(sub[j] == s[i + j]);
    }
    assert(m[0] == 0x22 && s[i] == m[0]);
    assert(s.subrange(i + 1, i + nl + 2) =~= esc_all(name) + seq![0x22u8]) by {
        assert forall|j: int| 0 <= j < nl + 1 implies s.subrange(i + 1, i + nl + 2)[j] == (esc_all(
            name,
        ) + seq![0x22u8])[j] by {
            assert(s.subrange(i + 1, i + nl + 2)[j] == s[i + 1 + j]);
            assert(s[i + 1 + j] == m[1 + j]);
        }
    }
    lemma_string_body_of_escape(s, i + 1, name);
    assert(string_body(s, i + 1) == Some((name, i + nl + 2)));
    let q = i + nl + 2;
    assert(m[nl + 2] == 0x3a && s[q] == m[nl + 2]);
    assert(skip_ws(s, q) == q);
    assert forall|j: int| 0 <= j < bl implies s[q + 1 + j] == bool_bytes(bv)[j] by {
        assert(s[q + 1 + j] == m[nl + 3 + j]);
    }
    assert(!is_ws(s[q + 1]));
    assert(skip_ws(s, q + 1) == q + 1);
    assert(bool_lit(s, q + 1) == Some((bv, a)));
    let p2 = with_bool(p, f, bv);
    assert(member_value(s, q + 1, f, p) == Ok::<(PartialView, int), DecodeErrorView>((p2, a)));
    assert(skip_ws(s, a) == a);
    if s[a] == 0x2c {
        assert(skip_ws(s, a + 1) == a + 1);
    }
}

/// The five members of a canonical encoding, in order.
pub open spec fn enc_member(c: LoggerConfigView, n: int) -> Seq<u8> {
    if n == 1 {
        member(name_log_path(), quoted(c.log_path))
    } else if n == 2 {
        member(name_level(), quoted(level_bytes(c.level)))
    } else if n == 3 {
        member(name_show_level(), bool_bytes(c.show_level))
    } else if n == 4 {
        member(name_show_log_origin(), bool_bytes(c.show_log_origin))
    } else {
        member(name_show_thread_name(), bool_bytes(c.show_thread_name))
    }
}

/// Where the `n`-th member starts in a canonical encoding.
pub open spec fn enc_start(c: LoggerConfigView, n: int) -> int
    decreases n,
{
    if n <= 1 {
        1
    } else {
        enc_start(c, n - 1) + enc_member(c, n - 1).len() + 1
    }
}

/// Where the `n`-th member ends in a canonical encoding.
pub open spec fn enc_end(c: LoggerConfigView, n: int) -> int {
    enc_start(c, n) + enc_member(c, n).len()
}

/// Where each canonical member lies in the encoded payload, and which
/// separator byte follows it.
proof fn lemma_encode_layout(c: LoggerConfigView)
    ensures
        encode(c).len() == enc_end(c, 5) + 1,
        encode(c)[0] == 0x7b,
        forall|n: int|
            1 <= n <= 5 ==> #[trigger] encode(c).subrange(enc_start(c, n), enc_end(c, n))
                == enc_member(c, n),
        forall|n: int| 1 <= n <= 4 ==> #[trigger] encode(c)[enc_end(c, n)] == 0x2c,
        encode(c)[enc_end(c, 5)] == 0x7d,
{
    let s = encode(c);
    let m1 = enc_member(c, 1);
    let m2 = enc_member(c, 2);
    let m3 = enc_member(c, 3);
    let m4 = enc_member(c, 4);
    let m5 = enc_member(c, 5);
    let i1 = enc_start(c, 1);
    let a1 = enc_end(c, 1);
    let i2 = enc_start(c, 2);
    let a2 = enc_end(c, 2);
    let i3 = enc_start(c, 3);
    let a3 = enc_end(c, 3);
    let i4 = enc_start(c, 4);
    let a4 = enc_end(c, 4);
    let i5 = enc_start(c, 5);
    let a5 = enc_end(c, 5);
    assert(s.len() == a5 + 1);
    assert(s[0] == 0x7b);
    assert(s[a1] == 0x2c && s[a2] == 0x2c && s[a3] == 0x2c && s[a4] == 0x2c && s[a5] == 0x7d);
    assert(s.subrange(i1, a1) =~= m1) by {
        assert forall|j: int| 0 <= j < m1.len() implies s.subrange(i1, a1)[j] == m1[j] by {
            assert(s.subrange(i1, a1)[j] == s[i1 + j]);
        }
    }
    assert(s.subrange(i2, a2) =~= m2) by {
        assert forall|j: int| 0 <= j < m2.len() implies s.subrange(i2, a2)[j] == m2[j] by {
            assert(s.subrange(i2, a2)[j] == s[i2 + j]);
        }
    }
    assert(s.subrange(i3, a3) =~= m3) by {
        assert forall|j: int| 0 <= j < m3.len() implies s.subrange(i3, a3)[j] == m3[j] by {
            assert(s.subrange(i3, a3)[j] == s[i3 + j]);
        }
    }
    assert(s.subrange(i4, a4) =~= m4) by {
        assert forall|j: int| 0 <= j < m4.len() implies s.subrange(i4, a4)[j] == m4[j] by {
            assert(s.subrange(i4, a4)[j] == s[i4 + j]);
        }
    }
    assert(s.subrange(i5, a5) =~= m5) by {
        assert forall|j: int| 0 <= j < m5.len() implies s.subrange(i5, a5)[j] == m5[j] by {
            assert(s.subrange(i5, a5)[j] == s[i5 + j]);
        }
    }
}

/// The scan state after all five fields of `c` have been gathered.
pub open spec fn full_partial(c: LoggerConfigView) -> PartialView {
    PartialView {
        log_path: Some(c.log_path),
        level: Some(c.level),
        show_level: Some(c.show_level),
        show_log_origin: Some(c.show_log_origin),
        show_thread_name: Some(c.show_thread_name),
    }
}

/// Scanning the members of a canonical encoding gathers exactly the
/// encoded fields and ends just past the closing brace.
#[verifier::rlimit(100)]
proof fn lemma_encode_members(c: LoggerConfigView)
    requires
        encodable(c.log_path),
    ensures
        members(encode(c), 1, empty_partial()) == Ok::<(PartialView, int), DecodeErrorView>(
            (full_partial(c), enc_end(c, 5) + 1),
        ),
{
    let s = encode(c);
    let m1 = enc_member(c, 1);
    let m2 = enc_member(c, 2);
    let m3 = enc_member(c, 3);
    let m4 = enc_member(c, 4);
    let m5 = enc_member(c, 5);
    let i1 = enc_start(c, 1);
    let a1 = enc_end(c, 1);
    let i2 = enc_start(c, 2);
    let a2 = enc_end(c, 2);
    let i3 = enc_start(c, 3);
    let a3 = enc_end(c, 3);
    let i4 = enc_start(c, 4);
    let a4 = enc_end(c, 4);
    let i5 = enc_start(c, 5);
    let a5 = enc_end(c, 5);
    lemma_encode_layout(c);
    assert(s.subrange(i1, a1) == m1 && s.subrange(i2, a2) == m2 && s.subrange(i3, a3) == m3
        && s.subrange(i4, a4) == m4 && s.subrange(i5, a5) == m5);
    assert(i2 == a1 + 1 && i3 == a2 + 1 && i4 == a3 + 1 && i5 == a4 + 1);
    assert(plain(name_log_path()) && plain(name_level()) && plain(name_show_level()) && plain(
        name_show_log_origin(),
    ) && plain(name_show_thread_name()));
    lemma_level_roundtrip(c.level);
    assert(plain(level_bytes(c.level)));
    assert forall|j: int| 0 <= j < level_bytes(c.level).len() implies encodable_byte(
        level_bytes(c.level)[j],
    ) by {}
    let p0 = empty_partial();
    let p1 = PartialView { log_path: Some(c.log_path), ..p0 };
    let p2 = PartialView { level: Some(c.level), ..p1 };
    let p3 = with_bool(p2, Field::ShowLevel, c.show_level);
    let p4 = with_bool(p3, Field::ShowLogOrigin, c.show_log_origin);
    let p5 = with_bool(p4, Field::ShowThreadName, c.show_thread_name);
    assert(s[i1] == 0x22 && s[i2] == 0x22 && s[i3] == 0x22 && s[i4] == 0x22 && s[i5] == 0x22);
    lemma_member_step_string(s, i1, p0, name_log_path(), Field::LogPath, c.log_path);
    assert(members(s, i1, p0) == members(s, i2, p1));
    lemma_member_step_string(s, i2, p1, name_level(), Field::Level, level_bytes(c.level));
    assert(members(s, i2, p1) == members(s, i3, p2));
    lemma_member_step_bool(s, i3, p2, name_show_level(), Field::ShowLevel, c.show_level);
    assert(members(s, i3, p2) == members(s, i4, p3));
    lemma_member_step_bool(s, i4, p3, name_show_log_origin(), Field::ShowLogOrigin,
        c.show_log_origin);
    assert(members(s, i4, p3) == members(s, i5, p4));
    lemma_member_step_bool(s, i5, p4, name_show_thread_name(), Field::ShowThreadName,
        c.show_thread_name);
    assert(members(s, i5, p4) == Ok::<(PartialView, int), DecodeErrorView>((p5, a5 + 1)));
    assert(p5 == full_partial(c));
}

/// LAW (round-trip fidelity): the canonical encoding of any
/// configuration whose path is made of encodable bytes — exactly the
/// bytes a quoted string can denote — decodes back to that
/// configuration, field by field.
pub proof fn lemma_round_trip(c: LoggerConfigView)
    requires
        encodable(c.log_path),
    ensures
        decode(encode(c)) == Ok::<LoggerConfigView, DecodeErrorView>(c),
{
    let s = encode(c);
    let a5 = enc_end(c, 5);
    let p5 = full_partial(c);
    lemma_encode_layout(c);
    lemma_encode_members(c);
    assert(s[1] == 0x22) by {
        assert(s.subrange(enc_start(c, 1), enc_end(c, 1)) == enc_member(c, 1));
        assert(s.subrange(enc_start(c, 1), enc_end(c, 1))[0] == s[1]);
        assert(enc_member(c, 1)[0] == 0x22);
    }
    assert(skip_ws(s, 0) == 0);
    assert(skip_ws(s, 1) == 1);
    assert(first_missing(p5) is None);
    assert(skip_ws(s, a5 + 1) == a5 + 1);
    assert(finish(s, a5 + 1, p5) == Ok::<LoggerConfigView, DecodeErrorView>(c));
}

} // verus!
