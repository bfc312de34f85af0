//! Reparsing canonical prints.
//!
//! A canonical print writes a number as its digit slice, a string between
//! quotes, structs as `(v, v)` and `{ f: v }` groups, and an enum as its
//! variant and body. The lemmas here prove the round trip for every value:
//! reparsing the canonical print of any well-formed value, wherever it
//! stands in a document whose next byte ends it, gives exactly that value
//! back. The round trip of whole entities and scenes, whose type paths are
//! kept as raw slices, is not proved here; a lemma at the end covers the
//! whitespace in front of a document.

use vstd::prelude::*;

use crate::ast::SpecEnum;
use crate::ast::SpecField;
use crate::ast::SpecStruct;
use crate::ast::SpecValue;
use crate::from_bsn::is_digits;
use crate::parse_spec::is_alnum;
use crate::parse_spec::is_alpha;
use crate::parse_spec::is_number_end;
use crate::parse_spec::spec_digits_end;
use crate::parse_spec::spec_ident_end;
use crate::parse_spec::spec_parse_ident;
use crate::parse_spec::spec_parse_enum;
use crate::parse_spec::spec_parse_field;
use crate::parse_spec::spec_parse_fields_rest;
use crate::parse_spec::spec_parse_string;
use crate::parse_spec::spec_parse_struct;
use crate::parse_spec::spec_parse_tuple_rest;
use crate::parse_spec::spec_parse_value;
use crate::parse_spec::spec_parse_scene;
use crate::parse_spec::spec_quote_end;
use crate::cursor::spec_skip_ws;

verus! {

/// The canonical print of a string value: the bytes between quotes.
pub open spec fn print_string(b: Seq<u8>) -> Seq<u8> {
    seq![34u8] + b + seq![34u8]
}

/// The canonical print of a number value: the digit slice itself.
pub open spec fn print_number(d: Seq<u8>) -> Seq<u8> {
    d
}

/// A digit scan stops exactly at the end of a digit region.
proof fn lemma_digits_end_region(s: Seq<u8>, i: int, j: int)
    requires
        0 <= i <= j <= s.len(),
        forall|k: int| i <= k < j ==> crate::parse_spec::is_digit(#[trigger] s[k]),
        j == s.len() || !crate::parse_spec::is_digit(s[j]),
    ensures
        spec_digits_end(s, i) == j,
    decreases j - i,
{
    if i < j {
        lemma_digits_end_region(s, i + 1, j);
    }
}

/// A quote scan stops exactly at the first quote.
proof fn lemma_quote_end_region(s: Seq<u8>, i: int, j: int)
    requires
        0 <= i <= j < s.len(),
        forall|k: int| i <= k < j ==> #[trigger] s[k] != 34,
        s[j] == 34,
    ensures
        spec_quote_end(s, i) == j,
    decreases j - i,
{
    if i < j {
        lemma_quote_end_region(s, i + 1, j);
    }
}

/// An identifier scan stops exactly at the end of an alphanumeric region.
proof fn lemma_ident_end_region(s: Seq<u8>, i: int, j: int)
    requires
        0 <= i <= j <= s.len(),
        forall|k: int| i <= k < j ==> is_alnum(#[trigger] s[k]),
        j == s.len() || !is_alnum(s[j]),
    ensures
        spec_ident_end(s, i) == j,
    decreases j - i,
{
    if i < j {
        lemma_ident_end_region(s, i + 1, j);
    }
}

/// Reparsing the canonical print of a string value gives the same bytes
/// back, byte for byte, whatever follows the closing quote.
pub proof fn lemma_string_round_trip(b: Seq<u8>, rest: Seq<u8>)
    requires
        forall|k: int| 0 <= k < b.len() ==> #[trigger] b[k] != 34,
    ensures
        spec_parse_string(print_string(b) + rest, 0) == Ok::<(Seq<u8>, int), crate::parse_spec::ParseSceneError>((b, b.len() as int + 2)),
{
    let s = print_string(b) + rest;
    assert(s[0] == 34);
    assert(s[b.len() as int + 1] == 34);
    assert forall|k: int| 1 <= k < b.len() as int + 1 implies #[trigger] s[k] != 34 by {
        assert(s[k] == b[k - 1]);
    }
    lemma_quote_end_region(s, 1, b.len() as int + 1);
    assert(s.subrange(1, b.len() as int + 1) =~= b);
}

/// Reparsing the canonical print of a number value gives the same digit
/// slice back, untouched, whenever a token-ending byte follows.
pub proof fn lemma_number_round_trip(d: Seq<u8>, rest: Seq<u8>)
    requires
        is_digits(d),
        d.len() > 0,
        rest.len() > 0,
        is_number_end(rest[0]),
    ensures
        spec_parse_value(print_number(d) + rest, 0) == Ok::<(SpecValue, int), crate::parse_spec::ParseSceneError>((SpecValue::Number(d), d.len() as int)),
{
    let s = print_number(d) + rest;
    assert forall|k: int| 0 <= k < d.len() implies crate::parse_spec::is_digit(
        #[trigger] s[k],
    ) by {
        assert(s[k] == d[k]);
    }
    assert(s[d.len() as int] == rest[0]);
    assert(!crate::parse_spec::is_digit(s[d.len() as int]));
    lemma_digits_end_region(s, 0, d.len() as int);
    assert(s.subrange(0, d.len() as int) =~= d);
    assert(crate::parse_spec::is_digit(s[0]));
}

/// Reparsing an identifier gives the identifier back, whatever follows it,
/// as long as what follows does not extend it.
pub proof fn lemma_ident_round_trip(n: Seq<u8>, rest: Seq<u8>)
    requires
        n.len() > 0,
        is_alpha(n[0]),
        forall|k: int| 0 <= k < n.len() ==> is_alnum(#[trigger] n[k]),
        rest.len() == 0 || !is_alnum(rest[0]),
    ensures
        spec_parse_ident(n + rest, 0) == Ok::<(Seq<u8>, int), crate::parse_spec::ParseSceneError>((n, n.len() as int)),
{
    let s = n + rest;
    assert(s[0] == n[0]);
    assert forall|k: int| 1 <= k < n.len() implies is_alnum(#[trigger] s[k]) by {
        assert(s[k] == n[k]);
    }
    if rest.len() > 0 {
        assert(s[n.len() as int] == rest[0]);
    }
    lemma_ident_end_region(s, 1, n.len() as int);
    assert(s.subrange(0, n.len() as int) =~= n);
}

/// A run of whitespace in front of the document does not change what a
/// scene parses to: parsing from anywhere inside the run gives exactly the
/// parse from its end.
pub proof fn lemma_scene_ignores_leading_whitespace(s: Seq<u8>, i: int)
    ensures
        spec_parse_scene(s, i) == spec_parse_scene(s, spec_skip_ws(s, i)),
{
    lemma_skip_ws_idempotent_pub(s, i);
}

// ---------------------------------------------------------------------------
// The round trip for whole values: reparsing the canonical print of any
// well-formed value gives that value back.

/// A value a parse could have produced: digits are digits, strings hold no
/// quote, names are identifiers, field names are lowercase.
pub open spec fn wf_value(v: SpecValue) -> bool
    decreases v,
{
    match v {
        SpecValue::Number(d) => d.len() > 0 && is_digits(d),
        SpecValue::String(b) => forall|k: int| 0 <= k < b.len() ==> #[trigger] b[k] != 34,
        SpecValue::Struct(st) => wf_struct(st),
        SpecValue::Enum(en) => wf_enum(en),
    }
}

pub open spec fn wf_struct(st: SpecStruct) -> bool
    decreases st,
{
    match st {
        SpecStruct::Tuple(vs) => wf_values(vs),
        SpecStruct::NamedFields(fs) => wf_fields(fs),
    }
}

pub open spec fn wf_values(vs: Seq<SpecValue>) -> bool
    decreases vs,
{
    if vs.len() == 0 {
        true
    } else {
        wf_value(vs[0]) && wf_values(vs.drop_first())
    }
}

pub open spec fn wf_fields(fs: Seq<SpecField>) -> bool
    decreases fs,
{
    if fs.len() == 0 {
        true
    } else {
        wf_field(fs[0]) && wf_fields(fs.drop_first())
    }
}

pub open spec fn wf_field(f: SpecField) -> bool
    decreases f,
{
    wf_field_name(f.name) && wf_value(f.value)
}

pub open spec fn wf_enum(en: SpecEnum) -> bool
    decreases en,
{
    wf_ident(en.variant) && wf_struct(en.struct_type)
}

/// A well-formed identifier: an alphabetic byte, then alphanumerics.
pub open spec fn wf_ident(n: Seq<u8>) -> bool {
    n.len() > 0 && is_alpha(n[0]) && (forall|k: int| 0 <= k < n.len() ==> is_alnum(#[trigger] n[k]))
}

/// A well-formed field name: a lowercase alphanumeric byte, then lowercase
/// alphanumerics and underscores.
pub open spec fn wf_field_name(n: Seq<u8>) -> bool {
    n.len() > 0 && crate::parse_spec::is_field_byte(n[0]) && (forall|k: int|
        0 <= k < n.len() ==> (crate::parse_spec::is_field_byte(#[trigger] n[k]) || n[k] == 95))
}

/// The canonical print of a value.
pub open spec fn print_value(v: SpecValue) -> Seq<u8>
    decreases v,
{
    match v {
        SpecValue::Number(d) => d,
        SpecValue::String(b) => seq![34u8] + b + seq![34u8],
        SpecValue::Struct(st) => print_struct(st),
        SpecValue::Enum(en) => print_enum(en),
    }
}

/// The canonical print of a struct body: `(v, v)` or `{ f f }`.
pub open spec fn print_struct(st: SpecStruct) -> Seq<u8>
    decreases st,
{
    match st {
        SpecStruct::Tuple(vs) => seq![40u8] + print_tuple_first(vs),
        SpecStruct::NamedFields(fs) => seq![123u8] + print_nf_tail(fs),
    }
}

/// After the opening parenthesis: the first value and the rest, or the
/// closing parenthesis alone.
pub open spec fn print_tuple_first(vs: Seq<SpecValue>) -> Seq<u8>
    decreases vs, 1int,
{
    if vs.len() == 0 {
        seq![41u8]
    } else {
        print_value(vs[0]) + print_tuple_tail(vs.drop_first())
    }
}

/// After a value: a comma, a space and the next value, or the closing
/// parenthesis.
pub open spec fn print_tuple_tail(vs: Seq<SpecValue>) -> Seq<u8>
    decreases vs, 0int,
{
    if vs.len() == 0 {
        seq![41u8]
    } else {
        seq![44u8, 32u8] + print_value(vs[0]) + print_tuple_tail(vs.drop_first())
    }
}

/// After the opening brace: each field after a space, then a space and the
/// closing brace.
pub open spec fn print_nf_tail(fs: Seq<SpecField>) -> Seq<u8>
    decreases fs,
{
    if fs.len() == 0 {
        seq![32u8, 125u8]
    } else {
        seq![32u8] + print_field(fs[0]) + print_nf_tail(fs.drop_first())
    }
}

/// The canonical print of a named field: the name, a colon, a space, the
/// value.
pub open spec fn print_field(f: SpecField) -> Seq<u8>
    decreases f,
{
    f.name + seq![58u8, 32u8] + print_value(f.value)
}

/// The canonical print of an enum: the variant, then its body unless the
/// body is the empty tuple.
pub open spec fn print_enum(en: SpecEnum) -> Seq<u8>
    decreases en,
{
    if en.struct_type == SpecStruct::Tuple(Seq::<SpecValue>::empty()) {
        en.variant
    } else {
        en.variant + print_struct(en.struct_type)
    }
}

/// A spot where a value may end: a token-ending byte stands there, and the
/// next non-whitespace byte, if any, opens no struct body.
pub open spec fn value_ender(s: Seq<u8>, j: int) -> bool {
    &&& 0 <= j < s.len()
    &&& is_number_end(s[j])
    &&& (spec_skip_ws(s, j) >= s.len() || (s[spec_skip_ws(s, j)] != 123 && s[spec_skip_ws(s, j)]
        != 40))
}

/// The first byte of a printed value is never whitespace, a separator or a
/// closing delimiter, and never extends an identifier scan backwards.
proof fn lemma_print_value_first_byte(v: SpecValue)
    requires
        wf_value(v),
    ensures
        print_value(v).len() > 0,
        !crate::cursor::is_ws(print_value(v)[0]),
        print_value(v)[0] != 41,
        print_value(v)[0] != 125,
        print_value(v)[0] != 44,
        print_value(v)[0] != 58,
    decreases v,
{
    match v {
        SpecValue::Number(d) => {
            assert(crate::parse_spec::is_digit(d[0]));
        },
        SpecValue::String(b) => {
            assert(print_value(v)[0] == 34);
        },
        SpecValue::Struct(st) => {
            match st {
                SpecStruct::Tuple(vs) => {
                    assert(print_value(v)[0] == 40);
                },
                SpecStruct::NamedFields(fs) => {
                    assert(print_value(v)[0] == 123);
                },
            }
        },
        SpecValue::Enum(en) => {
            assert(is_alpha(en.variant[0]));
            assert(print_value(v)[0] == en.variant[0]);
        },
    }
}

/// A field-name scan stops exactly at the colon after a well-formed name
/// region.
proof fn lemma_field_name_end_region(s: Seq<u8>, i: int, j: int)
    requires
        0 <= i <= j < s.len(),
        forall|k: int|
            i <= k < j ==> (crate::parse_spec::is_field_byte(#[trigger] s[k]) || s[k] == 95),
        s[j] == 58,
    ensures
        crate::parse_spec::spec_field_name_end(s, i) == Ok::<int, crate::parse_spec::ParseSceneError>(j),
    decreases j - i,
{
    if i < j {
        lemma_field_name_end_region(s, i + 1, j);
    }
}

/// One step of whitespace skipping over a single space.
proof fn lemma_skip_one_space(s: Seq<u8>, j: int)
    requires
        0 <= j < s.len(),
        s[j] == 32,
        j + 1 >= s.len() || !crate::cursor::is_ws(s[j + 1]),
    ensures
        spec_skip_ws(s, j) == j + 1,
{
    assert(spec_skip_ws(s, j + 1) == j + 1);
}

/// Skipping whitespace from a non-whitespace byte stays put.
proof fn lemma_skip_ws_none(s: Seq<u8>, j: int)
    requires
        0 <= j < s.len() ==> !crate::cursor::is_ws(s[j]),
        0 <= j,
    ensures
        spec_skip_ws(s, j) == j,
{
}

/// Reparsing the canonical print of a well-formed value at any spot whose
/// follower ends the value gives that value back.
pub proof fn lemma_value_round_trip(s: Seq<u8>, i: int, v: SpecValue)
    requires
        0 <= i,
        i + print_value(v).len() < s.len(),
        s.subrange(i, i + print_value(v).len() as int) == print_value(v),
        wf_value(v),
        value_ender(s, i + print_value(v).len() as int),
    ensures
        spec_parse_value(s, i) matches Ok(r) && r.0 == v && i < r.1 <= spec_skip_ws(
            s,
            i + print_value(v).len() as int,
        ) && spec_skip_ws(s, r.1) == spec_skip_ws(s, i + print_value(v).len() as int),
    decreases v, 3int,
{
    let pv = print_value(v);
    let end = i + pv.len() as int;
    assert forall|k: int| 0 <= k < pv.len() implies #[trigger] s[i + k] == pv[k] by {
        assert(s.subrange(i, end)[k] == s[i + k]);
    }
    crate::parse_lemmas::lemma_skip_ws_bounds(s, end);
    match v {
        SpecValue::Number(d) => {
            assert(pv =~= d);
            assert(s[i + 0] == pv[0]);
            assert(s[i] == d[0]);
            assert forall|k: int| i <= k < end implies crate::parse_spec::is_digit(
                #[trigger] s[k],
            ) by {
                assert(s[i + (k - i)] == pv[k - i]);
                assert(crate::parse_spec::is_digit(d[k - i]));
            }
            assert(!crate::parse_spec::is_digit(s[end]));
            lemma_digits_end_region(s, i, end);
            assert(s.subrange(i, end) =~= d);
        },
        SpecValue::String(b) => {
            assert(s[i + 0] == pv[0]);
            assert(s[i] == 34);
            assert(s[i + (pv.len() - 1)] == pv[pv.len() - 1]);
            assert(pv[pv.len() - 1] == 34);
            assert(s[end - 1] == 34);
            assert forall|k: int| i + 1 <= k < end - 1 implies #[trigger] s[k] != 34 by {
                assert(s[i + (k - i)] == pv[k - i]);
                assert(pv[k - i] == b[k - i - 1]);
            }
            lemma_quote_end_region(s, i + 1, end - 1);
            assert forall|m: int| 0 <= m < b.len() implies s.subrange(i + 1, end - 1)[m]
                == b[m] by {
                assert(s[i + (1 + m)] == pv[1 + m]);
                assert(pv[1 + m] == b[m]);
            }
            assert(s.subrange(i + 1, end - 1) =~= b);
        },
        SpecValue::Struct(st) => {
            lemma_struct_round_trip(s, i, st);
        },
        SpecValue::Enum(en) => {
            lemma_enum_round_trip(s, i, en);
            assert(is_alpha(s[i]));
            assert(!crate::parse_spec::is_digit(s[i]));
            assert(s[i] != 34 && s[i] != 123 && s[i] != 40);
        },
    }
}

/// Reparsing the canonical print of a well-formed struct body gives it
/// back, ending exactly at its closing delimiter.
pub proof fn lemma_struct_round_trip(s: Seq<u8>, i: int, st: SpecStruct)
    requires
        0 <= i,
        i + print_struct(st).len() <= s.len(),
        s.subrange(i, i + print_struct(st).len() as int) == print_struct(st),
        wf_struct(st),
    ensures
        spec_parse_struct(s, i) == Ok::<(SpecStruct, int), crate::parse_spec::ParseSceneError>(
            (st, i + print_struct(st).len() as int),
        ),
    decreases st, 2int,
{
    let ps = print_struct(st);
    let end = i + ps.len() as int;
    assert forall|k: int| 0 <= k < ps.len() implies #[trigger] s[i + k] == ps[k] by {
        assert(s.subrange(i, end)[k] == s[i + k]);
    }
    match st {
        SpecStruct::Tuple(vs) => {
            assert(s[i + 0] == ps[0]);
            assert(s[i] == 40);
            if vs.len() == 0 {
                assert(s[i + 1] == ps[1]);
                assert(s[i + 1] == 41);
                lemma_skip_ws_none(s, i + 1);
                assert(vs =~= Seq::<SpecValue>::empty());
                assert(st == SpecStruct::Tuple(Seq::<SpecValue>::empty()));
            } else {
                let pv0 = print_value(vs[0]);
                let ptail = print_tuple_tail(vs.drop_first());
                let tf = print_tuple_first(vs);
                assert(tf == pv0 + ptail);
                assert(ps == seq![40u8] + tf);
                assert forall|k: int| 0 <= k < pv0.len() implies s.subrange(
                    i + 1,
                    i + 1 + pv0.len() as int,
                )[k] == pv0[k] by {
                    assert(tf[k] == pv0[k]);
                    assert(ps[1 + k] == tf[k]);
                    assert(s[i + (1 + k)] == ps[1 + k]);
                }
                assert(s.subrange(i + 1, i + 1 + pv0.len() as int) =~= pv0);
                let end0 = i + 1 + pv0.len() as int;
                assert(ptail.len() >= 1);
                assert(ps[1 + pv0.len() as int] == tf[pv0.len() as int]);
                assert(tf[pv0.len() as int] == ptail[0]);
                assert(s[i + (1 + pv0.len() as int)] == ps[1 + pv0.len() as int]);
                assert(s[end0] == ptail[0]);
                assert(ptail[0] == 44 || ptail[0] == 41) by {
                    if vs.drop_first().len() > 0 {
                        assert(ptail[0] == 44);
                    } else {
                        assert(ptail[0] == 41);
                    }
                }
                lemma_skip_ws_none(s, end0);
                lemma_print_value_first_byte(vs[0]);
                assert(wf_value(vs[0]));
                assert(end0 < s.len());
                lemma_value_round_trip(s, i + 1, vs[0]);
                lemma_skip_ws_none(s, i + 1);
                let j0 = match spec_parse_value(s, i + 1) {
                    Ok(r) => r.1,
                    Err(_) => 0int,
                };
                assert(spec_skip_ws(s, j0) == end0);
                assert(j0 <= end0);
                crate::parse_lemmas::lemma_value_ok(s, i + 1);
                assert forall|k: int| 0 <= k < ptail.len() implies s.subrange(
                    end0,
                    end0 + ptail.len() as int,
                )[k] == ptail[k] by {
                    assert(tf[pv0.len() as int + k] == ptail[k]);
                    assert(ps[1 + (pv0.len() as int + k)] == tf[pv0.len() as int + k]);
                    assert(s[i + (1 + (pv0.len() as int + k))] == ps[1 + (pv0.len() as int + k)]);
                }
                assert(s.subrange(end0, end0 + ptail.len() as int) =~= ptail);
                lemma_tuple_tail_round_trip(s, j0, end0, vs.drop_first());
                assert(seq![vs[0]] + vs.drop_first() =~= vs);
                assert(print_tuple_first(vs).len() == pv0.len() + ptail.len());
            }
        },
        SpecStruct::NamedFields(fs) => {
            assert(s[i + 0] == ps[0]);
            assert(s[i] == 123);
            let pt = print_nf_tail(fs);
            assert(ps == seq![123u8] + pt);
            assert forall|k: int| 0 <= k < pt.len() implies s.subrange(
                i + 1,
                i + 1 + pt.len() as int,
            )[k] == pt[k] by {
                assert(ps[1 + k] == pt[k]);
                assert(s[i + (1 + k)] == ps[1 + k]);
            }
            assert(s.subrange(i + 1, i + 1 + pt.len() as int) =~= pt);
            crate::parse_lemmas::lemma_skip_ws_bounds(s, i + 1);
            lemma_nf_tail_round_trip(s, i + 1, i + 1, fs);
        },
    }
}

/// Reparsing a printed tuple tail from any spot that skips to its start.
proof fn lemma_tuple_tail_round_trip(s: Seq<u8>, q: int, t: int, vs: Seq<SpecValue>)
    requires
        0 <= q <= t,
        spec_skip_ws(s, q) == t,
        t + print_tuple_tail(vs).len() <= s.len(),
        s.subrange(t, t + print_tuple_tail(vs).len() as int) == print_tuple_tail(vs),
        wf_values(vs),
    ensures
        spec_parse_tuple_rest(s, q, false) == Ok::<
            (Seq<SpecValue>, int),
            crate::parse_spec::ParseSceneError,
        >((vs, t + print_tuple_tail(vs).len() as int)),
    decreases vs, 1int,
{
    let pt = print_tuple_tail(vs);
    let end = t + pt.len() as int;
    assert forall|k: int| 0 <= k < pt.len() implies #[trigger] s[t + k] == pt[k] by {
        assert(s.subrange(t, end)[k] == s[t + k]);
    }
    crate::parse_lemmas::lemma_skip_ws_bounds(s, q);
    if vs.len() == 0 {
        assert(s[t + 0] == pt[0]);
        assert(s[t] == 41);
        assert(vs =~= Seq::<SpecValue>::empty());
    } else {
        let pv0 = print_value(vs[0]);
        let ptail = print_tuple_tail(vs.drop_first());
        assert(pt == seq![44u8, 32u8] + pv0 + ptail);
        assert(s[t + 0] == pt[0]);
        assert(s[t] == 44);
        assert(s[t + 1] == pt[1]);
        assert(s[t + 1] == 32);
        lemma_print_value_first_byte(vs[0]);
        assert(pt[2int] == pv0[0]);
        assert(s[t + 2] == pt[2]);
        assert(s[t + 2] == pv0[0]);
        lemma_skip_one_space(s, t + 1);
        assert(spec_skip_ws(s, t + 1) == t + 2);
        assert forall|k: int| 0 <= k < pv0.len() implies s.subrange(
            t + 2,
            t + 2 + pv0.len() as int,
        )[k] == pv0[k] by {
            assert(pt[2 + k] == pv0[k]);
            assert(s[t + (2 + k)] == pt[2 + k]);
        }
        assert(s.subrange(t + 2, t + 2 + pv0.len() as int) =~= pv0);
        let end0 = t + 2 + pv0.len() as int;
        assert(ptail.len() >= 1);
        assert(pt[2 + (pv0.len() as int + 0)] == ptail[0]);
        assert(s[t + (2 + (pv0.len() as int + 0))] == pt[2 + (pv0.len() as int + 0)]);
        assert(s[end0] == ptail[0]);
        assert(ptail[0] == 44 || ptail[0] == 41) by {
            if vs.drop_first().len() > 0 {
                assert(ptail[0] == 44);
            } else {
                assert(ptail[0] == 41);
            }
        }
        lemma_skip_ws_none(s, end0);
        assert(wf_value(vs[0]));
        assert(end0 < s.len());
        lemma_value_round_trip(s, t + 2, vs[0]);
        crate::parse_lemmas::lemma_value_ok(s, t + 2);
        let j0 = match spec_parse_value(s, t + 2) {
            Ok(r) => r.1,
            Err(_) => 0int,
        };
        assert(spec_skip_ws(s, j0) == end0);
        assert(j0 <= end0);
        assert forall|k: int| 0 <= k < ptail.len() implies s.subrange(
            end0,
            end0 + ptail.len() as int,
        )[k] == ptail[k] by {
            assert(pt[2 + (pv0.len() as int + k)] == ptail[k]);
            assert(s[t + (2 + (pv0.len() as int + k))] == pt[2 + (pv0.len() as int + k)]);
        }
        assert(s.subrange(end0, end0 + ptail.len() as int) =~= ptail);
        lemma_tuple_tail_round_trip(s, j0, end0, vs.drop_first());
        assert(seq![vs[0]] + vs.drop_first() =~= vs);
    }
}

/// Reparsing a printed named-field tail from any spot that skips into it.
proof fn lemma_nf_tail_round_trip(s: Seq<u8>, q: int, t: int, fs: Seq<SpecField>)
    requires
        0 <= q,
        spec_skip_ws(s, q) == spec_skip_ws(s, t),
        q <= spec_skip_ws(s, t),
        t + print_nf_tail(fs).len() <= s.len(),
        0 <= t,
        s.subrange(t, t + print_nf_tail(fs).len() as int) == print_nf_tail(fs),
        wf_fields(fs),
    ensures
        spec_parse_fields_rest(s, q) == Ok::<
            (Seq<SpecField>, int),
            crate::parse_spec::ParseSceneError,
        >((fs, t + print_nf_tail(fs).len() as int)),
    decreases fs, 1int,
{
    let pt = print_nf_tail(fs);
    let end = t + pt.len() as int;
    assert forall|k: int| 0 <= k < pt.len() implies #[trigger] s[t + k] == pt[k] by {
        assert(s.subrange(t, end)[k] == s[t + k]);
    }
    assert(s[t + 0] == pt[0]);
    assert(s[t] == 32);
    if fs.len() == 0 {
        assert(s[t + 1] == pt[1]);
        assert(s[t + 1] == 125);
        lemma_skip_one_space(s, t);
        assert(spec_skip_ws(s, q) == t + 1);
        assert(fs =~= Seq::<SpecField>::empty());
    } else {
        let f0 = fs[0];
        let pf = print_field(f0);
        let ptail = print_nf_tail(fs.drop_first());
        assert(pt == seq![32u8] + pf + ptail);
        assert(wf_field(f0));
        assert(f0.name.len() > 0);
        lemma_print_field_first_byte(f0);
        assert(pt[1int] == pf[0]);
        assert(s[t + 1] == pt[1]);
        assert(s[t + 1] == pf[0]);
        assert(pf[0] == f0.name[0]);
        assert(crate::parse_spec::is_field_byte(pf[0]));
        assert(!crate::cursor::is_ws(s[t + 1]));
        lemma_skip_one_space(s, t);
        assert(spec_skip_ws(s, q) == t + 1);
        assert forall|k: int| 0 <= k < pf.len() implies s.subrange(
            t + 1,
            t + 1 + pf.len() as int,
        )[k] == pf[k] by {
            assert(pt[1 + k] == pf[k]);
            assert(s[t + (1 + k)] == pt[1 + k]);
        }
        assert(s.subrange(t + 1, t + 1 + pf.len() as int) =~= pf);
        let end0 = t + 1 + pf.len() as int;
        assert(ptail.len() >= 2) by {
            if fs.drop_first().len() > 0 {
                assert(wf_fields(fs.drop_first()));
                assert(wf_field(fs.drop_first()[0]));
                assert(fs.drop_first()[0].name.len() > 0);
                assert(print_field(fs.drop_first()[0]).len() >= 1);
            }
        }
        assert(pt[1 + (pf.len() as int + 0)] == ptail[0]);
        assert(s[t + (1 + (pf.len() as int + 0))] == pt[1 + (pf.len() as int + 0)]);
        assert(s[end0] == ptail[0]);
        assert(ptail[0] == 32);
        assert(end0 < s.len());
        assert(is_number_end(s[end0]));
        assert forall|k: int| 0 <= k < ptail.len() implies s.subrange(
            end0,
            end0 + ptail.len() as int,
        )[k] == ptail[k] by {
            assert(pt[1 + (pf.len() as int + k)] == ptail[k]);
            assert(s[t + (1 + (pf.len() as int + k))] == pt[1 + (pf.len() as int + k)]);
        }
        assert(s.subrange(end0, end0 + ptail.len() as int) =~= ptail);
        lemma_ender_through_space(s, end0, f0, fs.drop_first(), t, pt);
        lemma_field_round_trip(s, t + 1, f0);
        crate::parse_lemmas::lemma_field_ok(s, t + 1);
        let j0 = match spec_parse_field(s, t + 1) {
            Ok(r) => r.1,
            Err(_) => 0int,
        };
        assert(spec_skip_ws(s, j0) == spec_skip_ws(s, end0));
        assert(j0 <= spec_skip_ws(s, end0));
        lemma_nf_tail_round_trip(s, j0, end0, fs.drop_first());
        assert(seq![fs[0]] + fs.drop_first() =~= fs);
    }
}

/// After a printed field, the separating space is followed by the next
/// field's name or the closing brace, so the spot ends a value.
proof fn lemma_ender_through_space(
    s: Seq<u8>,
    end0: int,
    f0: SpecField,
    rest: Seq<SpecField>,
    t: int,
    pt: Seq<u8>,
)
    requires
        0 <= end0,
        end0 + print_nf_tail(rest).len() <= s.len(),
        s.subrange(end0, end0 + print_nf_tail(rest).len() as int) == print_nf_tail(rest),
        wf_fields(rest),
    ensures
        value_ender(s, end0),
{
    let ptail = print_nf_tail(rest);
    assert(ptail.len() >= 2) by {
        if rest.len() > 0 {
            assert(wf_field(rest[0]));
            assert(print_field(rest[0]).len() >= 1);
        }
    }
    assert(s.subrange(end0, end0 + ptail.len() as int)[0] == s[end0 + 0]);
    assert(s[end0] == ptail[0]);
    assert(ptail[0] == 32);
    assert(s.subrange(end0, end0 + ptail.len() as int)[1] == s[end0 + 1]);
    assert(s[end0 + 1] == ptail[1]);
    if rest.len() == 0 {
        assert(ptail[1] == 125);
    } else {
        assert(wf_field(rest[0]));
        assert(rest[0].name.len() > 0);
        lemma_print_field_first_byte(rest[0]);
        assert(ptail[1int] == print_field(rest[0])[0]);
        assert(ptail[1] == rest[0].name[0]);
        assert(crate::parse_spec::is_field_byte(ptail[1]));
    }
    assert(!crate::cursor::is_ws(s[end0 + 1]));
    lemma_skip_one_space(s, end0);
    assert(spec_skip_ws(s, end0) == end0 + 1);
    assert(s[end0 + 1] != 123 && s[end0 + 1] != 40);
}

/// The first byte of a printed field is the first byte of its name.
proof fn lemma_print_field_first_byte(f: SpecField)
    requires
        wf_field(f),
    ensures
        print_field(f).len() > 0,
        print_field(f)[0] == f.name[0],
{
}

/// Reparsing one printed field gives it back; the parse may consume
/// whitespace after a bare enum value, never more.
proof fn lemma_field_round_trip(s: Seq<u8>, i: int, f: SpecField)
    requires
        0 <= i,
        i + print_field(f).len() < s.len(),
        s.subrange(i, i + print_field(f).len() as int) == print_field(f),
        wf_field(f),
        value_ender(s, i + print_field(f).len() as int),
    ensures
        spec_parse_field(s, i) matches Ok(r) && r.0 == f && i < r.1 <= spec_skip_ws(
            s,
            i + print_field(f).len() as int,
        ) && spec_skip_ws(s, r.1) == spec_skip_ws(s, i + print_field(f).len() as int),
    decreases f, 2int,
{
    let pf = print_field(f);
    let end = i + pf.len() as int;
    assert forall|k: int| 0 <= k < pf.len() implies #[trigger] s[i + k] == pf[k] by {
        assert(s.subrange(i, end)[k] == s[i + k]);
    }
    let nlen = f.name.len() as int;
    let pv = print_value(f.value);
    assert(pf == f.name + seq![58u8, 32u8] + pv);
    assert forall|k: int| i <= k < i + nlen implies (crate::parse_spec::is_field_byte(
        #[trigger] s[k],
    ) || s[k] == 95) by {
        assert(s[i + (k - i)] == pf[k - i]);
        assert(pf[k - i] == f.name[k - i]);
    }
    assert(pf[nlen + 0] == 58);
    assert(s[i + (nlen + 0)] == pf[nlen + 0]);
    assert(s[i + nlen] == 58);
    assert(pf[nlen + 1] == 32);
    assert(s[i + (nlen + 1)] == pf[nlen + 1]);
    assert(s[i + nlen + 1] == 32);
    assert(s[i + 0] == pf[0]);
    assert(pf[0] == f.name[0]);
    assert(crate::parse_spec::is_field_byte(s[i]));
    lemma_field_name_end_region(s, i + 1, i + nlen);
    lemma_print_value_first_byte(f.value);
    assert(pf[nlen + 2] == pv[0]);
    assert(s[i + (nlen + 2)] == pf[nlen + 2]);
    assert(s[i + nlen + 2] == pv[0]);
    lemma_skip_one_space(s, i + nlen + 1);
    assert forall|k: int| 0 <= k < pv.len() implies s.subrange(
        i + nlen + 2,
        i + nlen + 2 + pv.len() as int,
    )[k] == pv[k] by {
        assert(pf[nlen + 2 + k] == pv[k]);
        assert(s[i + (nlen + 2 + k)] == pf[nlen + 2 + k]);
    }
    assert(s.subrange(i + nlen + 2, i + nlen + 2 + pv.len() as int) =~= pv);
    assert(i + nlen + 2 + pv.len() as int == end);
    lemma_value_round_trip(s, i + nlen + 2, f.value);
    assert forall|m: int| 0 <= m < nlen implies s.subrange(i, i + nlen)[m] == f.name[m] by {
        assert(s[i + m] == pf[m]);
        assert(pf[m] == f.name[m]);
    }
    assert(s.subrange(i, i + nlen) =~= f.name);
}

/// Reparsing one printed enum gives it back; a bare variant may take the
/// whitespace after it, never a body that is not its own.
proof fn lemma_enum_round_trip(s: Seq<u8>, i: int, en: SpecEnum)
    requires
        0 <= i,
        i + print_enum(en).len() < s.len(),
        s.subrange(i, i + print_enum(en).len() as int) == print_enum(en),
        wf_enum(en),
        value_ender(s, i + print_enum(en).len() as int),
    ensures
        spec_parse_enum(s, i) matches Ok(r) && r.0 == en && i < r.1 <= spec_skip_ws(
            s,
            i + print_enum(en).len() as int,
        ) && spec_skip_ws(s, r.1) == spec_skip_ws(s, i + print_enum(en).len() as int),
    decreases en, 2int,
{
    let pe = print_enum(en);
    let end = i + pe.len() as int;
    assert forall|k: int| 0 <= k < pe.len() implies #[trigger] s[i + k] == pe[k] by {
        assert(s.subrange(i, end)[k] == s[i + k]);
    }
    let nlen = en.variant.len() as int;
    crate::parse_lemmas::lemma_skip_ws_bounds(s, end);
    if en.struct_type == SpecStruct::Tuple(Seq::<SpecValue>::empty()) {
        assert forall|k: int| i <= k < i + nlen implies is_alnum(#[trigger] s[k]) by {
            assert(s[k] == pe[k - i]);
            assert(pe[k - i] == en.variant[k - i]);
        }
        assert(!is_alnum(s[end])) by {
            assert(is_number_end(s[end]));
        }
        lemma_ident_end_region(s, i + 1, end);
        assert(s[i] == en.variant[0]);
        assert(s.subrange(i, end) =~= en.variant);
        let k = spec_skip_ws(s, end);
        assert(k >= s.len() || (s[k] != 123 && s[k] != 40));
        crate::roundtrip::lemma_skip_ws_idempotent_pub(s, end);
    } else {
        let ps = print_struct(en.struct_type);
        assert forall|k: int| i <= k < i + nlen implies is_alnum(#[trigger] s[k]) by {
            assert(s[k] == pe[k - i]);
            assert(pe[k - i] == en.variant[k - i]);
        }
        assert(s[i + nlen] == ps[0]) by {
            assert(pe[nlen] == ps[0]);
        }
        assert(ps[0] == 40 || ps[0] == 123) by {
            match en.struct_type {
                SpecStruct::Tuple(vs) => {
                    assert(ps[0] == 40);
                },
                SpecStruct::NamedFields(fs) => {
                    assert(ps[0] == 123);
                },
            }
        }
        assert(!is_alnum(s[i + nlen]));
        lemma_ident_end_region(s, i + 1, i + nlen);
        assert(s[i + 0] == pe[0]);
        assert(pe[0] == en.variant[0]);
        assert(s[i] == en.variant[0]);
        assert forall|m: int| 0 <= m < nlen implies s.subrange(i, i + nlen)[m] == en.variant[m] by {
            assert(s[i + m] == pe[m]);
            assert(pe[m] == en.variant[m]);
        }
        assert(s.subrange(i, i + nlen) =~= en.variant);
        lemma_skip_ws_none(s, i + nlen);
        assert forall|k: int| 0 <= k < ps.len() implies s.subrange(
            i + nlen,
            i + nlen + ps.len() as int,
        )[k] == ps[k] by {
            assert(pe[nlen + k] == ps[k]);
            assert(s[i + (nlen + k)] == pe[nlen + k]);
        }
        assert(s.subrange(i + nlen, i + nlen + ps.len() as int) =~= ps);
        lemma_struct_round_trip(s, i + nlen, en.struct_type);
    }
}

/// Skipping whitespace twice goes no further than once; the public face of
/// the idempotence fact.
pub proof fn lemma_skip_ws_idempotent_pub(s: Seq<u8>, i: int)
    ensures
        spec_skip_ws(s, spec_skip_ws(s, i)) == spec_skip_ws(s, i),
    decreases s.len() - i,
{
    if 0 <= i < s.len() && crate::cursor::is_ws(s[i]) {
        lemma_skip_ws_idempotent_pub(s, i + 1);
    }
}

} // verus!
