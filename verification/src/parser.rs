//! The executable parser: recursive descent over a `Cursor`, proved to
//! return exactly what the grammar in `parse_spec` gives, token for token
//! and failure for failure.

use vstd::prelude::*;

use crate::ast::BsnEntity;
use crate::ast::BsnEntityConfig;
use crate::ast::BsnEnum;
use crate::ast::BsnField;
use crate::ast::BsnScene;
use crate::ast::BsnStruct;
use crate::ast::BsnValue;
use crate::ast::SchematicType;
use crate::ast::SpecConfig;
use crate::ast::SpecEntity;
use crate::ast::SpecEnum;
use crate::ast::SpecField;
use crate::ast::SpecScene;
use crate::ast::SpecStruct;
use crate::ast::SpecValue;
use crate::ast::deep_configs;
use crate::ast::deep_entities;
use crate::ast::deep_fields;
use crate::ast::deep_values;
use crate::ast::lemma_deep_configs;
use crate::ast::lemma_deep_entities;
use crate::ast::lemma_deep_fields;
use crate::ast::lemma_deep_values;
use crate::cursor::Cursor;
use crate::cursor::NoCharError;
use crate::cursor::spec_peek;
use crate::parse_lemmas::lemma_config_ok;
use crate::parse_lemmas::lemma_entity_ok;
use crate::parse_lemmas::lemma_field_name_end_bounds;
use crate::parse_lemmas::lemma_field_ok;
use crate::parse_lemmas::lemma_ident_ok;
use crate::parse_lemmas::lemma_skip_ws_bounds;
use crate::parse_lemmas::lemma_type_path_ok;
use crate::parse_lemmas::lemma_type_path_rest_ok;
use crate::parse_lemmas::lemma_value_ok;
use crate::parse_spec::ParseSceneError;
use crate::parse_spec::is_alnum;
use crate::parse_spec::is_alpha;
use crate::parse_spec::spec_digits_end;
use crate::parse_spec::spec_field_name_end;
use crate::parse_spec::spec_ident_end;
use crate::parse_spec::spec_parse_config;
use crate::parse_spec::spec_parse_configs_rest;
use crate::parse_spec::spec_parse_children_rest;
use crate::parse_spec::spec_parse_entity;
use crate::parse_spec::spec_parse_enum;
use crate::parse_spec::spec_parse_field;
use crate::parse_spec::spec_parse_fields_rest;
use crate::parse_spec::spec_parse_ident;
use crate::parse_spec::spec_parse_scene;
use crate::parse_spec::spec_parse_string;
use crate::parse_spec::spec_parse_struct;
use crate::parse_spec::spec_parse_tuple_rest;
use crate::parse_spec::spec_parse_type_path;
use crate::parse_spec::spec_parse_type_path_rest;
use crate::parse_spec::spec_parse_value;
use crate::parse_spec::spec_quote_end;

verus! {

fn ch_is_alpha(c: u8) -> (r: bool)
    ensures
        r == is_alpha(c),
{
    (97 <= c && c <= 122) || (65 <= c && c <= 90)
}

fn ch_is_digit(c: u8) -> (r: bool)
    ensures
        r == crate::parse_spec::is_digit(c),
{
    48 <= c && c <= 57
}

fn ch_is_alnum(c: u8) -> (r: bool)
    ensures
        r == is_alnum(c),
{
    ch_is_alpha(c) || ch_is_digit(c)
}

fn ch_is_upper(c: u8) -> (r: bool)
    ensures
        r == crate::parse_spec::is_upper(c),
{
    65 <= c && c <= 90
}

fn ch_is_field_byte(c: u8) -> (r: bool)
    ensures
        r == crate::parse_spec::is_field_byte(c),
{
    ch_is_alnum(c) && !ch_is_upper(c)
}

fn ch_is_number_end(c: u8) -> (r: bool)
    ensures
        r == crate::parse_spec::is_number_end(c),
{
    c == 32 || c == 9 || c == 10 || c == 13 || c == 44 || c == 41 || c == 125
}

/// An identifier: one alphabetic byte, then alphanumerics.
fn p_ident(cursor: &mut Cursor) -> (r: Result<Vec<u8>, ParseSceneError>)
    requires
        old(cursor).wf(),
    ensures
        final(cursor).wf(),
        final(cursor).src() == old(cursor).src(),
        match spec_parse_ident(old(cursor).src(), old(cursor).at()) {
            Ok(t) => r matches Ok(v) && v@ == t.0 && final(cursor).at() == t.1,
            Err(e) => r == Err::<Vec<u8>, ParseSceneError>(e),
        },
{
    let ghost s = old(cursor).src();
    let start = cursor.index();
    let c = match cursor.next() {
        Ok(c) => c,
        Err(_) => {
            return Err(ParseSceneError::NoCharError);
        },
    };
    if !ch_is_alpha(c) {
        return Err(ParseSceneError::FirstCharacterInTypeNameMustBeAlphabetic(c));
    }
    loop
        invariant
            cursor.wf(),
            cursor.src() == s,
            start + 1 <= cursor.at() <= s.len(),
            spec_ident_end(s, start + 1) == spec_ident_end(s, cursor.at()),
        ensures
            cursor.wf(),
            cursor.src() == s,
            cursor.at() == spec_ident_end(s, start + 1),
        decreases s.len() - cursor.at(),
    {
        match cursor.peek() {
            Ok(c2) => {
                if ch_is_alnum(c2) {
                    let _ = cursor.next();
                } else {
                    break;
                }
            },
            Err(_) => {
                break;
            },
        }
    }
    let end = cursor.index();
    Ok(cursor.slice_range(start, end))
}

/// A string literal; gives the bytes between the quotes.
fn p_string(cursor: &mut Cursor) -> (r: Result<Vec<u8>, ParseSceneError>)
    requires
        old(cursor).wf(),
    ensures
        final(cursor).wf(),
        final(cursor).src() == old(cursor).src(),
        match spec_parse_string(old(cursor).src(), old(cursor).at()) {
            Ok(t) => r matches Ok(v) && v@ == t.0 && final(cursor).at() == t.1,
            Err(e) => r == Err::<Vec<u8>, ParseSceneError>(e),
        },
{
    let ghost s = old(cursor).src();
    let c = match cursor.next() {
        Ok(c) => c,
        Err(_) => {
            return Err(ParseSceneError::NoCharError);
        },
    };
    if c != 34 {
        return Err(ParseSceneError::ExpectedOpeningChar { opening: 34, found: c });
    }
    let start = cursor.index();
    let mut unterminated = false;
    loop
        invariant_except_break
            !unterminated,
        invariant
            cursor.wf(),
            cursor.src() == s,
            start <= cursor.at() <= s.len(),
            spec_quote_end(s, start as int) == spec_quote_end(s, cursor.at()),
        ensures
            cursor.wf(),
            cursor.src() == s,
            cursor.at() == spec_quote_end(s, start as int),
            unterminated ==> cursor.at() == s.len(),
            !unterminated ==> cursor.at() < s.len() && s[cursor.at()] == 34,
        decreases s.len() - cursor.at(),
    {
        match cursor.peek() {
            Ok(c2) => {
                if c2 == 34 {
                    break;
                }
                let _ = cursor.next();
            },
            Err(_) => {
                unterminated = true;
                break;
            },
        }
    }
    if unterminated {
        return Err(ParseSceneError::ExpectedClosingChar { closing: 34, found: 32 });
    }
    let end = cursor.index();
    let _ = cursor.next();
    Ok(cursor.slice_range(start, end))
}

/// A type path and whether a `:`-announced enum variant follows it.
struct BsnTypePath {
    type_path: Vec<u8>,
    is_enum_variant_next: bool,
}

/// What may follow the first identifier of a type path.
fn p_type_path_rest(cursor: &mut Cursor) -> (r: Result<bool, ParseSceneError>)
    requires
        old(cursor).wf(),
    ensures
        final(cursor).wf(),
        final(cursor).src() == old(cursor).src(),
        match spec_parse_type_path_rest(old(cursor).src(), old(cursor).at()) {
            Ok(t) => r matches Ok(v) && v == t.0 && final(cursor).at() == t.1,
            Err(e) => r == Err::<bool, ParseSceneError>(e),
        },
    decreases old(cursor).src().len() - old(cursor).at(), 0int,
{
    let ghost s = old(cursor).src();
    let ghost i0 = old(cursor).at();
    let c = match cursor.peek() {
        Ok(c) => c,
        Err(_) => {
            return Ok(false);
        },
    };
    if c == 58 {
        let _ = cursor.next();
        let c2 = match cursor.peek() {
            Ok(c2) => c2,
            Err(_) => {
                return Err(ParseSceneError::NoCharError);
            },
        };
        if c2 == 58 {
            let _ = cursor.next();
            match p_ident(cursor) {
                Err(e) => Err(e),
                Ok(_segment) => {
                    proof {
                        lemma_ident_ok(s, i0 + 2);
                    }
                    p_type_path_rest(cursor)
                },
            }
        } else {
            Ok(true)
        }
    } else if c == 60 {
        let _ = cursor.next();
        let inner = match p_type_path(cursor) {
            Ok(v) => v,
            Err(e) => {
                return Err(e);
            },
        };
        if inner.is_enum_variant_next {
            return Err(ParseSceneError::GenericInstancesCannotBeEnumVariants);
        }
        let c3 = match cursor.next() {
            Ok(c3) => c3,
            Err(_) => {
                return Err(ParseSceneError::NoCharError);
            },
        };
        if c3 != 62 {
            return Err(ParseSceneError::ExpectedClosingChar { closing: 62, found: c3 });
        }
        match cursor.peek() {
            Ok(c4) => {
                if c4 == 58 {
                    Err(ParseSceneError::GenericInstancesCannotBeEnumVariants)
                } else {
                    Ok(false)
                }
            },
            Err(_) => Ok(false),
        }
    } else {
        Ok(false)
    }
}

/// A type path: identifiers joined by `::`, an optional generic group, an
/// optional `:` announcing an enum variant.
fn p_type_path(cursor: &mut Cursor) -> (r: Result<BsnTypePath, ParseSceneError>)
    requires
        old(cursor).wf(),
    ensures
        final(cursor).wf(),
        final(cursor).src() == old(cursor).src(),
        match spec_parse_type_path(old(cursor).src(), old(cursor).at()) {
            Ok(t) => r matches Ok(v) && v.type_path@ == t.0.0 && v.is_enum_variant_next == t.0.1
                && final(cursor).at() == t.1,
            Err(e) => r == Err::<BsnTypePath, ParseSceneError>(e),
        },
    decreases old(cursor).src().len() - old(cursor).at(), 1int,
{
    let ghost s = old(cursor).src();
    let ghost i0 = old(cursor).at();
    let start = cursor.index();
    match p_ident(cursor) {
        Err(e) => {
            return Err(e);
        },
        Ok(_first) => {},
    }
    proof {
        lemma_ident_ok(s, i0);
    }
    let ghost j1 = cursor.at();
    let ev = match p_type_path_rest(cursor) {
        Ok(v) => v,
        Err(e) => {
            return Err(e);
        },
    };
    proof {
        lemma_type_path_rest_ok(s, j1);
    }
    let end = cursor.index();
    let path_end = if ev {
        end - 1
    } else {
        end
    };
    let path = cursor.slice_range(start, path_end);
    Ok(BsnTypePath { type_path: path, is_enum_variant_next: ev })
}

/// A struct body: `{ field* }` or `( value,* )`.
fn p_struct(cursor: &mut Cursor) -> (r: Result<BsnStruct, ParseSceneError>)
    requires
        old(cursor).wf(),
    ensures
        final(cursor).wf(),
        final(cursor).src() == old(cursor).src(),
        match spec_parse_struct(old(cursor).src(), old(cursor).at()) {
            Ok(t) => r matches Ok(v) && v.deep() == t.0 && final(cursor).at() == t.1,
            Err(e) => r == Err::<BsnStruct, ParseSceneError>(e),
        },
    decreases old(cursor).src().len() - old(cursor).at(), 2int,
{
    let c = match cursor.peek() {
        Ok(c) => c,
        Err(_) => {
            return Err(ParseSceneError::NoCharError);
        },
    };
    if c == 123 {
        let _ = cursor.next();
        match p_fields_rest(cursor) {
            Err(e) => Err(e),
            Ok(fields) => Ok(BsnStruct::NamedFields(fields)),
        }
    } else if c == 40 {
        let _ = cursor.next();
        match p_tuple_rest(cursor, true) {
            Err(e) => Err(e),
            Ok(values) => Ok(BsnStruct::Tuple(values)),
        }
    } else {
        Err(ParseSceneError::InvalidStructCharacter(c))
    }
}

/// An enum body: the variant identifier, then an optional struct body.
fn p_enum(cursor: &mut Cursor) -> (r: Result<BsnEnum, ParseSceneError>)
    requires
        old(cursor).wf(),
    ensures
        final(cursor).wf(),
        final(cursor).src() == old(cursor).src(),
        match spec_parse_enum(old(cursor).src(), old(cursor).at()) {
            Ok(t) => r matches Ok(v) && v.deep() == t.0 && final(cursor).at() == t.1,
            Err(e) => r == Err::<BsnEnum, ParseSceneError>(e),
        },
    decreases old(cursor).src().len() - old(cursor).at(), 3int,
{
    let ghost s = old(cursor).src();
    let ghost i0 = old(cursor).at();
    let variant = match p_ident(cursor) {
        Ok(v) => v,
        Err(e) => {
            return Err(e);
        },
    };
    proof {
        lemma_ident_ok(s, i0);
    }
    let ghost j1 = cursor.at();
    cursor.skip_whitespace();
    proof {
        lemma_skip_ws_bounds(s, j1);
    }
    let has_body = match cursor.peek() {
        Ok(c) => c == 123 || c == 40,
        Err(_) => false,
    };
    if has_body {
        let st = match p_struct(cursor) {
            Ok(v) => v,
            Err(e) => {
                return Err(e);
            },
        };
        Ok(BsnEnum { variant, struct_type: st })
    } else {
        let st = BsnStruct::Tuple(Vec::new());
        proof {
            assert(deep_values(Seq::empty()) =~= Seq::<SpecValue>::empty());
        }
        Ok(BsnEnum { variant, struct_type: st })
    }
}

/// A value: digits, a string literal, a struct body, or an enum.
fn p_value(cursor: &mut Cursor) -> (r: Result<BsnValue, ParseSceneError>)
    requires
        old(cursor).wf(),
    ensures
        final(cursor).wf(),
        final(cursor).src() == old(cursor).src(),
        match spec_parse_value(old(cursor).src(), old(cursor).at()) {
            Ok(t) => r matches Ok(v) && v.deep() == t.0 && final(cursor).at() == t.1,
            Err(e) => r == Err::<BsnValue, ParseSceneError>(e),
        },
    decreases old(cursor).src().len() - old(cursor).at(), 4int,
{
    let ghost s = old(cursor).src();
    let ghost i0 = old(cursor).at();
    let c = match cursor.peek() {
        Ok(c) => c,
        Err(_) => {
            return Err(ParseSceneError::NoCharError);
        },
    };
    if ch_is_digit(c) {
        let start = cursor.index();
        let mut bad: Option<u8> = None;
        loop
            invariant_except_break
                bad is None,
            invariant
                cursor.wf(),
                cursor.src() == s,
                start as int == i0,
                i0 <= cursor.at() <= s.len(),
                spec_digits_end(s, i0) == spec_digits_end(s, cursor.at()),
            ensures
                cursor.wf(),
                cursor.src() == s,
                cursor.at() == spec_digits_end(s, i0),
                match bad {
                    Some(c2) => spec_peek(s, cursor.at()) == Ok::<u8, NoCharError>(c2)
                        && !crate::parse_spec::is_number_end(c2) && !crate::parse_spec::is_digit(
                        c2,
                    ),
                    None => (spec_peek(s, cursor.at()) matches Ok(c2)
                        ==> crate::parse_spec::is_number_end(c2)),
                },
            decreases s.len() - cursor.at(),
        {
            match cursor.peek() {
                Ok(c2) => {
                    if ch_is_digit(c2) {
                        let _ = cursor.next();
                    } else if ch_is_number_end(c2) {
                        break;
                    } else {
                        bad = Some(c2);
                        break;
                    }
                },
                Err(_) => {
                    break;
                },
            }
        }
        if let Some(c2) = bad {
            return Err(ParseSceneError::InvalidIntCharacter(c2));
        }
        let end = cursor.index();
        Ok(BsnValue::Number(cursor.slice_range(start, end)))
    } else if c == 34 {
        match p_string(cursor) {
            Err(e) => Err(e),
            Ok(bytes) => Ok(BsnValue::String(bytes)),
        }
    } else if c == 123 || c == 40 {
        match p_struct(cursor) {
            Err(e) => Err(e),
            Ok(st) => Ok(BsnValue::Struct(st)),
        }
    } else if ch_is_alpha(c) {
        match p_enum(cursor) {
            Err(e) => Err(e),
            Ok(en) => Ok(BsnValue::Enum(en)),
        }
    } else {
        Err(ParseSceneError::InvalidValueCharacter(c))
    }
}

/// A named field: a lowercase name, a colon, whitespace, a value.
fn p_field(cursor: &mut Cursor) -> (r: Result<BsnField, ParseSceneError>)
    requires
        old(cursor).wf(),
    ensures
        final(cursor).wf(),
        final(cursor).src() == old(cursor).src(),
        match spec_parse_field(old(cursor).src(), old(cursor).at()) {
            Ok(t) => r matches Ok(v) && v.deep() == t.0 && final(cursor).at() == t.1,
            Err(e) => r == Err::<BsnField, ParseSceneError>(e),
        },
    decreases old(cursor).src().len() - old(cursor).at(), 5int,
{
    let ghost s = old(cursor).src();
    let ghost i0 = old(cursor).at();
    let start = cursor.index();
    let c = match cursor.peek() {
        Ok(c) => c,
        Err(_) => {
            return Err(ParseSceneError::NoCharError);
        },
    };
    if !ch_is_field_byte(c) {
        return Err(ParseSceneError::InvalidFieldCharacter(c));
    }
    let _ = cursor.next();
    let mut bad: Option<ParseSceneError> = None;
    loop
        invariant_except_break
            bad is None,
        invariant
            cursor.wf(),
            cursor.src() == s,
            start as int == i0,
            i0 + 1 <= cursor.at() <= s.len(),
            spec_field_name_end(s, i0 + 1) == spec_field_name_end(s, cursor.at()),
        ensures
            cursor.wf(),
            cursor.src() == s,
            i0 + 1 <= cursor.at() <= s.len(),
            match bad {
                Some(e) => spec_field_name_end(s, i0 + 1) == Err::<int, ParseSceneError>(e),
                None => spec_field_name_end(s, i0 + 1) == Ok::<int, ParseSceneError>(cursor.at())
                    && spec_peek(s, cursor.at()) == Ok::<u8, NoCharError>(58),
            },
        decreases s.len() - cursor.at(),
    {
        let c2 = match cursor.peek() {
            Ok(c2) => c2,
            Err(_) => {
                bad = Some(ParseSceneError::NoCharError);
                break;
            },
        };
        if c2 == 58 {
            break;
        } else if c2 == 95 {
            let _ = cursor.next();
        } else if !ch_is_field_byte(c2) {
            bad = Some(ParseSceneError::InvalidFieldCharacter(c2));
            break;
        } else {
            let _ = cursor.next();
        }
    }
    if let Some(e) = bad {
        return Err(e);
    }
    let name_end = cursor.index();
    let _ = cursor.next();
    proof {
        lemma_field_name_end_bounds(s, i0 + 1);
    }
    cursor.skip_whitespace();
    proof {
        lemma_skip_ws_bounds(s, name_end + 1);
    }
    let name = cursor.slice_range(start, name_end);
    match p_value(cursor) {
        Err(e) => Err(e),
        Ok(value) => Ok(BsnField { name, value }),
    }
}

/// The fields of a named-field struct after the opening brace.
fn p_fields_rest(cursor: &mut Cursor) -> (r: Result<Vec<BsnField>, ParseSceneError>)
    requires
        old(cursor).wf(),
    ensures
        final(cursor).wf(),
        final(cursor).src() == old(cursor).src(),
        match spec_parse_fields_rest(old(cursor).src(), old(cursor).at()) {
            Ok(t) => r matches Ok(v) && deep_fields(v@) == t.0 && final(cursor).at() == t.1,
            Err(e) => r == Err::<Vec<BsnField>, ParseSceneError>(e),
        },
    decreases old(cursor).src().len() - old(cursor).at(), 6int,
{
    let ghost s = old(cursor).src();
    let ghost i0 = old(cursor).at();
    cursor.skip_whitespace();
    proof {
        lemma_skip_ws_bounds(s, i0);
    }
    let ghost k = cursor.at();
    let closing = match cursor.peek() {
        Ok(c) => c == 125,
        Err(_) => false,
    };
    if closing {
        let _ = cursor.next();
        let out: Vec<BsnField> = Vec::new();
        proof {
            assert(deep_fields(out@) =~= Seq::<SpecField>::empty());
        }
        return Ok(out);
    }
    let f = match p_field(cursor) {
        Ok(f) => f,
        Err(e) => {
            return Err(e);
        },
    };
    proof {
        lemma_field_ok(s, k);
    }
    let mut rest = match p_fields_rest(cursor) {
        Ok(v) => v,
        Err(e) => {
            return Err(e);
        },
    };
    let ghost rest_view = rest@;
    rest.insert(0, f);
    proof {
        lemma_deep_fields(rest@);
        lemma_deep_fields(rest_view);
        rest_view.insert_ensures(0, f);
        assert(rest@ =~= seq![f] + rest_view);
        assert forall|n: int| 0 <= n < rest@.len() implies deep_fields(rest@)[n] == (seq![f.deep()]
            + deep_fields(rest_view))[n] by {
            assert(deep_fields(rest@)[n] == rest@[n].deep());
            if n > 0 {
                assert(rest@[n] == rest_view[n - 1]);
                assert(deep_fields(rest_view)[n - 1] == rest_view[n - 1].deep());
            }
        }
        assert(deep_fields(rest@) =~= seq![f.deep()] + deep_fields(rest_view));
    }
    Ok(rest)
}

/// The values of a tuple struct after the opening parenthesis.
fn p_tuple_rest(cursor: &mut Cursor, first: bool) -> (r: Result<Vec<BsnValue>, ParseSceneError>)
    requires
        old(cursor).wf(),
    ensures
        final(cursor).wf(),
        final(cursor).src() == old(cursor).src(),
        match spec_parse_tuple_rest(old(cursor).src(), old(cursor).at(), first) {
            Ok(t) => r matches Ok(v) && deep_values(v@) == t.0 && final(cursor).at() == t.1,
            Err(e) => r == Err::<Vec<BsnValue>, ParseSceneError>(e),
        },
    decreases old(cursor).src().len() - old(cursor).at(), 6int,
{
    let ghost s = old(cursor).src();
    let ghost i0 = old(cursor).at();
    cursor.skip_whitespace();
    proof {
        lemma_skip_ws_bounds(s, i0);
    }
    let ghost k = cursor.at();
    let closing = match cursor.peek() {
        Ok(c) => c == 41,
        Err(_) => false,
    };
    if closing {
        let _ = cursor.next();
        let out: Vec<BsnValue> = Vec::new();
        proof {
            assert(deep_values(out@) =~= Seq::<SpecValue>::empty());
        }
        return Ok(out);
    }
    if !first {
        let c = match cursor.next() {
            Ok(c) => c,
            Err(_) => {
                return Err(ParseSceneError::NoCharError);
            },
        };
        if c != 44 {
            return Err(ParseSceneError::TupleStructMissingComma);
        }
        cursor.skip_whitespace();
        proof {
            lemma_skip_ws_bounds(s, k + 1);
        }
    }
    let ghost kv = cursor.at();
    let v = match p_value(cursor) {
        Ok(v) => v,
        Err(e) => {
            return Err(e);
        },
    };
    proof {
        lemma_value_ok(s, kv);
    }
    let mut rest = match p_tuple_rest(cursor, false) {
        Ok(v) => v,
        Err(e) => {
            return Err(e);
        },
    };
    let ghost rest_view = rest@;
    rest.insert(0, v);
    proof {
        lemma_deep_values(rest@);
        lemma_deep_values(rest_view);
        rest_view.insert_ensures(0, v);
        assert(rest@ =~= seq![v] + rest_view);
        assert forall|n: int| 0 <= n < rest@.len() implies deep_values(rest@)[n] == (seq![v.deep()]
            + deep_values(rest_view))[n] by {
            assert(deep_values(rest@)[n] == rest@[n].deep());
            if n > 0 {
                assert(rest@[n] == rest_view[n - 1]);
                assert(deep_values(rest_view)[n - 1] == rest_view[n - 1].deep());
            }
        }
        assert(deep_values(rest@) =~= seq![v.deep()] + deep_values(rest_view));
    }
    Ok(rest)
}

/// One config: `@"path"`, or a type path with its body.
fn p_config(cursor: &mut Cursor) -> (r: Result<BsnEntityConfig, ParseSceneError>)
    requires
        old(cursor).wf(),
    ensures
        final(cursor).wf(),
        final(cursor).src() == old(cursor).src(),
        match spec_parse_config(old(cursor).src(), old(cursor).at()) {
            Ok(t) => r matches Ok(v) && v.deep() == t.0 && final(cursor).at() == t.1,
            Err(e) => r == Err::<BsnEntityConfig, ParseSceneError>(e),
        },
{
    let ghost s = old(cursor).src();
    let ghost i0 = old(cursor).at();
    let c = match cursor.peek() {
        Ok(c) => c,
        Err(_) => {
            return Err(ParseSceneError::NoCharError);
        },
    };
    if c == 64 {
        let _ = cursor.next();
        match p_string(cursor) {
            Err(e) => Err(e),
            Ok(path) => Ok(BsnEntityConfig::Scene { path }),
        }
    } else {
        let tp = match p_type_path(cursor) {
            Ok(v) => v,
            Err(e) => {
                return Err(e);
            },
        };
        proof {
            lemma_type_path_ok(s, i0);
        }
        let ghost j1 = cursor.at();
        cursor.skip_whitespace();
        proof {
            lemma_skip_ws_bounds(s, j1);
        }
        if tp.is_enum_variant_next {
            match p_enum(cursor) {
                Err(e) => Err(e),
                Ok(en) => Ok(
                    BsnEntityConfig::Schematic {
                        type_path: tp.type_path,
                        schematic_type: SchematicType::Enum(en),
                    },
                ),
            }
        } else {
            let has_body = match cursor.peek() {
                Ok(c2) => c2 == 123 || c2 == 40,
                Err(_) => false,
            };
            if has_body {
                match p_struct(cursor) {
                    Err(e) => Err(e),
                    Ok(st) => Ok(
                        BsnEntityConfig::Schematic {
                            type_path: tp.type_path,
                            schematic_type: SchematicType::Struct(st),
                        },
                    ),
                }
            } else {
                proof {
                    assert(deep_values(Seq::empty()) =~= Seq::<SpecValue>::empty());
                }
                Ok(
                    BsnEntityConfig::Schematic {
                        type_path: tp.type_path,
                        schematic_type: SchematicType::Struct(BsnStruct::Tuple(Vec::new())),
                    },
                )
            }
        }
    }
}

/// The configs of a `( ... )` group after the opening parenthesis.
fn p_configs_rest(cursor: &mut Cursor) -> (r: Result<Vec<BsnEntityConfig>, ParseSceneError>)
    requires
        old(cursor).wf(),
    ensures
        final(cursor).wf(),
        final(cursor).src() == old(cursor).src(),
        match spec_parse_configs_rest(old(cursor).src(), old(cursor).at()) {
            Ok(t) => r matches Ok(v) && deep_configs(v@) == t.0 && final(cursor).at() == t.1,
            Err(e) => r == Err::<Vec<BsnEntityConfig>, ParseSceneError>(e),
        },
    decreases old(cursor).src().len() - old(cursor).at(),
{
    let ghost s = old(cursor).src();
    let ghost i0 = old(cursor).at();
    cursor.skip_whitespace();
    proof {
        lemma_skip_ws_bounds(s, i0);
    }
    let ghost k = cursor.at();
    let c = match cursor.peek() {
        Ok(c) => c,
        Err(_) => {
            return Err(ParseSceneError::NoCharError);
        },
    };
    if c == 41 {
        let _ = cursor.next();
        let out: Vec<BsnEntityConfig> = Vec::new();
        proof {
            assert(deep_configs(out@) =~= Seq::<SpecConfig>::empty());
        }
        return Ok(out);
    }
    let cf = match p_config(cursor) {
        Ok(cf) => cf,
        Err(e) => {
            return Err(e);
        },
    };
    proof {
        lemma_config_ok(s, k);
    }
    let mut rest = match p_configs_rest(cursor) {
        Ok(v) => v,
        Err(e) => {
            return Err(e);
        },
    };
    let ghost rest_view = rest@;
    rest.insert(0, cf);
    proof {
        lemma_deep_configs(rest@);
        lemma_deep_configs(rest_view);
        rest_view.insert_ensures(0, cf);
        assert(rest@ =~= seq![cf] + rest_view);
        assert forall|n: int| 0 <= n < rest@.len() implies deep_configs(rest@)[n] == (seq![cf.deep()]
            + deep_configs(rest_view))[n] by {
            assert(deep_configs(rest@)[n] == rest@[n].deep());
            if n > 0 {
                assert(rest@[n] == rest_view[n - 1]);
                assert(deep_configs(rest_view)[n - 1] == rest_view[n - 1].deep());
            }
        }
        assert(deep_configs(rest@) =~= seq![cf.deep()] + deep_configs(rest_view));
    }
    Ok(rest)
}

/// An entity: an optional `#name`, one config or a group of configs, an
/// optional bracketed list of children.
fn p_entity(cursor: &mut Cursor) -> (r: Result<BsnEntity, ParseSceneError>)
    requires
        old(cursor).wf(),
    ensures
        final(cursor).wf(),
        final(cursor).src() == old(cursor).src(),
        match spec_parse_entity(old(cursor).src(), old(cursor).at()) {
            Ok(t) => r matches Ok(v) && v.deep() == t.0 && final(cursor).at() == t.1,
            Err(e) => r == Err::<BsnEntity, ParseSceneError>(e),
        },
    decreases old(cursor).src().len() - old(cursor).at(), 0int,
{
    let ghost s = old(cursor).src();
    let ghost i0 = old(cursor).at();
    let has_name = match cursor.peek() {
        Ok(c) => c == 35,
        Err(_) => false,
    };
    let mut name: Option<Vec<u8>> = None;
    if has_name {
        let _ = cursor.next();
        let nm = match p_ident(cursor) {
            Ok(v) => v,
            Err(e) => {
                return Err(e);
            },
        };
        proof {
            lemma_ident_ok(s, i0 + 1);
        }
        name = Some(nm);
    }
    let ghost j = cursor.at();
    let has_paren = match cursor.peek() {
        Ok(c) => c == 40,
        Err(_) => false,
    };
    let configs: Vec<BsnEntityConfig>;
    if has_paren {
        let _ = cursor.next();
        configs = match p_configs_rest(cursor) {
            Ok(v) => v,
            Err(e) => {
                return Err(e);
            },
        };
        proof {
            crate::parse_lemmas::lemma_configs_rest_ok(s, j + 1);
        }
    } else {
        let cf = match p_config(cursor) {
            Ok(v) => v,
            Err(e) => {
                return Err(e);
            },
        };
        proof {
            lemma_config_ok(s, j);
        }
        let mut one: Vec<BsnEntityConfig> = Vec::new();
        one.push(cf);
        proof {
            assert(deep_configs(one@) =~= seq![cf.deep()]) by {
                lemma_deep_configs(one@);
            }
        }
        configs = one;
    }
    let ghost j2 = cursor.at();
    cursor.skip_whitespace();
    proof {
        lemma_skip_ws_bounds(s, j2);
    }
    let has_children = match cursor.peek() {
        Ok(c) => c == 91,
        Err(_) => false,
    };
    if has_children {
        let _ = cursor.next();
        let children = match p_children_rest(cursor) {
            Ok(v) => v,
            Err(e) => {
                return Err(e);
            },
        };
        Ok(BsnEntity { name, configs, children })
    } else {
        let children: Vec<BsnEntity> = Vec::new();
        proof {
            assert(deep_entities(children@) =~= Seq::<SpecEntity>::empty());
        }
        Ok(BsnEntity { name, configs, children })
    }
}

/// The children of a `[ ... ]` list after the opening bracket.
fn p_children_rest(cursor: &mut Cursor) -> (r: Result<Vec<BsnEntity>, ParseSceneError>)
    requires
        old(cursor).wf(),
    ensures
        final(cursor).wf(),
        final(cursor).src() == old(cursor).src(),
        match spec_parse_children_rest(old(cursor).src(), old(cursor).at()) {
            Ok(t) => r matches Ok(v) && deep_entities(v@) == t.0 && final(cursor).at() == t.1,
            Err(e) => r == Err::<Vec<BsnEntity>, ParseSceneError>(e),
        },
    decreases old(cursor).src().len() - old(cursor).at(), 1int,
{
    let ghost s = old(cursor).src();
    let ghost i0 = old(cursor).at();
    cursor.skip_whitespace();
    proof {
        lemma_skip_ws_bounds(s, i0);
    }
    let ghost k = cursor.at();
    let closing = match cursor.peek() {
        Ok(c) => c == 93,
        Err(_) => false,
    };
    if closing {
        let _ = cursor.next();
        let out: Vec<BsnEntity> = Vec::new();
        proof {
            assert(deep_entities(out@) =~= Seq::<SpecEntity>::empty());
        }
        return Ok(out);
    }
    let en = match p_entity(cursor) {
        Ok(v) => v,
        Err(e) => {
            return Err(e);
        },
    };
    proof {
        lemma_entity_ok(s, k);
    }
    let mut rest = match p_children_rest(cursor) {
        Ok(v) => v,
        Err(e) => {
            return Err(e);
        },
    };
    let ghost rest_view = rest@;
    rest.insert(0, en);
    proof {
        lemma_deep_entities(rest@);
        lemma_deep_entities(rest_view);
        rest_view.insert_ensures(0, en);
        assert(rest@ =~= seq![en] + rest_view);
        assert forall|n: int| 0 <= n < rest@.len() implies deep_entities(rest@)[n] == (seq![en.deep()]
            + deep_entities(rest_view))[n] by {
            assert(deep_entities(rest@)[n] == rest@[n].deep());
            if n > 0 {
                assert(rest@[n] == rest_view[n - 1]);
                assert(deep_entities(rest_view)[n - 1] == rest_view[n - 1].deep());
            }
        }
        assert(deep_entities(rest@) =~= seq![en.deep()] + deep_entities(rest_view));
    }
    Ok(rest)
}

/// A whole scene: the root entity with nothing but whitespace around it.
fn p_scene(cursor: &mut Cursor) -> (r: Result<BsnScene, ParseSceneError>)
    requires
        old(cursor).wf(),
    ensures
        final(cursor).wf(),
        final(cursor).src() == old(cursor).src(),
        match spec_parse_scene(old(cursor).src(), old(cursor).at()) {
            Ok(t) => r matches Ok(v) && v.deep() == t.0 && final(cursor).at() == t.1,
            Err(e) => r == Err::<BsnScene, ParseSceneError>(e),
        },
{
    cursor.skip_whitespace();
    let root = match p_entity(cursor) {
        Ok(v) => v,
        Err(e) => {
            return Err(e);
        },
    };
    cursor.skip_whitespace();
    match cursor.peek() {
        Ok(c) => Err(ParseSceneError::UnexpectedChar(c)),
        Err(_) => Ok(BsnScene { root }),
    }
}

/// What every syntax node offers: parse a value of the node's type at the
/// cursor, returning exactly what the grammar gives. `Model` is the node's
/// mathematical model and `parse_spec` its production in the grammar.
pub trait Parse: Sized {
    type Model;

    spec fn model(&self) -> Self::Model;

    spec fn parse_spec(s: Seq<u8>, i: int) -> Result<(Self::Model, int), ParseSceneError>;

    fn parse(cursor: &mut Cursor) -> (r: Result<Self, ParseSceneError>)
        requires
            old(cursor).wf(),
        ensures
            final(cursor).wf(),
            final(cursor).src() == old(cursor).src(),
            match Self::parse_spec(old(cursor).src(), old(cursor).at()) {
                Ok(t) => r matches Ok(v) && v.model() == t.0 && final(cursor).at() == t.1,
                Err(e) => r == Err::<Self, ParseSceneError>(e),
            },
    ;
}

impl Parse for BsnScene {
    type Model = SpecScene;

    open spec fn model(&self) -> SpecScene {
        self.deep()
    }

    open spec fn parse_spec(s: Seq<u8>, i: int) -> Result<(SpecScene, int), ParseSceneError> {
        spec_parse_scene(s, i)
    }

    fn parse(cursor: &mut Cursor) -> (r: Result<Self, ParseSceneError>) {
        p_scene(cursor)
    }
}

impl Parse for BsnEntity {
    type Model = SpecEntity;

    open spec fn model(&self) -> SpecEntity {
        self.deep()
    }

    open spec fn parse_spec(s: Seq<u8>, i: int) -> Result<(SpecEntity, int), ParseSceneError> {
        spec_parse_entity(s, i)
    }

    fn parse(cursor: &mut Cursor) -> (r: Result<Self, ParseSceneError>) {
        p_entity(cursor)
    }
}

impl Parse for BsnEntityConfig {
    type Model = SpecConfig;

    open spec fn model(&self) -> SpecConfig {
        self.deep()
    }

    open spec fn parse_spec(s: Seq<u8>, i: int) -> Result<(SpecConfig, int), ParseSceneError> {
        spec_parse_config(s, i)
    }

    fn parse(cursor: &mut Cursor) -> (r: Result<Self, ParseSceneError>) {
        p_config(cursor)
    }
}

impl Parse for BsnStruct {
    type Model = SpecStruct;

    open spec fn model(&self) -> SpecStruct {
        self.deep()
    }

    open spec fn parse_spec(s: Seq<u8>, i: int) -> Result<(SpecStruct, int), ParseSceneError> {
        spec_parse_struct(s, i)
    }

    fn parse(cursor: &mut Cursor) -> (r: Result<Self, ParseSceneError>) {
        p_struct(cursor)
    }
}

impl Parse for BsnEnum {
    type Model = SpecEnum;

    open spec fn model(&self) -> SpecEnum {
        self.deep()
    }

    open spec fn parse_spec(s: Seq<u8>, i: int) -> Result<(SpecEnum, int), ParseSceneError> {
        spec_parse_enum(s, i)
    }

    fn parse(cursor: &mut Cursor) -> (r: Result<Self, ParseSceneError>) {
        p_enum(cursor)
    }
}

impl Parse for BsnValue {
    type Model = SpecValue;

    open spec fn model(&self) -> SpecValue {
        self.deep()
    }

    open spec fn parse_spec(s: Seq<u8>, i: int) -> Result<(SpecValue, int), ParseSceneError> {
        spec_parse_value(s, i)
    }

    fn parse(cursor: &mut Cursor) -> (r: Result<Self, ParseSceneError>) {
        p_value(cursor)
    }
}

impl Parse for BsnField {
    type Model = SpecField;

    open spec fn model(&self) -> SpecField {
        self.deep()
    }

    open spec fn parse_spec(s: Seq<u8>, i: int) -> Result<(SpecField, int), ParseSceneError> {
        spec_parse_field(s, i)
    }

    fn parse(cursor: &mut Cursor) -> (r: Result<Self, ParseSceneError>) {
        p_field(cursor)
    }
}

/// A string literal parses to its inner bytes; this serves the `@"path"`
/// form.
impl Parse for Vec<u8> {
    type Model = Seq<u8>;

    open spec fn model(&self) -> Seq<u8> {
        self@
    }

    open spec fn parse_spec(s: Seq<u8>, i: int) -> Result<(Seq<u8>, int), ParseSceneError> {
        spec_parse_string(s, i)
    }

    fn parse(cursor: &mut Cursor) -> (r: Result<Self, ParseSceneError>) {
        p_string(cursor)
    }
}

impl BsnScene {
    /// Parse a whole scene from the beginning of `input`.
    pub fn parse_str(input: &[u8]) -> (r: Result<BsnScene, ParseSceneError>)
        ensures
            match spec_parse_scene(input@, 0) {
                Ok(t) => r matches Ok(sc) && sc.deep() == t.0,
                Err(e) => r == Err::<BsnScene, ParseSceneError>(e),
            },
    {
        let mut cursor = Cursor::new(input);
        BsnScene::parse(&mut cursor)
    }
}

} // verus!
