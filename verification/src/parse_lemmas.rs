//! Bounds on the grammar of `parse_spec`: every production that succeeds
//! consumes at least one byte and never passes the end of the input. These
//! facts discharge the index guards inside the grammar's definition and
//! drive the termination of the executable parser.

use vstd::prelude::*;

use crate::cursor::spec_skip_ws;
use crate::parse_spec::spec_digits_end;
use crate::parse_spec::spec_field_name_end;
use crate::parse_spec::spec_ident_end;
use crate::parse_spec::spec_parse_config;
use crate::parse_spec::spec_parse_configs_rest;
use crate::parse_spec::spec_parse_children_rest;
use crate::parse_spec::spec_parse_entity;
use crate::parse_spec::spec_parse_entity_name;
use crate::parse_spec::spec_parse_enum;
use crate::parse_spec::spec_parse_field;
use crate::parse_spec::spec_parse_fields_rest;
use crate::parse_spec::spec_parse_ident;
use crate::parse_spec::spec_parse_string;
use crate::parse_spec::spec_parse_struct;
use crate::parse_spec::spec_parse_tuple_rest;
use crate::parse_spec::spec_parse_type_path;
use crate::parse_spec::spec_parse_type_path_rest;
use crate::parse_spec::spec_parse_value;
use crate::parse_spec::spec_quote_end;

verus! {

pub proof fn lemma_skip_ws_bounds(s: Seq<u8>, i: int)
    requires
        0 <= i <= s.len(),
    ensures
        i <= spec_skip_ws(s, i) <= s.len(),
    decreases s.len() - i,
{
    if i < s.len() && crate::cursor::is_ws(s[i]) {
        lemma_skip_ws_bounds(s, i + 1);
    }
}

pub proof fn lemma_ident_end_bounds(s: Seq<u8>, i: int)
    requires
        0 <= i <= s.len(),
    ensures
        i <= spec_ident_end(s, i) <= s.len(),
    decreases s.len() - i,
{
    if i < s.len() && crate::parse_spec::is_alnum(s[i]) {
        lemma_ident_end_bounds(s, i + 1);
    }
}

pub proof fn lemma_digits_end_bounds(s: Seq<u8>, i: int)
    requires
        0 <= i <= s.len(),
    ensures
        i <= spec_digits_end(s, i) <= s.len(),
    decreases s.len() - i,
{
    if i < s.len() && crate::parse_spec::is_digit(s[i]) {
        lemma_digits_end_bounds(s, i + 1);
    }
}

pub proof fn lemma_quote_end_bounds(s: Seq<u8>, i: int)
    requires
        0 <= i <= s.len(),
    ensures
        i <= spec_quote_end(s, i) <= s.len(),
    decreases s.len() - i,
{
    if i < s.len() && s[i] != 34 {
        lemma_quote_end_bounds(s, i + 1);
    }
}

pub proof fn lemma_field_name_end_bounds(s: Seq<u8>, i: int)
    requires
        0 <= i <= s.len(),
    ensures
        spec_field_name_end(s, i) matches Ok(ne) ==> i <= ne < s.len(),
    decreases s.len() - i,
{
    if i < s.len() && s[i] != 58 {
        lemma_field_name_end_bounds(s, i + 1);
    }
}

pub proof fn lemma_ident_ok(s: Seq<u8>, i: int)
    requires
        0 <= i <= s.len(),
    ensures
        spec_parse_ident(s, i) matches Ok(r) ==> i < r.1 <= s.len(),
{
    if i < s.len() {
        lemma_ident_end_bounds(s, i + 1);
    }
}

pub proof fn lemma_string_ok(s: Seq<u8>, i: int)
    requires
        0 <= i <= s.len(),
    ensures
        spec_parse_string(s, i) matches Ok(r) ==> i < r.1 <= s.len(),
{
    if i < s.len() {
        lemma_quote_end_bounds(s, i + 1);
    }
}

pub proof fn lemma_entity_name_ok(s: Seq<u8>, i: int)
    requires
        0 <= i <= s.len(),
    ensures
        spec_parse_entity_name(s, i) matches Ok(r) ==> i <= r.1 <= s.len(),
{
    if i < s.len() {
        lemma_ident_ok(s, i + 1);
    }
}

// ---------------------------------------------------------------------------
// The mutually recursive group.

pub proof fn lemma_type_path_ok(s: Seq<u8>, i: int)
    requires
        0 <= i <= s.len(),
    ensures
        spec_parse_type_path(s, i) matches Ok(r) ==> i < r.1 <= s.len(),
    decreases s.len() - i, 1int,
{
    lemma_ident_ok(s, i);
    if let Ok((_t, j)) = spec_parse_ident(s, i) {
        if i < j <= s.len() {
            lemma_type_path_rest_ok(s, j);
        }
    }
}

pub proof fn lemma_type_path_rest_ok(s: Seq<u8>, i: int)
    requires
        0 <= i <= s.len(),
    ensures
        spec_parse_type_path_rest(s, i) matches Ok(r) ==> i <= r.1 <= s.len() && (r.0 ==> i
            < r.1),
    decreases s.len() - i, 0int,
{
    if i < s.len() {
        let c = s[i];
        if c == 58 {
            if i + 1 < s.len() && s[i + 1] == 58 {
                lemma_ident_ok(s, i + 2);
                if let Ok((_t, j)) = spec_parse_ident(s, i + 2) {
                    if i < j <= s.len() {
                        lemma_type_path_rest_ok(s, j);
                    }
                }
            }
        } else if c == 60 {
            lemma_type_path_ok(s, i + 1);
        }
    }
}

pub proof fn lemma_struct_ok(s: Seq<u8>, i: int)
    requires
        0 <= i <= s.len(),
    ensures
        spec_parse_struct(s, i) matches Ok(r) ==> i < r.1 <= s.len(),
    decreases s.len() - i, 2int,
{
    if i < s.len() {
        if s[i] == 123 {
            lemma_fields_rest_ok(s, i + 1);
        } else if s[i] == 40 {
            lemma_tuple_rest_ok(s, i + 1, true);
        }
    }
}

pub proof fn lemma_enum_ok(s: Seq<u8>, i: int)
    requires
        0 <= i <= s.len(),
    ensures
        spec_parse_enum(s, i) matches Ok(r) ==> i < r.1 <= s.len(),
    decreases s.len() - i, 3int,
{
    lemma_ident_ok(s, i);
    if let Ok((_v, j)) = spec_parse_ident(s, i) {
        if i < j <= s.len() {
            lemma_skip_ws_bounds(s, j);
            let k = spec_skip_ws(s, j);
            lemma_struct_ok(s, k);
        }
    }
}

pub proof fn lemma_value_ok(s: Seq<u8>, i: int)
    requires
        0 <= i <= s.len(),
    ensures
        spec_parse_value(s, i) matches Ok(r) ==> i < r.1 <= s.len(),
    decreases s.len() - i, 4int,
{
    if i < s.len() {
        let c = s[i];
        if crate::parse_spec::is_digit(c) {
            lemma_digits_end_bounds(s, i);
        } else if c == 34 {
            lemma_string_ok(s, i);
        } else if c == 123 || c == 40 {
            lemma_struct_ok(s, i);
        } else if crate::parse_spec::is_alpha(c) {
            lemma_enum_ok(s, i);
        }
    }
}

pub proof fn lemma_field_ok(s: Seq<u8>, i: int)
    requires
        0 <= i <= s.len(),
    ensures
        spec_parse_field(s, i) matches Ok(r) ==> i < r.1 <= s.len(),
    decreases s.len() - i, 5int,
{
    if i < s.len() {
        lemma_field_name_end_bounds(s, i + 1);
        if let Ok(ne) = spec_field_name_end(s, i + 1) {
            lemma_skip_ws_bounds(s, ne + 1);
            let k = spec_skip_ws(s, ne + 1);
            lemma_value_ok(s, k);
        }
    }
}

pub proof fn lemma_fields_rest_ok(s: Seq<u8>, i: int)
    requires
        0 <= i <= s.len(),
    ensures
        spec_parse_fields_rest(s, i) matches Ok(r) ==> i < r.1 <= s.len(),
    decreases s.len() - i, 6int,
{
    lemma_skip_ws_bounds(s, i);
    let k = spec_skip_ws(s, i);
    lemma_field_ok(s, k);
    if let Ok((_f, j)) = spec_parse_field(s, k) {
        if i < j <= s.len() {
            lemma_fields_rest_ok(s, j);
        }
    }
}

pub proof fn lemma_tuple_rest_ok(s: Seq<u8>, i: int, first: bool)
    requires
        0 <= i <= s.len(),
    ensures
        spec_parse_tuple_rest(s, i, first) matches Ok(r) ==> i < r.1 <= s.len(),
    decreases s.len() - i, 6int,
{
    lemma_skip_ws_bounds(s, i);
    let k = spec_skip_ws(s, i);
    if !first {
        if k < s.len() && s[k] == 44 {
            lemma_skip_ws_bounds(s, k + 1);
            let k2 = spec_skip_ws(s, k + 1);
            lemma_value_ok(s, k2);
            if let Ok((_v, j)) = spec_parse_value(s, k2) {
                if i < j <= s.len() {
                    lemma_tuple_rest_ok(s, j, false);
                }
            }
        }
    } else {
        lemma_value_ok(s, k);
        if let Ok((_v, j)) = spec_parse_value(s, k) {
            if i < j <= s.len() {
                lemma_tuple_rest_ok(s, j, false);
            }
        }
    }
}

pub proof fn lemma_config_ok(s: Seq<u8>, i: int)
    requires
        0 <= i <= s.len(),
    ensures
        spec_parse_config(s, i) matches Ok(r) ==> i < r.1 <= s.len(),
    decreases s.len() - i, 7int,
{
    if i < s.len() {
        if s[i] == 64 {
            lemma_string_ok(s, i + 1);
        } else {
            lemma_type_path_ok(s, i);
            if let Ok((_tp, j)) = spec_parse_type_path(s, i) {
                if i < j <= s.len() {
                    lemma_skip_ws_bounds(s, j);
                    let k = spec_skip_ws(s, j);
                    lemma_enum_ok(s, k);
                    lemma_struct_ok(s, k);
                }
            }
        }
    }
}

pub proof fn lemma_configs_rest_ok(s: Seq<u8>, i: int)
    requires
        0 <= i <= s.len(),
    ensures
        spec_parse_configs_rest(s, i) matches Ok(r) ==> i < r.1 <= s.len(),
    decreases s.len() - i, 8int,
{
    lemma_skip_ws_bounds(s, i);
    let k = spec_skip_ws(s, i);
    lemma_config_ok(s, k);
    if let Ok((_c, j)) = spec_parse_config(s, k) {
        if i < j <= s.len() {
            lemma_configs_rest_ok(s, j);
        }
    }
}

pub proof fn lemma_entity_ok(s: Seq<u8>, i: int)
    requires
        0 <= i <= s.len(),
    ensures
        spec_parse_entity(s, i) matches Ok(r) ==> i < r.1 <= s.len(),
    decreases s.len() - i, 9int,
{
    lemma_entity_name_ok(s, i);
    if let Ok((_nm, j)) = spec_parse_entity_name(s, i) {
        if i <= j <= s.len() {
            if j < s.len() && s[j] == 40 {
                lemma_configs_rest_ok(s, j + 1);
            } else {
                lemma_config_ok(s, j);
            }
            let cfgs = if crate::cursor::spec_peek(s, j) == Ok::<u8, crate::cursor::NoCharError>(
                40,
            ) {
                spec_parse_configs_rest(s, j + 1)
            } else {
                match spec_parse_config(s, j) {
                    Err(e) => Err(e),
                    Ok((cf, j2)) => Ok((seq![cf], j2)),
                }
            };
            if let Ok((_cs, j2)) = cfgs {
                if i < j2 <= s.len() {
                    lemma_skip_ws_bounds(s, j2);
                    let k = spec_skip_ws(s, j2);
                    if k < s.len() {
                        lemma_children_rest_ok(s, k + 1);
                    }
                }
            }
        }
    }
}

pub proof fn lemma_children_rest_ok(s: Seq<u8>, i: int)
    requires
        0 <= i <= s.len(),
    ensures
        spec_parse_children_rest(s, i) matches Ok(r) ==> i < r.1 <= s.len(),
    decreases s.len() - i, 10int,
{
    lemma_skip_ws_bounds(s, i);
    let k = spec_skip_ws(s, i);
    lemma_entity_ok(s, k);
    if let Ok((_e, j)) = spec_parse_entity(s, k) {
        if i < j <= s.len() {
            lemma_children_rest_ok(s, j);
        }
    }
}

} // verus!
