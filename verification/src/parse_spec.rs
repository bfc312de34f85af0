//! The grammar of the scene language, as one recursive definition.
//!
//! Each `spec_parse_*` function reads the input from a byte index and gives
//! either the parsed model together with the index of the first unconsumed
//! byte, or the parse failure. The executable parser is proved to return
//! exactly these results.
//!
//! The language is ASCII: identifiers are an ASCII-alphabetic byte followed
//! by ASCII-alphanumerics, numbers are runs of ASCII digits, and whitespace
//! is space, tab, carriage return and newline. String literals may hold any
//! bytes other than the double quote; there are no escapes.
//!
//! Termination is by the number of unread bytes, with a fixed order among
//! the grammar's productions for the calls that stand at one index. A few
//! branches guard a recursive call with an index comparison that in fact
//! always passes (each production consumes at least one byte; see the
//! consumption lemmas in `parse_lemmas`).

use vstd::prelude::*;

use crate::ast::SpecConfig;
use crate::ast::SpecEntity;
use crate::ast::SpecEnum;
use crate::ast::SpecField;
use crate::ast::SpecScene;
use crate::ast::SpecSchematicType;
use crate::ast::SpecStruct;
use crate::ast::SpecValue;
use crate::cursor::NoCharError;
use crate::cursor::is_ws;
use crate::cursor::spec_peek;
use crate::cursor::spec_skip_ws;

verus! {

/// Why a parse failed. Each variant carries the offending byte when there
/// is one.
#[derive(Debug, PartialEq, Eq, Structural, Clone, Copy)]
pub enum ParseSceneError {
    /// A byte was needed and the input had ended.
    NoCharError,
    /// A byte was left after the root entity.
    UnexpectedChar(u8),
    FirstCharacterInTypeNameMustBeAlphabetic(u8),
    ExpectedClosingChar { closing: u8, found: u8 },
    ExpectedOpeningChar { opening: u8, found: u8 },
    InvalidFieldCharacter(u8),
    InvalidIntCharacter(u8),
    InvalidValueCharacter(u8),
    InvalidStructCharacter(u8),
    GenericInstancesCannotBeEnumVariants,
    TupleStructMissingComma,
}

pub open spec fn is_alpha(c: u8) -> bool {
    (97 <= c <= 122) || (65 <= c <= 90)
}

pub open spec fn is_digit(c: u8) -> bool {
    48 <= c <= 57
}

pub open spec fn is_alnum(c: u8) -> bool {
    is_alpha(c) || is_digit(c)
}

pub open spec fn is_upper(c: u8) -> bool {
    65 <= c <= 90
}

/// A byte that may stand in a field name: an ASCII digit or a lowercase
/// ASCII letter. The underscore is allowed separately.
pub open spec fn is_field_byte(c: u8) -> bool {
    is_alnum(c) && !is_upper(c)
}

/// A byte that ends a number: whitespace, comma, or a closing delimiter.
pub open spec fn is_number_end(c: u8) -> bool {
    is_ws(c) || c == 44 || c == 41 || c == 125
}

// ---------------------------------------------------------------------------
// Scans: total functions that walk to the end of a token.

/// The end of an identifier's continuation: the first index at or after `i`
/// whose byte is not ASCII-alphanumeric, or the end of the input.
pub open spec fn spec_ident_end(s: Seq<u8>, i: int) -> int
    decreases s.len() - i,
{
    if 0 <= i < s.len() && is_alnum(s[i]) {
        spec_ident_end(s, i + 1)
    } else {
        i
    }
}

/// The end of a run of ASCII digits starting at `i`.
pub open spec fn spec_digits_end(s: Seq<u8>, i: int) -> int
    decreases s.len() - i,
{
    if 0 <= i < s.len() && is_digit(s[i]) {
        spec_digits_end(s, i + 1)
    } else {
        i
    }
}

/// The index of the first double quote at or after `i`, or the length of
/// the input when there is none.
pub open spec fn spec_quote_end(s: Seq<u8>, i: int) -> int
    decreases s.len() - i,
{
    if 0 <= i < s.len() {
        if s[i] == 34 {
            i
        } else {
            spec_quote_end(s, i + 1)
        }
    } else {
        i
    }
}

/// The index of the colon that ends a field name whose first byte stands at
/// `i - 1`, or the failure met while scanning: a field name goes on with
/// underscores and lowercase alphanumerics until a colon.
pub open spec fn spec_field_name_end(s: Seq<u8>, i: int) -> Result<int, ParseSceneError>
    decreases s.len() - i,
{
    match spec_peek(s, i) {
        Err(NoCharError) => Err(ParseSceneError::NoCharError),
        Ok(c) => if c == 58 {
            Ok(i)
        } else if c == 95 {
            spec_field_name_end(s, i + 1)
        } else if !is_field_byte(c) {
            Err(ParseSceneError::InvalidFieldCharacter(c))
        } else {
            spec_field_name_end(s, i + 1)
        },
    }
}

// ---------------------------------------------------------------------------
// Tokens.

/// An identifier: an alphabetic byte, then alphanumerics. Gives the slice
/// and the index after it.
pub open spec fn spec_parse_ident(s: Seq<u8>, i: int) -> Result<(Seq<u8>, int), ParseSceneError> {
    match spec_peek(s, i) {
        Err(NoCharError) => Err(ParseSceneError::NoCharError),
        Ok(c) => if !is_alpha(c) {
            Err(ParseSceneError::FirstCharacterInTypeNameMustBeAlphabetic(c))
        } else {
            let j = spec_ident_end(s, i + 1);
            Ok((s.subrange(i, j), j))
        },
    }
}

/// A string literal: an opening quote, any bytes, a closing quote. Gives
/// the bytes between the quotes.
pub open spec fn spec_parse_string(s: Seq<u8>, i: int) -> Result<(Seq<u8>, int), ParseSceneError> {
    match spec_peek(s, i) {
        Err(NoCharError) => Err(ParseSceneError::NoCharError),
        Ok(c) => if c != 34 {
            Err(ParseSceneError::ExpectedOpeningChar { opening: 34, found: c })
        } else {
            let e = spec_quote_end(s, i + 1);
            if e >= s.len() {
                Err(ParseSceneError::ExpectedClosingChar { closing: 34, found: 32 })
            } else {
                Ok((s.subrange(i + 1, e), e + 1))
            }
        },
    }
}

/// The optional `#name` in front of an entity.
pub open spec fn spec_parse_entity_name(s: Seq<u8>, i: int) -> Result<
    (Option<Seq<u8>>, int),
    ParseSceneError,
> {
    if spec_peek(s, i) == Ok::<u8, NoCharError>(35) {
        match spec_parse_ident(s, i + 1) {
            Err(e) => Err(e),
            Ok((nm, j)) => Ok((Some(nm), j)),
        }
    } else {
        Ok((None, i))
    }
}

// ---------------------------------------------------------------------------
// The grammar. One mutually recursive group; the second component of each
// `decreases` clause orders the productions that call one another without
// consuming input.

/// A type path: identifiers joined by `::`, an optional single generic
/// group, an optional `:` announcing an enum variant. Gives the path slice,
/// whether a variant follows, and the index after (past the `:` when one
/// was read).
pub open spec fn spec_parse_type_path(s: Seq<u8>, i: int) -> Result<
    ((Seq<u8>, bool), int),
    ParseSceneError,
>
    decreases s.len() - i, 1int,
{
    match spec_parse_ident(s, i) {
        Err(e) => Err(e),
        Ok((_first, j)) => {
            if j < i || j > s.len() {
                // never taken: an identifier consumes at least one byte
                Err(ParseSceneError::NoCharError)
            } else {
                match spec_parse_type_path_rest(s, j) {
                    Err(e) => Err(e),
                    Ok((ev, end)) => {
                        let path_end = if ev {
                            end - 1
                        } else {
                            end
                        };
                        Ok(((s.subrange(i, path_end), ev), end))
                    },
                }
            }
        },
    }
}

/// What may follow the first identifier of a type path: `::ident` segments,
/// one generic group, a trailing `:`. Gives whether an enum variant follows
/// and the index after.
pub open spec fn spec_parse_type_path_rest(s: Seq<u8>, i: int) -> Result<
    (bool, int),
    ParseSceneError,
>
    decreases s.len() - i, 0int,
{
    match spec_peek(s, i) {
        Err(NoCharError) => Ok((false, i)),
        Ok(c) => if c == 58 {
            match spec_peek(s, i + 1) {
                Err(NoCharError) => Err(ParseSceneError::NoCharError),
                Ok(c2) => if c2 == 58 {
                    match spec_parse_ident(s, i + 2) {
                        Err(e) => Err(e),
                        Ok((_seg, j)) => {
                            if j <= i || j > s.len() {
                                // never taken: an identifier consumes a byte
                                Err(ParseSceneError::NoCharError)
                            } else {
                                spec_parse_type_path_rest(s, j)
                            }
                        },
                    }
                } else {
                    Ok((true, i + 1))
                },
            }
        } else if c == 60 {
            match spec_parse_type_path(s, i + 1) {
                Err(e) => Err(e),
                Ok(((_inner, inner_ev), j)) => {
                    if inner_ev {
                        Err(ParseSceneError::GenericInstancesCannotBeEnumVariants)
                    } else {
                        match spec_peek(s, j) {
                            Err(NoCharError) => Err(ParseSceneError::NoCharError),
                            Ok(c3) => if c3 != 62 {
                                Err(ParseSceneError::ExpectedClosingChar { closing: 62, found: c3 })
                            } else if spec_peek(s, j + 1) == Ok::<u8, NoCharError>(58) {
                                // a generic instance may not be an enum variant
                                Err(ParseSceneError::GenericInstancesCannotBeEnumVariants)
                            } else {
                                Ok((false, j + 1))
                            },
                        }
                    }
                },
            }
        } else {
            Ok((false, i))
        },
    }
}

/// A struct body: `{ field* }` or `( value,* )`.
pub open spec fn spec_parse_struct(s: Seq<u8>, i: int) -> Result<(SpecStruct, int), ParseSceneError>
    decreases s.len() - i, 2int,
{
    match spec_peek(s, i) {
        Err(NoCharError) => Err(ParseSceneError::NoCharError),
        Ok(c) => if c == 123 {
            match spec_parse_fields_rest(s, i + 1) {
                Err(e) => Err(e),
                Ok((fields, j)) => Ok((SpecStruct::NamedFields(fields), j)),
            }
        } else if c == 40 {
            match spec_parse_tuple_rest(s, i + 1, true) {
                Err(e) => Err(e),
                Ok((values, j)) => Ok((SpecStruct::Tuple(values), j)),
            }
        } else {
            Err(ParseSceneError::InvalidStructCharacter(c))
        },
    }
}

/// An enum body: the variant identifier, then an optional struct body; a
/// missing body is the empty tuple.
pub open spec fn spec_parse_enum(s: Seq<u8>, i: int) -> Result<(SpecEnum, int), ParseSceneError>
    decreases s.len() - i, 3int,
{
    match spec_parse_ident(s, i) {
        Err(e) => Err(e),
        Ok((variant, j)) => {
            let k = spec_skip_ws(s, j);
            if k < i || k > s.len() {
                // never taken: an identifier consumes at least one byte
                Err(ParseSceneError::NoCharError)
            } else {
                let p = spec_peek(s, k);
                if p == Ok::<u8, NoCharError>(123) || p == Ok::<u8, NoCharError>(40) {
                    match spec_parse_struct(s, k) {
                        Err(e) => Err(e),
                        Ok((st, j2)) => Ok((SpecEnum { variant, struct_type: st }, j2)),
                    }
                } else {
                    Ok((SpecEnum { variant, struct_type: SpecStruct::Tuple(Seq::empty()) }, k))
                }
            }
        },
    }
}

/// A value: digits, a string literal, a struct body, or an enum.
pub open spec fn spec_parse_value(s: Seq<u8>, i: int) -> Result<(SpecValue, int), ParseSceneError>
    decreases s.len() - i, 4int,
{
    match spec_peek(s, i) {
        Err(NoCharError) => Err(ParseSceneError::NoCharError),
        Ok(c) => if is_digit(c) {
            let j = spec_digits_end(s, i);
            match spec_peek(s, j) {
                Err(NoCharError) => Ok((SpecValue::Number(s.subrange(i, j)), j)),
                Ok(c2) => if is_number_end(c2) {
                    Ok((SpecValue::Number(s.subrange(i, j)), j))
                } else {
                    Err(ParseSceneError::InvalidIntCharacter(c2))
                },
            }
        } else if c == 34 {
            match spec_parse_string(s, i) {
                Err(e) => Err(e),
                Ok((bytes, j)) => Ok((SpecValue::String(bytes), j)),
            }
        } else if c == 123 || c == 40 {
            match spec_parse_struct(s, i) {
                Err(e) => Err(e),
                Ok((st, j)) => Ok((SpecValue::Struct(st), j)),
            }
        } else if is_alpha(c) {
            match spec_parse_enum(s, i) {
                Err(e) => Err(e),
                Ok((en, j)) => Ok((SpecValue::Enum(en), j)),
            }
        } else {
            Err(ParseSceneError::InvalidValueCharacter(c))
        },
    }
}

/// A named field: a lowercase name, a colon, whitespace, a value.
pub open spec fn spec_parse_field(s: Seq<u8>, i: int) -> Result<(SpecField, int), ParseSceneError>
    decreases s.len() - i, 5int,
{
    match spec_peek(s, i) {
        Err(NoCharError) => Err(ParseSceneError::NoCharError),
        Ok(c) => if !is_field_byte(c) {
            Err(ParseSceneError::InvalidFieldCharacter(c))
        } else {
            match spec_field_name_end(s, i + 1) {
                Err(e) => Err(e),
                Ok(name_end) => {
                    let k = spec_skip_ws(s, name_end + 1);
                    if k < i || k > s.len() {
                        // never taken: the colon stands at or after `i + 1`
                        Err(ParseSceneError::NoCharError)
                    } else {
                        match spec_parse_value(s, k) {
                            Err(e) => Err(e),
                            Ok((v, j)) => Ok(
                                (SpecField { name: s.subrange(i, name_end), value: v }, j),
                            ),
                        }
                    }
                },
            }
        },
    }
}

/// The fields of a named-field struct after its opening brace, up to and
/// past the closing brace.
pub open spec fn spec_parse_fields_rest(s: Seq<u8>, i: int) -> Result<
    (Seq<SpecField>, int),
    ParseSceneError,
>
    decreases s.len() - i, 6int,
{
    let k = spec_skip_ws(s, i);
    if spec_peek(s, k) == Ok::<u8, NoCharError>(125) {
        Ok((Seq::empty(), k + 1))
    } else if k < i || k > s.len() {
        // never taken: skipping whitespace does not move backwards
        Err(ParseSceneError::NoCharError)
    } else {
        match spec_parse_field(s, k) {
            Err(e) => Err(e),
            Ok((f, j)) => {
                if j <= i || j > s.len() {
                    // never taken: a field consumes at least one byte
                    Err(ParseSceneError::NoCharError)
                } else {
                    match spec_parse_fields_rest(s, j) {
                        Err(e) => Err(e),
                        Ok((rest, end)) => Ok((seq![f] + rest, end)),
                    }
                }
            },
        }
    }
}

/// The values of a tuple struct after its opening parenthesis, up to and
/// past the closing one. Values after the first must follow a comma.
pub open spec fn spec_parse_tuple_rest(s: Seq<u8>, i: int, first: bool) -> Result<
    (Seq<SpecValue>, int),
    ParseSceneError,
>
    decreases s.len() - i, 6int,
{
    let k = spec_skip_ws(s, i);
    let p = spec_peek(s, k);
    if p == Ok::<u8, NoCharError>(41) {
        Ok((Seq::empty(), k + 1))
    } else if k < i || k > s.len() {
        // never taken: skipping whitespace does not move backwards
        Err(ParseSceneError::NoCharError)
    } else if !first {
        match p {
            Err(NoCharError) => Err(ParseSceneError::NoCharError),
            Ok(c) => if c != 44 {
                Err(ParseSceneError::TupleStructMissingComma)
            } else {
                let k2 = spec_skip_ws(s, k + 1);
                if k2 <= i || k2 > s.len() {
                    // never taken: the comma was consumed
                    Err(ParseSceneError::NoCharError)
                } else {
                    match spec_parse_value(s, k2) {
                        Err(e) => Err(e),
                        Ok((v, j)) => {
                            if j <= i || j > s.len() {
                                // never taken: a value consumes a byte
                                Err(ParseSceneError::NoCharError)
                            } else {
                                match spec_parse_tuple_rest(s, j, false) {
                                    Err(e) => Err(e),
                                    Ok((rest, end)) => Ok((seq![v] + rest, end)),
                                }
                            }
                        },
                    }
                }
            },
        }
    } else {
        match spec_parse_value(s, k) {
            Err(e) => Err(e),
            Ok((v, j)) => {
                if j <= i || j > s.len() {
                    // never taken: a value consumes a byte
                    Err(ParseSceneError::NoCharError)
                } else {
                    match spec_parse_tuple_rest(s, j, false) {
                        Err(e) => Err(e),
                        Ok((rest, end)) => Ok((seq![v] + rest, end)),
                    }
                }
            },
        }
    }
}

/// One config: `@"path"`, or a type path with its body. A missing body is
/// the empty tuple; a type path announcing a variant is followed by an
/// enum body.
pub open spec fn spec_parse_config(s: Seq<u8>, i: int) -> Result<(SpecConfig, int), ParseSceneError>
    decreases s.len() - i, 7int,
{
    match spec_peek(s, i) {
        Err(NoCharError) => Err(ParseSceneError::NoCharError),
        Ok(c) => if c == 64 {
            match spec_parse_string(s, i + 1) {
                Err(e) => Err(e),
                Ok((path, j)) => Ok((SpecConfig::Scene { path }, j)),
            }
        } else {
            match spec_parse_type_path(s, i) {
                Err(e) => Err(e),
                Ok(((type_path, ev), j)) => {
                    let k = spec_skip_ws(s, j);
                    if k < i || k > s.len() {
                        // never taken: a type path consumes a byte
                        Err(ParseSceneError::NoCharError)
                    } else if ev {
                        match spec_parse_enum(s, k) {
                            Err(e) => Err(e),
                            Ok((en, j2)) => Ok(
                                (
                                    SpecConfig::Schematic {
                                        type_path,
                                        schematic_type: SpecSchematicType::Enum(en),
                                    },
                                    j2,
                                ),
                            ),
                        }
                    } else {
                        let p = spec_peek(s, k);
                        if p == Ok::<u8, NoCharError>(123) || p == Ok::<u8, NoCharError>(40) {
                            match spec_parse_struct(s, k) {
                                Err(e) => Err(e),
                                Ok((st, j2)) => Ok(
                                    (
                                        SpecConfig::Schematic {
                                            type_path,
                                            schematic_type: SpecSchematicType::Struct(st),
                                        },
                                        j2,
                                    ),
                                ),
                            }
                        } else {
                            Ok(
                                (
                                    SpecConfig::Schematic {
                                        type_path,
                                        schematic_type: SpecSchematicType::Struct(
                                            SpecStruct::Tuple(Seq::empty()),
                                        ),
                                    },
                                    k,
                                ),
                            )
                        }
                    }
                },
            }
        },
    }
}

/// The configs of a `( ... )` group after its opening parenthesis, up to
/// and past the closing one.
pub open spec fn spec_parse_configs_rest(s: Seq<u8>, i: int) -> Result<
    (Seq<SpecConfig>, int),
    ParseSceneError,
>
    decreases s.len() - i, 8int,
{
    let k = spec_skip_ws(s, i);
    match spec_peek(s, k) {
        Err(NoCharError) => Err(ParseSceneError::NoCharError),
        Ok(c) => if c == 41 {
            Ok((Seq::empty(), k + 1))
        } else if k < i || k > s.len() {
            // never taken: skipping whitespace does not move backwards
            Err(ParseSceneError::NoCharError)
        } else {
            match spec_parse_config(s, k) {
                Err(e) => Err(e),
                Ok((cf, j)) => {
                    if j <= i || j > s.len() {
                        // never taken: a config consumes a byte
                        Err(ParseSceneError::NoCharError)
                    } else {
                        match spec_parse_configs_rest(s, j) {
                            Err(e) => Err(e),
                            Ok((rest, end)) => Ok((seq![cf] + rest, end)),
                        }
                    }
                },
            }
        },
    }
}

/// An entity: an optional `#name`, one config or a group of configs, an
/// optional bracketed list of children. Trailing whitespace after the
/// configs is consumed even when no children follow.
pub open spec fn spec_parse_entity(s: Seq<u8>, i: int) -> Result<(SpecEntity, int), ParseSceneError>
    decreases s.len() - i, 9int,
{
    match spec_parse_entity_name(s, i) {
        Err(e) => Err(e),
        Ok((name, j)) => {
            if j < i || j > s.len() {
                // never taken: a name never moves the index backwards
                Err(ParseSceneError::NoCharError)
            } else {
                let cfgs = if spec_peek(s, j) == Ok::<u8, NoCharError>(40) {
                    spec_parse_configs_rest(s, j + 1)
                } else {
                    match spec_parse_config(s, j) {
                        Err(e) => Err(e),
                        Ok((cf, j2)) => Ok((seq![cf], j2)),
                    }
                };
                match cfgs {
                    Err(e) => Err(e),
                    Ok((configs, j2)) => {
                        let k = spec_skip_ws(s, j2);
                        if spec_peek(s, k) == Ok::<u8, NoCharError>(91) {
                            if k < i || k > s.len() {
                                // never taken: the configs consumed a byte
                                Err(ParseSceneError::NoCharError)
                            } else {
                                match spec_parse_children_rest(s, k + 1) {
                                    Err(e) => Err(e),
                                    Ok((children, end)) => Ok(
                                        (SpecEntity { name, configs, children }, end),
                                    ),
                                }
                            }
                        } else {
                            Ok((SpecEntity { name, configs, children: Seq::empty() }, k))
                        }
                    },
                }
            }
        },
    }
}

/// The children of a `[ ... ]` list after its opening bracket, up to and
/// past the closing one.
pub open spec fn spec_parse_children_rest(s: Seq<u8>, i: int) -> Result<
    (Seq<SpecEntity>, int),
    ParseSceneError,
>
    decreases s.len() - i, 10int,
{
    let k = spec_skip_ws(s, i);
    if spec_peek(s, k) == Ok::<u8, NoCharError>(93) {
        Ok((Seq::empty(), k + 1))
    } else if k < i || k > s.len() {
        // never taken: skipping whitespace does not move backwards
        Err(ParseSceneError::NoCharError)
    } else {
        match spec_parse_entity(s, k) {
            Err(e) => Err(e),
            Ok((en, j)) => {
                if j <= i || j > s.len() {
                    // never taken: an entity consumes a byte
                    Err(ParseSceneError::NoCharError)
                } else {
                    match spec_parse_children_rest(s, j) {
                        Err(e) => Err(e),
                        Ok((rest, end)) => Ok((seq![en] + rest, end)),
                    }
                }
            },
        }
    }
}

/// A whole scene: whitespace, the root entity, whitespace, the end of the
/// input. Any byte left over is the failure `UnexpectedChar`.
pub open spec fn spec_parse_scene(s: Seq<u8>, i: int) -> Result<(SpecScene, int), ParseSceneError> {
    let k = spec_skip_ws(s, i);
    match spec_parse_entity(s, k) {
        Err(e) => Err(e),
        Ok((root, j)) => {
            let k2 = spec_skip_ws(s, j);
            match spec_peek(s, k2) {
                Ok(c) => Err(ParseSceneError::UnexpectedChar(c)),
                Err(NoCharError) => Ok((SpecScene { root }, k2)),
            }
        },
    }
}

} // verus!
