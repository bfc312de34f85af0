//! The type registry: textual type paths bound to a type identity, a
//! property-bag shape, and the merge over bags that resolution uses at
//! every type-identity collision.
//!
//! A registered bag is a list of named slots, each unset or holding a leaf
//! value. Decoding walks a config's named fields against the shape; merging
//! lets set slots of the later bag replace, and unset slots give way.

use vstd::prelude::*;

use crate::ast::BsnStruct;
use crate::ast::BsnValue;
use crate::ast::SpecField;
use crate::ast::SpecStruct;
use crate::ast::SpecValue;
use crate::from_bsn::FromBsnError;
use crate::from_bsn::SpecFromBsnError;
use crate::from_bsn::parse_u64_digits;
use crate::from_bsn::spec_decode_digits;
use crate::schematic::PropModel;
use crate::schematic::Props;

verus! {

/// Compare two byte strings.
pub fn bytes_eq(a: &Vec<u8>, b: &Vec<u8>) -> (r: bool)
    ensures
        r == (a@ == b@),
{
    if a.len() != b.len() {
        return false;
    }
    let mut i: usize = 0;
    while i < a.len()
        invariant
            a@.len() == b@.len(),
            0 <= i <= a@.len(),
            forall|j: int| 0 <= j < i ==> a@[j] == b@[j],
        decreases a@.len() - i,
    {
        if a[i] != b[i] {
            return false;
        }
        i = i + 1;
    }
    proof {
        assert(a@ =~= b@);
    }
    true
}

/// What a bag slot holds: a number or a byte string.
#[derive(Clone, Copy, PartialEq, Eq, Structural, Debug)]
pub enum FieldKind {
    Num,
    Text,
}

/// One slot of a registered bag shape: its name and kind.
#[derive(Debug, PartialEq, Eq)]
pub struct FieldShape {
    pub name: Vec<u8>,
    pub kind: FieldKind,
}

/// The model of a slot shape.
pub struct SpecFieldShape {
    pub name: Seq<u8>,
    pub kind: FieldKind,
}

impl FieldShape {
    pub open spec fn m(&self) -> SpecFieldShape {
        SpecFieldShape { name: self.name@, kind: self.kind }
    }
}

/// The model of a shape list.
pub open spec fn shapes_m(s: Seq<FieldShape>) -> Seq<SpecFieldShape> {
    Seq::new(s.len(), |i: int| s[i].m())
}

/// A leaf value in a bag.
#[derive(Debug, PartialEq, Eq)]
pub enum DynValue {
    Num(u64),
    Text(Vec<u8>),
}

/// The model of a leaf value.
pub enum SpecDynValue {
    Num(u64),
    Text(Seq<u8>),
}

impl DynValue {
    pub open spec fn m(&self) -> SpecDynValue {
        match self {
            DynValue::Num(n) => SpecDynValue::Num(*n),
            DynValue::Text(b) => SpecDynValue::Text(b@),
        }
    }

    /// A copy of the leaf value.
    pub fn clone_value(&self) -> (r: DynValue)
        ensures
            r.m() == self.m(),
    {
        match self {
            DynValue::Num(n) => DynValue::Num(*n),
            DynValue::Text(b) => DynValue::Text(b.clone_props()),
        }
    }
}

/// One slot of a bag: its name, unset or holding a leaf value.
#[derive(Debug, PartialEq, Eq)]
pub struct DynField {
    pub name: Vec<u8>,
    pub prop: Option<DynValue>,
}

/// The model of a bag slot.
pub struct SpecDynField {
    pub name: Seq<u8>,
    pub prop: PropModel<SpecDynValue>,
}

impl DynField {
    pub open spec fn m(&self) -> SpecDynField {
        SpecDynField {
            name: self.name@,
            prop: match &self.prop {
                Option::None => PropModel::Unset,
                Option::Some(v) => PropModel::Value(v.m()),
            },
        }
    }
}

/// An erased property bag: the decoded slots of one schematic.
#[derive(Debug, PartialEq, Eq)]
pub struct DynProps {
    pub fields: Vec<DynField>,
}

/// The model of a bag.
pub open spec fn dyn_fields_m(s: Seq<DynField>) -> Seq<SpecDynField> {
    Seq::new(s.len(), |i: int| s[i].m())
}

impl DynProps {
    pub open spec fn m(&self) -> Seq<SpecDynField> {
        dyn_fields_m(self.fields@)
    }
}

/// The merge of two bags of one shape: a set slot of `b` replaces, an
/// unset one leaves `a`'s slot standing.
pub open spec fn dyn_merge(a: Seq<SpecDynField>, b: Seq<SpecDynField>) -> Seq<SpecDynField> {
    Seq::new(
        a.len(),
        |i: int|
            if 0 <= i < b.len() {
                SpecDynField {
                    name: a[i].name,
                    prop: match b[i].prop {
                        PropModel::Unset => a[i].prop,
                        PropModel::Value(v) => PropModel::Value(v),
                    },
                }
            } else {
                a[i]
            },
    )
}

/// The all-unset bag with the names of `a`.
pub open spec fn unset_of(a: Seq<SpecDynField>) -> Seq<SpecDynField> {
    Seq::new(a.len(), |i: int| SpecDynField { name: a[i].name, prop: PropModel::Unset })
}

/// Merging the all-unset bag into any bag leaves it unchanged: every slot
/// of the unset bag gives way.
pub proof fn lemma_dyn_merge_default_right(a: Seq<SpecDynField>)
    ensures
        dyn_merge(a, unset_of(a)) == a,
{
    assert(dyn_merge(a, unset_of(a)) =~= a);
}

/// Merging any bag into the all-unset bag of the same names gives that
/// bag: every set slot replaces, every unset slot stays unset.
pub proof fn lemma_dyn_merge_default_left(b: Seq<SpecDynField>)
    ensures
        dyn_merge(unset_of(b), b) == b,
{
    assert forall|i: int| 0 <= i < b.len() implies dyn_merge(unset_of(b), b)[i] == b[i] by {
        assert(dyn_merge(unset_of(b), b)[i].name == b[i].name);
    }
    assert(dyn_merge(unset_of(b), b) =~= b);
}

impl DynProps {
    /// Merge `other` into this bag, slot by slot.
    pub fn apply_props(&mut self, other: &DynProps)
        ensures
            final(self).m() == dyn_merge(old(self).m(), other.m()),
    {
        let mut i: usize = 0;
        while i < self.fields.len()
            invariant
                0 <= i <= self.fields@.len(),
                self.fields@.len() == old(self).fields@.len(),
                forall|j: int|
                    i <= j < self.fields@.len() ==> #[trigger] self.fields@[j] == old(
                        self,
                    ).fields@[j],
                forall|j: int|
                    0 <= j < i ==> #[trigger] self.fields@[j].m() == dyn_merge(
                        old(self).m(),
                        other.m(),
                    )[j],
            decreases self.fields@.len() - i,
        {
            if i < other.fields.len() {
                let replace = match &other.fields[i].prop {
                    Option::Some(v) => Option::Some(v.clone_value()),
                    Option::None => Option::None,
                };
                if let Option::Some(v) = replace {
                    let name = self.fields[i].name.clone_props();
                    self.fields.set(i, DynField { name, prop: Option::Some(v) });
                }
            }
            i = i + 1;
        }
        proof {
            assert forall|j: int| 0 <= j < self.m().len() implies self.m()[j] == dyn_merge(
                old(self).m(),
                other.m(),
            )[j] by {
                assert(self.m()[j] == self.fields@[j].m());
            }
            assert(self.m() =~= dyn_merge(old(self).m(), other.m()));
        }
    }
}

// ---------------------------------------------------------------------------
// The registry.

/// One registered type: its full path, its short name (the last path
/// segment), its type identity, whether it carries the schematic
/// capability, and its bag shape.
#[derive(Debug, PartialEq, Eq)]
pub struct RegistryEntry {
    pub type_path: Vec<u8>,
    pub short_name: Vec<u8>,
    pub type_id: u64,
    pub has_schematic: bool,
    pub fields: Vec<FieldShape>,
}

/// The model of a registration.
pub struct SpecRegistryEntry {
    pub type_path: Seq<u8>,
    pub short_name: Seq<u8>,
    pub type_id: u64,
    pub has_schematic: bool,
    pub fields: Seq<SpecFieldShape>,
}

impl RegistryEntry {
    pub open spec fn m(&self) -> SpecRegistryEntry {
        SpecRegistryEntry {
            type_path: self.type_path@,
            short_name: self.short_name@,
            type_id: self.type_id,
            has_schematic: self.has_schematic,
            fields: shapes_m(self.fields@),
        }
    }
}

/// The registry: the registrations, looked up by full path first, then by
/// short name.
#[derive(Debug, PartialEq, Eq)]
pub struct SchematicRegistry {
    pub entries: Vec<RegistryEntry>,
}

impl SchematicRegistry {
    pub open spec fn m(&self) -> Seq<SpecRegistryEntry> {
        Seq::new(self.entries@.len(), |i: int| self.entries@[i].m())
    }
}

/// The first registration whose full path is `p`.
pub open spec fn spec_find_full(entries: Seq<SpecRegistryEntry>, p: Seq<u8>) -> Option<int>
    decreases entries.len(),
{
    if entries.len() == 0 {
        Option::None
    } else if entries[0].type_path == p {
        Option::Some(0int)
    } else {
        match spec_find_full(entries.drop_first(), p) {
            Option::Some(i) => Option::Some(i + 1),
            Option::None => Option::None,
        }
    }
}

/// The first registration whose short name is `p`.
pub open spec fn spec_find_short(entries: Seq<SpecRegistryEntry>, p: Seq<u8>) -> Option<int>
    decreases entries.len(),
{
    if entries.len() == 0 {
        Option::None
    } else if entries[0].short_name == p {
        Option::Some(0int)
    } else {
        match spec_find_short(entries.drop_first(), p) {
            Option::Some(i) => Option::Some(i + 1),
            Option::None => Option::None,
        }
    }
}

/// The lookup: the full path first, then the short name.
pub open spec fn spec_lookup(entries: Seq<SpecRegistryEntry>, p: Seq<u8>) -> Option<int> {
    match spec_find_full(entries, p) {
        Option::Some(i) => Option::Some(i),
        Option::None => spec_find_short(entries, p),
    }
}

/// What a full-path find means: the first matching index, or no match at
/// all.
pub proof fn lemma_find_full(entries: Seq<SpecRegistryEntry>, p: Seq<u8>)
    ensures
        match spec_find_full(entries, p) {
            Option::Some(i) => 0 <= i < entries.len() && entries[i].type_path == p && forall|j: int|
                0 <= j < i ==> (#[trigger] entries[j]).type_path != p,
            Option::None => forall|j: int|
                0 <= j < entries.len() ==> (#[trigger] entries[j]).type_path != p,
        },
    decreases entries.len(),
{
    if entries.len() > 0 && entries[0].type_path != p {
        let rest = entries.drop_first();
        lemma_find_full(rest, p);
        match spec_find_full(rest, p) {
            Option::Some(i) => {
                assert(rest[i] == entries[i + 1]);
                assert forall|j: int| 0 <= j < i + 1 implies (#[trigger] entries[j]).type_path
                    != p by {
                    if j > 0 {
                        assert(rest[j - 1] == entries[j]);
                    }
                }
            },
            Option::None => {
                assert forall|j: int| 0 <= j < entries.len() implies (#[trigger] entries[j]).type_path
                    != p by {
                    if j > 0 {
                        assert(rest[j - 1] == entries[j]);
                    }
                }
            },
        }
    }
}

/// What a short-name find means.
pub proof fn lemma_find_short(entries: Seq<SpecRegistryEntry>, p: Seq<u8>)
    ensures
        match spec_find_short(entries, p) {
            Option::Some(i) => 0 <= i < entries.len() && entries[i].short_name == p && forall|
                j: int,
            | 0 <= j < i ==> (#[trigger] entries[j]).short_name != p,
            Option::None => forall|j: int|
                0 <= j < entries.len() ==> (#[trigger] entries[j]).short_name != p,
        },
    decreases entries.len(),
{
    if entries.len() > 0 && entries[0].short_name != p {
        let rest = entries.drop_first();
        lemma_find_short(rest, p);
        match spec_find_short(rest, p) {
            Option::Some(i) => {
                assert(rest[i] == entries[i + 1]);
                assert forall|j: int| 0 <= j < i + 1 implies (#[trigger] entries[j]).short_name
                    != p by {
                    if j > 0 {
                        assert(rest[j - 1] == entries[j]);
                    }
                }
            },
            Option::None => {
                assert forall|j: int| 0 <= j < entries.len() implies (#[trigger] entries[j]).short_name
                    != p by {
                    if j > 0 {
                        assert(rest[j - 1] == entries[j]);
                    }
                }
            },
        }
    }
}

impl SchematicRegistry {
    /// Look a type path up: the full path first, then the short name.
    pub fn get_with_short_name(&self, path: &Vec<u8>) -> (r: Option<usize>)
        ensures
            match spec_lookup(self.m(), path@) {
                Option::Some(i) => r matches Some(u) && u as int == i && i < self.entries@.len(),
                Option::None => r is None,
            },
    {
        proof {
            lemma_find_full(self.m(), path@);
            lemma_find_short(self.m(), path@);
        }
        let mut i: usize = 0;
        while i < self.entries.len()
            invariant
                0 <= i <= self.entries@.len(),
                forall|j: int| 0 <= j < i ==> (#[trigger] self.m()[j]).type_path != path@,
            decreases self.entries@.len() - i,
        {
            proof {
                lemma_find_full(self.m(), path@);
            }
            if bytes_eq(&self.entries[i].type_path, path) {
                proof {
                    assert(self.m()[i as int] == self.entries@[i as int].m());
                    assert(self.m()[i as int].type_path == path@);
                    match spec_find_full(self.m(), path@) {
                        Option::Some(ip) => {
                            if ip < i as int {
                                assert(self.m()[ip].type_path != path@);
                            }
                            if ip > i as int {
                                assert(self.m()[i as int].type_path != path@);
                            }
                        },
                        Option::None => {
                            assert(self.m()[i as int].type_path != path@);
                        },
                    }
                }
                return Some(i);
            }
            i = i + 1;
        }
        let mut i: usize = 0;
        while i < self.entries.len()
            invariant
                0 <= i <= self.entries@.len(),
                forall|j: int| 0 <= j < i ==> (#[trigger] self.m()[j]).short_name != path@,
                forall|j: int|
                    0 <= j < self.entries@.len() ==> (#[trigger] self.m()[j]).type_path != path@,
            decreases self.entries@.len() - i,
        {
            proof {
                lemma_find_full(self.m(), path@);
                lemma_find_short(self.m(), path@);
            }
            if bytes_eq(&self.entries[i].short_name, path) {
                proof {
                    assert(self.m()[i as int] == self.entries@[i as int].m());
                    assert(self.m()[i as int].short_name == path@);
                    match spec_find_short(self.m(), path@) {
                        Option::Some(ip) => {
                            if ip < i as int {
                                assert(self.m()[ip].short_name != path@);
                            }
                            if ip > i as int {
                                assert(self.m()[i as int].short_name != path@);
                            }
                        },
                        Option::None => {
                            assert(self.m()[i as int].short_name != path@);
                        },
                    }
                }
                return Some(i);
            }
            i = i + 1;
        }
        None
    }
}

// ---------------------------------------------------------------------------
// Decoding a config body against a shape.

/// The first slot of the shape named `name`.
pub open spec fn spec_find_shape(shape: Seq<SpecFieldShape>, name: Seq<u8>) -> Option<int>
    decreases shape.len(),
{
    if shape.len() == 0 {
        Option::None
    } else if shape[0].name == name {
        Option::Some(0int)
    } else {
        match spec_find_shape(shape.drop_first(), name) {
            Option::Some(i) => Option::Some(i + 1),
            Option::None => Option::None,
        }
    }
}

/// What a shape find means.
pub proof fn lemma_find_shape(shape: Seq<SpecFieldShape>, name: Seq<u8>)
    ensures
        match spec_find_shape(shape, name) {
            Option::Some(i) => 0 <= i < shape.len() && shape[i].name == name && forall|j: int|
                0 <= j < i ==> (#[trigger] shape[j]).name != name,
            Option::None => forall|j: int|
                0 <= j < shape.len() ==> (#[trigger] shape[j]).name != name,
        },
    decreases shape.len(),
{
    if shape.len() > 0 && shape[0].name != name {
        let rest = shape.drop_first();
        lemma_find_shape(rest, name);
        match spec_find_shape(rest, name) {
            Option::Some(i) => {
                assert(rest[i] == shape[i + 1]);
                assert forall|j: int| 0 <= j < i + 1 implies (#[trigger] shape[j]).name
                    != name by {
                    if j > 0 {
                        assert(rest[j - 1] == shape[j]);
                    }
                }
            },
            Option::None => {
                assert forall|j: int| 0 <= j < shape.len() implies (#[trigger] shape[j]).name
                    != name by {
                    if j > 0 {
                        assert(rest[j - 1] == shape[j]);
                    }
                }
            },
        }
    }
}

/// One leaf decode: a number slot takes a digit run, a text slot takes a
/// string literal.
pub open spec fn spec_decode_leaf(kind: FieldKind, v: SpecValue) -> Result<
    SpecDynValue,
    SpecFromBsnError,
> {
    match kind {
        FieldKind::Num => match v {
            SpecValue::Number(d) => match spec_decode_digits(d, u64::MAX as int) {
                Ok(n) => Ok(SpecDynValue::Num(n as u64)),
                Err(e) => Err(e),
            },
            _ => Err(SpecFromBsnError::MismatchedType),
        },
        FieldKind::Text => match v {
            SpecValue::String(b) => Ok(SpecDynValue::Text(b)),
            _ => Err(SpecFromBsnError::MismatchedType),
        },
    }
}

/// The all-unset bag of a shape.
pub open spec fn spec_unset_bag(shape: Seq<SpecFieldShape>) -> Seq<SpecDynField> {
    Seq::new(shape.len(), |i: int| SpecDynField { name: shape[i].name, prop: PropModel::Unset })
}

/// The walk over a config's named fields, in order: each must name a slot
/// of the shape and decode by its kind; the first failure wins.
pub open spec fn spec_decode_fields(
    shape: Seq<SpecFieldShape>,
    fs: Seq<SpecField>,
    acc: Seq<SpecDynField>,
) -> Result<Seq<SpecDynField>, SpecFromBsnError>
    decreases fs.len(),
{
    if fs.len() == 0 {
        Ok(acc)
    } else {
        let f = fs[0];
        match spec_find_shape(shape, f.name) {
            Option::None => Err(SpecFromBsnError::UnexpectedField(f.name)),
            Option::Some(k) => match spec_decode_leaf(shape[k].kind, f.value) {
                Err(e) => Err(e),
                Ok(v) => spec_decode_fields(
                    shape,
                    fs.drop_first(),
                    acc.update(k, SpecDynField { name: acc[k].name, prop: PropModel::Value(v) }),
                ),
            },
        }
    }
}

/// What a config body decodes to against a shape: named fields walk the
/// shape, an empty tuple gives the all-unset bag, anything else is a
/// mismatch.
pub open spec fn spec_props_from_bsn(shape: Seq<SpecFieldShape>, v: SpecValue) -> Result<
    Seq<SpecDynField>,
    SpecFromBsnError,
> {
    match v {
        SpecValue::Struct(SpecStruct::NamedFields(fs)) => spec_decode_fields(
            shape,
            fs,
            spec_unset_bag(shape),
        ),
        SpecValue::Struct(SpecStruct::Tuple(vs)) => if vs.len() == 0 {
            Ok(spec_unset_bag(shape))
        } else {
            Err(SpecFromBsnError::MismatchedType)
        },
        _ => Err(SpecFromBsnError::MismatchedType),
    }
}

/// Find the slot of `shape` named `name`.
fn find_shape_index(shape: &Vec<FieldShape>, name: &Vec<u8>) -> (r: Option<usize>)
    ensures
        match spec_find_shape(shapes_m(shape@), name@) {
            Option::Some(i) => r matches Some(u) && u as int == i && i < shape@.len(),
            Option::None => r is None,
        },
{
    proof {
        lemma_find_shape(shapes_m(shape@), name@);
    }
    let mut i: usize = 0;
    while i < shape.len()
        invariant
            0 <= i <= shape@.len(),
            forall|j: int| 0 <= j < i ==> (#[trigger] shapes_m(shape@)[j]).name != name@,
        decreases shape@.len() - i,
    {
        proof {
            lemma_find_shape(shapes_m(shape@), name@);
        }
        if bytes_eq(&shape[i].name, name) {
            proof {
                assert(shapes_m(shape@)[i as int] == shape@[i as int].m());
                assert(shapes_m(shape@)[i as int].name == name@);
                match spec_find_shape(shapes_m(shape@), name@) {
                    Option::Some(ip) => {
                        if ip < i as int {
                            assert(shapes_m(shape@)[ip].name != name@);
                        }
                        if ip > i as int {
                            assert(shapes_m(shape@)[i as int].name != name@);
                        }
                    },
                    Option::None => {
                        assert(shapes_m(shape@)[i as int].name != name@);
                    },
                }
            }
            return Some(i);
        }
        i = i + 1;
    }
    None
}

/// Decode one leaf.
fn decode_leaf(kind: FieldKind, v: BsnValue) -> (r: Result<DynValue, FromBsnError>)
    ensures
        match spec_decode_leaf(kind, v.deep()) {
            Ok(m) => r matches Ok(x) && x.m() == m,
            Err(e) => r matches Err(x) && x.m() == e,
        },
{
    match kind {
        FieldKind::Num => match v {
            BsnValue::Number(d) => match parse_u64_digits(&d) {
                Ok(n) => Ok(DynValue::Num(n)),
                Err(e) => Err(e),
            },
            _ => Err(FromBsnError::MismatchedType),
        },
        FieldKind::Text => match v {
            BsnValue::String(b) => Ok(DynValue::Text(b)),
            _ => Err(FromBsnError::MismatchedType),
        },
    }
}

/// The all-unset bag of a shape.
fn unset_bag(shape: &Vec<FieldShape>) -> (r: DynProps)
    ensures
        r.m() == spec_unset_bag(shapes_m(shape@)),
{
    let mut fields: Vec<DynField> = Vec::new();
    let mut i: usize = 0;
    while i < shape.len()
        invariant
            0 <= i <= shape@.len(),
            fields@.len() == i,
            forall|j: int|
                0 <= j < i ==> #[trigger] fields@[j].m() == (SpecDynField {
                    name: shapes_m(shape@)[j].name,
                    prop: PropModel::Unset,
                }),
        decreases shape@.len() - i,
    {
        let name = shape[i].name.clone_props();
        fields.push(DynField { name, prop: Option::None });
        i = i + 1;
    }
    let out = DynProps { fields };
    proof {
        assert forall|j: int| 0 <= j < out.m().len() implies out.m()[j] == spec_unset_bag(
            shapes_m(shape@),
        )[j] by {
            assert(out.m()[j] == out.fields@[j].m());
        }
        assert(out.m() =~= spec_unset_bag(shapes_m(shape@)));
    }
    out
}

/// Decode a config body against a shape: the erased `props_from_bsn` of a
/// registration.
pub fn props_from_bsn(shape: &Vec<FieldShape>, value: BsnValue) -> (r: Result<
    DynProps,
    FromBsnError,
>)
    ensures
        match spec_props_from_bsn(shapes_m(shape@), value.deep()) {
            Ok(m) => r matches Ok(x) && x.m() == m,
            Err(e) => r matches Err(x) && x.m() == e,
        },
{
    match value {
        BsnValue::Struct(BsnStruct::NamedFields(fields)) => {
            let ghost all = crate::ast::deep_fields(fields@);
            proof {
                assert(value.deep() == SpecValue::Struct(SpecStruct::NamedFields(all)));
            }
            let mut fields = fields;
            let mut props = unset_bag(shape);
            let mut err: Option<FromBsnError> = None;
            proof {
                crate::ast::lemma_deep_fields(fields@);
            }
            loop
                invariant_except_break
                    err is None,
                    props.m().len() == shapes_m(shape@).len(),
                    match spec_decode_fields(
                        shapes_m(shape@),
                        crate::ast::deep_fields(fields@),
                        props.m(),
                    ) {
                        Ok(m) => spec_decode_fields(
                            shapes_m(shape@),
                            all,
                            spec_unset_bag(shapes_m(shape@)),
                        ) == Ok::<Seq<SpecDynField>, SpecFromBsnError>(m),
                        Err(e) => spec_decode_fields(
                            shapes_m(shape@),
                            all,
                            spec_unset_bag(shapes_m(shape@)),
                        ) == Err::<Seq<SpecDynField>, SpecFromBsnError>(e),
                    },
                ensures
                    match err {
                        None => spec_decode_fields(
                            shapes_m(shape@),
                            all,
                            spec_unset_bag(shapes_m(shape@)),
                        ) == Ok::<Seq<SpecDynField>, SpecFromBsnError>(props.m()),
                        Some(e) => spec_decode_fields(
                            shapes_m(shape@),
                            all,
                            spec_unset_bag(shapes_m(shape@)),
                        ) == Err::<Seq<SpecDynField>, SpecFromBsnError>(e.m()),
                    },
                decreases fields@.len(),
            {
                proof {
                    crate::ast::lemma_deep_fields(fields@);
                }
                if fields.len() == 0 {
                    break;
                }
                let ghost pre = crate::ast::deep_fields(fields@);
                let ghost prev = fields@;
                let f = fields.remove(0);
                proof {
                    crate::ast::lemma_deep_fields(prev);
                    crate::ast::lemma_deep_fields(fields@);
                    assert(fields@ =~= prev.drop_first());
                    assert forall|n: int| 0 <= n < fields@.len() implies #[trigger] crate::ast::deep_fields(
                        fields@,
                    )[n] == pre.drop_first()[n] by {
                        assert(crate::ast::deep_fields(fields@)[n] == fields@[n].deep());
                        assert(pre[n + 1] == prev[n + 1].deep());
                    }
                    assert(crate::ast::deep_fields(fields@) =~= pre.drop_first());
                    assert(pre[0] == f.deep());
                }
                match find_shape_index(shape, &f.name) {
                    Some(k) => {
                        match decode_leaf(shape[k].kind, f.value) {
                            Ok(v) => {
                                let ghost before = props.m();
                                let name = props.fields[k].name.clone_props();
                                props.fields.set(k, DynField { name, prop: Option::Some(v) });
                                proof {
                                    assert forall|n: int| 0 <= n < props.m().len() implies props.m()[n]
                                        == before.update(
                                        k as int,
                                        SpecDynField {
                                            name: before[k as int].name,
                                            prop: PropModel::Value(v.m()),
                                        },
                                    )[n] by {
                                        assert(props.m()[n] == props.fields@[n].m());
                                    }
                                    assert(props.m() =~= before.update(
                                        k as int,
                                        SpecDynField {
                                            name: before[k as int].name,
                                            prop: PropModel::Value(v.m()),
                                        },
                                    ));
                                }
                            },
                            Err(e) => {
                                err = Some(e);
                                break;
                            },
                        }
                    },
                    None => {
                        err = Some(FromBsnError::UnexpectedField(f.name));
                        break;
                    },
                }
            }
            if let Some(e) = err {
                return Err(e);
            }
            Ok(props)
        },
        BsnValue::Struct(BsnStruct::Tuple(vs)) => {
            proof {
                crate::ast::lemma_deep_values(vs@);
            }
            if vs.len() == 0 {
                Ok(unset_bag(shape))
            } else {
                Err(FromBsnError::MismatchedType)
            }
        },
        _ => Err(FromBsnError::MismatchedType),
    }
}

} // verus!
