//! The BSN syntax tree, together with its mathematical model.
//!
//! The executable tree owns its slices of the source as byte vectors. Each
//! node has a model (`deep`) built from `Seq` and the model types below;
//! contracts throughout the crate speak of those models.

use vstd::prelude::*;

verus! {

broadcast use vstd::std_specs::vec::axiom_vec_decreases_to_view;

/// A whole scene: one root entity.
#[derive(Debug, PartialEq, Eq)]
pub struct BsnScene {
    pub root: BsnEntity,
}

/// One entity declaration: an optional name, its configs in source order,
/// and its children in source order.
#[derive(Debug, PartialEq, Eq)]
pub struct BsnEntity {
    pub name: Option<Vec<u8>>,
    pub configs: Vec<BsnEntityConfig>,
    pub children: Vec<BsnEntity>,
}

/// One config on an entity: a schematic value for a type path, or a
/// reference to a sub-scene asset by path.
#[derive(Debug, PartialEq, Eq)]
pub enum BsnEntityConfig {
    Schematic { type_path: Vec<u8>, schematic_type: SchematicType },
    Scene { path: Vec<u8> },
}

/// The body of a schematic config: a struct, or an enum variant.
#[derive(Debug, PartialEq, Eq)]
pub enum SchematicType {
    Struct(BsnStruct),
    Enum(BsnEnum),
}

/// A struct body: tuple values, or named fields.
#[derive(Debug, PartialEq, Eq)]
pub enum BsnStruct {
    Tuple(Vec<BsnValue>),
    NamedFields(Vec<BsnField>),
}

/// One named field and its value.
#[derive(Debug, PartialEq, Eq)]
pub struct BsnField {
    pub name: Vec<u8>,
    pub value: BsnValue,
}

/// An enum variant and its body.
#[derive(Debug, PartialEq, Eq)]
pub struct BsnEnum {
    pub variant: Vec<u8>,
    pub struct_type: BsnStruct,
}

/// A value: a struct, an enum, a run of ASCII digits, or the bytes between
/// string quotes.
#[derive(Debug, PartialEq, Eq)]
pub enum BsnValue {
    Struct(BsnStruct),
    Enum(BsnEnum),
    Number(Vec<u8>),
    String(Vec<u8>),
}

// ---------------------------------------------------------------------------
// Models

pub struct SpecScene {
    pub root: SpecEntity,
}

pub struct SpecEntity {
    pub name: Option<Seq<u8>>,
    pub configs: Seq<SpecConfig>,
    pub children: Seq<SpecEntity>,
}

pub enum SpecConfig {
    Schematic { type_path: Seq<u8>, schematic_type: SpecSchematicType },
    Scene { path: Seq<u8> },
}

pub enum SpecSchematicType {
    Struct(SpecStruct),
    Enum(SpecEnum),
}

pub enum SpecStruct {
    Tuple(Seq<SpecValue>),
    NamedFields(Seq<SpecField>),
}

pub struct SpecField {
    pub name: Seq<u8>,
    pub value: SpecValue,
}

pub struct SpecEnum {
    pub variant: Seq<u8>,
    pub struct_type: SpecStruct,
}

pub enum SpecValue {
    Struct(SpecStruct),
    Enum(SpecEnum),
    Number(Seq<u8>),
    String(Seq<u8>),
}

/// A schematic body read as a value: a struct stays a struct, an enum an
/// enum.
pub open spec fn schematic_type_value(t: SpecSchematicType) -> SpecValue {
    match t {
        SpecSchematicType::Struct(st) => SpecValue::Struct(st),
        SpecSchematicType::Enum(en) => SpecValue::Enum(en),
    }
}

impl SchematicType {
    /// Turn a schematic body into the value it denotes.
    pub fn into_value(self) -> (r: BsnValue)
        ensures
            r.deep() == schematic_type_value(self.deep()),
    {
        match self {
            SchematicType::Struct(st) => BsnValue::Struct(st),
            SchematicType::Enum(en) => BsnValue::Enum(en),
        }
    }
}

// ---------------------------------------------------------------------------
// From the executable tree to its model

impl BsnScene {
    pub open spec fn deep(&self) -> SpecScene {
        SpecScene { root: self.root.deep() }
    }
}

impl BsnEntity {
    pub open spec fn deep(&self) -> SpecEntity
        decreases self,
    {
        SpecEntity {
            name: match self.name {
                Some(n) => Some(n@),
                None => None,
            },
            configs: deep_configs(self.configs@),
            children: deep_entities(self.children@),
        }
    }
}

pub open spec fn deep_entities(s: Seq<BsnEntity>) -> Seq<SpecEntity>
    decreases s,
{
    if s.len() == 0 {
        Seq::empty()
    } else {
        deep_entities(s.drop_last()).push(s.last().deep())
    }
}

impl BsnEntityConfig {
    pub open spec fn deep(&self) -> SpecConfig
        decreases self,
    {
        match self {
            BsnEntityConfig::Schematic { type_path, schematic_type } => SpecConfig::Schematic {
                type_path: type_path@,
                schematic_type: schematic_type.deep(),
            },
            BsnEntityConfig::Scene { path } => SpecConfig::Scene { path: path@ },
        }
    }
}

pub open spec fn deep_configs(s: Seq<BsnEntityConfig>) -> Seq<SpecConfig>
    decreases s,
{
    if s.len() == 0 {
        Seq::empty()
    } else {
        deep_configs(s.drop_last()).push(s.last().deep())
    }
}

impl SchematicType {
    pub open spec fn deep(&self) -> SpecSchematicType
        decreases self,
    {
        match self {
            SchematicType::Struct(st) => SpecSchematicType::Struct(st.deep()),
            SchematicType::Enum(en) => SpecSchematicType::Enum(en.deep()),
        }
    }
}

impl BsnStruct {
    pub open spec fn deep(&self) -> SpecStruct
        decreases self,
    {
        match self {
            BsnStruct::Tuple(values) => SpecStruct::Tuple(deep_values(values@)),
            BsnStruct::NamedFields(fields) => SpecStruct::NamedFields(deep_fields(fields@)),
        }
    }
}

pub open spec fn deep_values(s: Seq<BsnValue>) -> Seq<SpecValue>
    decreases s,
{
    if s.len() == 0 {
        Seq::empty()
    } else {
        deep_values(s.drop_last()).push(s.last().deep())
    }
}

pub open spec fn deep_fields(s: Seq<BsnField>) -> Seq<SpecField>
    decreases s,
{
    if s.len() == 0 {
        Seq::empty()
    } else {
        deep_fields(s.drop_last()).push(s.last().deep())
    }
}

impl BsnField {
    pub open spec fn deep(&self) -> SpecField
        decreases self,
    {
        SpecField { name: self.name@, value: self.value.deep() }
    }
}

impl BsnEnum {
    pub open spec fn deep(&self) -> SpecEnum
        decreases self,
    {
        SpecEnum { variant: self.variant@, struct_type: self.struct_type.deep() }
    }
}

impl BsnValue {
    pub open spec fn deep(&self) -> SpecValue
        decreases self,
    {
        match self {
            BsnValue::Struct(st) => SpecValue::Struct(st.deep()),
            BsnValue::Enum(en) => SpecValue::Enum(en.deep()),
            BsnValue::Number(n) => SpecValue::Number(n@),
            BsnValue::String(n) => SpecValue::String(n@),
        }
    }
}

// ---------------------------------------------------------------------------
// The element-wise reading of the list models

pub broadcast proof fn lemma_deep_entities(s: Seq<BsnEntity>)
    ensures
        #[trigger] deep_entities(s).len() == s.len(),
        forall|i: int| 0 <= i < s.len() ==> deep_entities(s)[i] == #[trigger] s[i].deep(),
    decreases s,
{
    if s.len() > 0 {
        lemma_deep_entities(s.drop_last());
        assert forall|i: int| 0 <= i < s.len() implies deep_entities(s)[i] == #[trigger] s[i].deep() by {
            if i < s.len() - 1 {
                assert(s.drop_last()[i] == s[i]);
            }
        }
    }
}

pub broadcast proof fn lemma_deep_configs(s: Seq<BsnEntityConfig>)
    ensures
        #[trigger] deep_configs(s).len() == s.len(),
        forall|i: int| 0 <= i < s.len() ==> deep_configs(s)[i] == #[trigger] s[i].deep(),
    decreases s,
{
    if s.len() > 0 {
        lemma_deep_configs(s.drop_last());
        assert forall|i: int| 0 <= i < s.len() implies deep_configs(s)[i] == #[trigger] s[i].deep() by {
            if i < s.len() - 1 {
                assert(s.drop_last()[i] == s[i]);
            }
        }
    }
}

pub broadcast proof fn lemma_deep_values(s: Seq<BsnValue>)
    ensures
        #[trigger] deep_values(s).len() == s.len(),
        forall|i: int| 0 <= i < s.len() ==> deep_values(s)[i] == #[trigger] s[i].deep(),
    decreases s,
{
    if s.len() > 0 {
        lemma_deep_values(s.drop_last());
        assert forall|i: int| 0 <= i < s.len() implies deep_values(s)[i] == #[trigger] s[i].deep() by {
            if i < s.len() - 1 {
                assert(s.drop_last()[i] == s[i]);
            }
        }
    }
}

pub broadcast proof fn lemma_deep_fields(s: Seq<BsnField>)
    ensures
        #[trigger] deep_fields(s).len() == s.len(),
        forall|i: int| 0 <= i < s.len() ==> deep_fields(s)[i] == #[trigger] s[i].deep(),
    decreases s,
{
    if s.len() > 0 {
        lemma_deep_fields(s.drop_last());
        assert forall|i: int| 0 <= i < s.len() implies deep_fields(s)[i] == #[trigger] s[i].deep() by {
            if i < s.len() - 1 {
                assert(s.drop_last()[i] == s[i]);
            }
        }
    }
}

} // verus!
