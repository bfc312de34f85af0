//! Resolution: from a parsed entity tree to a resolved scene.
//!
//! Each schematic config looks its type path up in the registry and decodes
//! its body into a property bag; bags of one type identity merge into the
//! first occurrence. A sub-scene reference inlines an already-resolved
//! scene: its root may donate a name, its bags merge by type identity, and
//! its children come before the entity's own.

use vstd::prelude::*;

use crate::ast::BsnEntity;
use crate::ast::BsnEntityConfig;
use crate::ast::BsnScene;
use crate::ast::SpecConfig;
use crate::ast::SpecEntity;
use crate::ast::deep_configs;
use crate::ast::deep_entities;
use crate::ast::lemma_deep_configs;
use crate::ast::lemma_deep_entities;
use crate::ast::schematic_type_value;
use crate::from_bsn::FromBsnError;
use crate::from_bsn::SpecFromBsnError;
use crate::registry::DynProps;
use crate::registry::SchematicRegistry;
use crate::registry::SpecDynField;
use crate::registry::SpecRegistryEntry;
use crate::registry::dyn_fields_m;
use crate::registry::dyn_merge;
use crate::registry::props_from_bsn;
use crate::registry::spec_lookup;
use crate::registry::spec_props_from_bsn;
use crate::schematic::Props;

verus! {

broadcast use vstd::std_specs::vec::axiom_vec_decreases_to_view;

/// Why resolution failed.
#[derive(Debug, PartialEq, Eq)]
pub enum SceneFromBsnError {
    /// The type path is not registered.
    UnregisteredTypePath { type_path: Vec<u8> },
    /// The type is registered without the schematic capability.
    MissingSchematicRegistrationForValue { type_path: Vec<u8> },
    /// The type wants a struct with named fields.
    ExpectedNamedFieldStruct { type_path: Vec<u8> },
    /// The struct has no field of this name.
    UnknownFieldInStruct { type_path: Vec<u8>, field: Vec<u8> },
    /// The tuple struct wants a value at this index.
    ExpectedTupleStructIndex { type_path: Vec<u8>, index: usize },
    /// The type wants a tuple struct.
    ExpectedTupleStruct { type_path: Vec<u8> },
    /// A value did not decode.
    FromBsnError(FromBsnError),
    /// The referenced sub-scene is not among the loaded scenes.
    LoadSceneError { path: Vec<u8> },
}

/// The model of a resolution failure.
pub enum SpecSceneError {
    UnregisteredTypePath { type_path: Seq<u8> },
    MissingSchematicRegistrationForValue { type_path: Seq<u8> },
    ExpectedNamedFieldStruct { type_path: Seq<u8> },
    UnknownFieldInStruct { type_path: Seq<u8>, field: Seq<u8> },
    ExpectedTupleStructIndex { type_path: Seq<u8>, index: int },
    ExpectedTupleStruct { type_path: Seq<u8> },
    FromBsnError(SpecFromBsnError),
    LoadSceneError { path: Seq<u8> },
}

impl SceneFromBsnError {
    pub open spec fn m(&self) -> SpecSceneError {
        match self {
            SceneFromBsnError::UnregisteredTypePath { type_path } => SpecSceneError::UnregisteredTypePath {
                type_path: type_path@,
            },
            SceneFromBsnError::MissingSchematicRegistrationForValue {
                type_path,
            } => SpecSceneError::MissingSchematicRegistrationForValue { type_path: type_path@ },
            SceneFromBsnError::ExpectedNamedFieldStruct { type_path } => SpecSceneError::ExpectedNamedFieldStruct {
                type_path: type_path@,
            },
            SceneFromBsnError::UnknownFieldInStruct { type_path, field } => SpecSceneError::UnknownFieldInStruct {
                type_path: type_path@,
                field: field@,
            },
            SceneFromBsnError::ExpectedTupleStructIndex { type_path, index } => SpecSceneError::ExpectedTupleStructIndex {
                type_path: type_path@,
                index: *index as int,
            },
            SceneFromBsnError::ExpectedTupleStruct { type_path } => SpecSceneError::ExpectedTupleStruct {
                type_path: type_path@,
            },
            SceneFromBsnError::FromBsnError(e) => SpecSceneError::FromBsnError(e.m()),
            SceneFromBsnError::LoadSceneError { path } => SpecSceneError::LoadSceneError {
                path: path@,
            },
        }
    }
}

/// One resolved schematic: a type identity and its property bag.
#[derive(Debug, PartialEq, Eq)]
pub struct SceneSchematic {
    pub type_id: u64,
    pub props: DynProps,
}

/// The model of a resolved schematic.
pub struct SpecSceneSchematic {
    pub type_id: u64,
    pub props: Seq<SpecDynField>,
}

impl SceneSchematic {
    pub open spec fn m(&self) -> SpecSceneSchematic {
        SpecSceneSchematic { type_id: self.type_id, props: self.props.m() }
    }

    /// A copy of the schematic.
    pub fn clone_schematic(&self) -> (r: SceneSchematic)
        ensures
            r.m() == self.m(),
    {
        let mut fields: Vec<crate::registry::DynField> = Vec::new();
        let mut i: usize = 0;
        while i < self.props.fields.len()
            invariant
                0 <= i <= self.props.fields@.len(),
                fields@.len() == i,
                forall|j: int|
                    0 <= j < i ==> #[trigger] fields@[j].m() == self.props.fields@[j].m(),
            decreases self.props.fields@.len() - i,
        {
            let f = &self.props.fields[i];
            let prop = match &f.prop {
                Option::Some(v) => Option::Some(v.clone_value()),
                Option::None => Option::None,
            };
            fields.push(crate::registry::DynField { name: f.name.clone_props(), prop });
            i = i + 1;
        }
        let out = SceneSchematic { type_id: self.type_id, props: DynProps { fields } };
        proof {
            assert forall|j: int| 0 <= j < out.props.m().len() implies out.props.m()[j]
                == self.props.m()[j] by {
                assert(out.props.m()[j] == out.props.fields@[j].m());
                assert(self.props.m()[j] == self.props.fields@[j].m());
            }
            assert(out.props.m() =~= self.props.m());
        }
        out
    }
}

/// A resolved entity: an optional name, its schematics (unique by type
/// identity), its children in order.
#[derive(Debug, PartialEq, Eq)]
pub struct SceneEntity {
    pub name: Option<Vec<u8>>,
    pub schematics: Vec<SceneSchematic>,
    pub children: Vec<SceneEntity>,
}

/// The model of a resolved entity.
pub struct SpecSceneEntity {
    pub name: Option<Seq<u8>>,
    pub schematics: Seq<SpecSceneSchematic>,
    pub children: Seq<SpecSceneEntity>,
}

/// The model of a name.
pub open spec fn name_m(n: Option<Vec<u8>>) -> Option<Seq<u8>> {
    match n {
        Option::Some(v) => Option::Some(v@),
        Option::None => Option::None,
    }
}

/// The model of a schematics list.
pub open spec fn scene_schematics_m(s: Seq<SceneSchematic>) -> Seq<SpecSceneSchematic> {
    Seq::new(s.len(), |i: int| s[i].m())
}

impl SceneEntity {
    pub open spec fn m(&self) -> SpecSceneEntity
        decreases self,
    {
        SpecSceneEntity {
            name: name_m(self.name),
            schematics: scene_schematics_m(self.schematics@),
            children: scene_entities_m(self.children@),
        }
    }
}

/// The model of a resolved-entity list.
pub open spec fn scene_entities_m(s: Seq<SceneEntity>) -> Seq<SpecSceneEntity>
    decreases s,
{
    if s.len() == 0 {
        Seq::empty()
    } else {
        scene_entities_m(s.drop_last()).push(s.last().m())
    }
}

pub broadcast proof fn lemma_scene_entities_m(s: Seq<SceneEntity>)
    ensures
        #[trigger] scene_entities_m(s).len() == s.len(),
        forall|i: int| 0 <= i < s.len() ==> scene_entities_m(s)[i] == #[trigger] s[i].m(),
    decreases s,
{
    if s.len() > 0 {
        lemma_scene_entities_m(s.drop_last());
        assert forall|i: int| 0 <= i < s.len() implies scene_entities_m(s)[i] == #[trigger] s[i].m() by {
            if i < s.len() - 1 {
                assert(s.drop_last()[i] == s[i]);
            }
        }
    }
}

/// A resolved scene: one root entity.
#[derive(Debug, PartialEq, Eq)]
pub struct Scene {
    pub root: SceneEntity,
}

/// One loaded sub-scene: its asset path and its resolved scene.
#[derive(Debug, PartialEq, Eq)]
pub struct SceneAsset {
    pub path: Vec<u8>,
    pub scene: Scene,
}

/// The model of a loaded sub-scene.
pub struct SpecSceneAsset {
    pub path: Seq<u8>,
    pub root: SpecSceneEntity,
}

impl SceneAsset {
    pub open spec fn m(&self) -> SpecSceneAsset {
        SpecSceneAsset { path: self.path@, root: self.scene.root.m() }
    }
}

/// The loaded sub-scenes a resolution may reference, keyed by path.
#[derive(Debug, PartialEq, Eq)]
pub struct SceneTable {
    pub scenes: Vec<SceneAsset>,
}

impl SceneTable {
    pub open spec fn m(&self) -> Seq<SpecSceneAsset> {
        Seq::new(self.scenes@.len(), |i: int| self.scenes@[i].m())
    }
}

// ---------------------------------------------------------------------------
// The meaning of resolution.

/// The first schematic with this type identity.
pub open spec fn spec_find_schematic(s: Seq<SpecSceneSchematic>, id: u64) -> Option<int>
    decreases s.len(),
{
    if s.len() == 0 {
        Option::None
    } else if s[0].type_id == id {
        Option::Some(0int)
    } else {
        match spec_find_schematic(s.drop_first(), id) {
            Option::Some(i) => Option::Some(i + 1),
            Option::None => Option::None,
        }
    }
}

/// What a schematic find means.
pub proof fn lemma_find_schematic(s: Seq<SpecSceneSchematic>, id: u64)
    ensures
        match spec_find_schematic(s, id) {
            Option::Some(i) => 0 <= i < s.len() && s[i].type_id == id && forall|j: int|
                0 <= j < i ==> (#[trigger] s[j]).type_id != id,
            Option::None => forall|j: int| 0 <= j < s.len() ==> (#[trigger] s[j]).type_id != id,
        },
    decreases s.len(),
{
    if s.len() > 0 && s[0].type_id != id {
        let rest = s.drop_first();
        lemma_find_schematic(rest, id);
        match spec_find_schematic(rest, id) {
            Option::Some(i) => {
                assert(rest[i] == s[i + 1]);
                assert forall|j: int| 0 <= j < i + 1 implies (#[trigger] s[j]).type_id != id by {
                    if j > 0 {
                        assert(rest[j - 1] == s[j]);
                    }
                }
            },
            Option::None => {
                assert forall|j: int| 0 <= j < s.len() implies (#[trigger] s[j]).type_id != id by {
                    if j > 0 {
                        assert(rest[j - 1] == s[j]);
                    }
                }
            },
        }
    }
}

/// Insert a schematic, or merge it into the first one of its type
/// identity.
pub open spec fn spec_apply_or_insert(s: Seq<SpecSceneSchematic>, sch: SpecSceneSchematic) -> Seq<
    SpecSceneSchematic,
> {
    match spec_find_schematic(s, sch.type_id) {
        Option::Some(i) => s.update(
            i,
            SpecSceneSchematic { type_id: sch.type_id, props: dyn_merge(s[i].props, sch.props) },
        ),
        Option::None => s.push(sch),
    }
}

/// Merge a whole list of schematics in, in order.
pub open spec fn spec_merge_all(
    s: Seq<SpecSceneSchematic>,
    other: Seq<SpecSceneSchematic>,
) -> Seq<SpecSceneSchematic>
    decreases other.len(),
{
    if other.len() == 0 {
        s
    } else {
        spec_merge_all(spec_apply_or_insert(s, other[0]), other.drop_first())
    }
}

/// The first loaded scene with this path.
pub open spec fn spec_find_scene(table: Seq<SpecSceneAsset>, path: Seq<u8>) -> Option<int>
    decreases table.len(),
{
    if table.len() == 0 {
        Option::None
    } else if table[0].path == path {
        Option::Some(0int)
    } else {
        match spec_find_scene(table.drop_first(), path) {
            Option::Some(i) => Option::Some(i + 1),
            Option::None => Option::None,
        }
    }
}

/// What a scene find means.
pub proof fn lemma_find_scene(table: Seq<SpecSceneAsset>, path: Seq<u8>)
    ensures
        match spec_find_scene(table, path) {
            Option::Some(i) => 0 <= i < table.len() && table[i].path == path && forall|j: int|
                0 <= j < i ==> (#[trigger] table[j]).path != path,
            Option::None => forall|j: int|
                0 <= j < table.len() ==> (#[trigger] table[j]).path != path,
        },
    decreases table.len(),
{
    if table.len() > 0 && table[0].path != path {
        let rest = table.drop_first();
        lemma_find_scene(rest, path);
        match spec_find_scene(rest, path) {
            Option::Some(i) => {
                assert(rest[i] == table[i + 1]);
                assert forall|j: int| 0 <= j < i + 1 implies (#[trigger] table[j]).path != path by {
                    if j > 0 {
                        assert(rest[j - 1] == table[j]);
                    }
                }
            },
            Option::None => {
                assert forall|j: int| 0 <= j < table.len() implies (#[trigger] table[j]).path
                    != path by {
                    if j > 0 {
                        assert(rest[j - 1] == table[j]);
                    }
                }
            },
        }
    }
}

/// One resolution step: a schematic config decodes and merges in; a
/// sub-scene reference inlines the loaded scene.
pub open spec fn spec_resolve_config(
    reg: Seq<SpecRegistryEntry>,
    table: Seq<SpecSceneAsset>,
    st: SpecSceneEntity,
    cf: SpecConfig,
) -> Result<SpecSceneEntity, SpecSceneError> {
    match cf {
        SpecConfig::Schematic { type_path, schematic_type } => match spec_lookup(reg, type_path) {
            Option::None => Err(SpecSceneError::UnregisteredTypePath { type_path }),
            Option::Some(i) => if !reg[i].has_schematic {
                Err(SpecSceneError::MissingSchematicRegistrationForValue { type_path })
            } else {
                match spec_props_from_bsn(reg[i].fields, schematic_type_value(schematic_type)) {
                    Err(e) => Err(SpecSceneError::FromBsnError(e)),
                    Ok(props) => Ok(
                        SpecSceneEntity {
                            name: st.name,
                            schematics: spec_apply_or_insert(
                                st.schematics,
                                SpecSceneSchematic { type_id: reg[i].type_id, props },
                            ),
                            children: st.children,
                        },
                    ),
                }
            },
        },
        SpecConfig::Scene { path } => match spec_find_scene(table, path) {
            Option::None => Err(SpecSceneError::LoadSceneError { path }),
            Option::Some(k) => Ok(
                SpecSceneEntity {
                    name: if st.name is None {
                        table[k].root.name
                    } else {
                        st.name
                    },
                    schematics: spec_merge_all(st.schematics, table[k].root.schematics),
                    children: st.children + table[k].root.children,
                },
            ),
        },
    }
}

/// The fold of the resolution steps over an entity's configs, in order;
/// the first failure wins.
pub open spec fn spec_resolve_configs(
    reg: Seq<SpecRegistryEntry>,
    table: Seq<SpecSceneAsset>,
    st: SpecSceneEntity,
    cfgs: Seq<SpecConfig>,
) -> Result<SpecSceneEntity, SpecSceneError>
    decreases cfgs.len(),
{
    if cfgs.len() == 0 {
        Ok(st)
    } else {
        match spec_resolve_config(reg, table, st, cfgs[0]) {
            Err(e) => Err(e),
            Ok(st2) => spec_resolve_configs(reg, table, st2, cfgs.drop_first()),
        }
    }
}

/// Resolution of one entity: fold the configs from the bare state, then
/// resolve the explicit children and append them after any children the
/// sub-scenes contributed.
pub open spec fn spec_resolve_entity(
    reg: Seq<SpecRegistryEntry>,
    table: Seq<SpecSceneAsset>,
    e: SpecEntity,
) -> Result<SpecSceneEntity, SpecSceneError>
    decreases e, 1int,
{
    let st0 = SpecSceneEntity { name: e.name, schematics: Seq::empty(), children: Seq::empty() };
    match spec_resolve_configs(reg, table, st0, e.configs) {
        Err(er) => Err(er),
        Ok(st) => match spec_resolve_children(reg, table, e.children) {
            Err(er) => Err(er),
            Ok(kids) => Ok(
                SpecSceneEntity {
                    name: st.name,
                    schematics: st.schematics,
                    children: st.children + kids,
                },
            ),
        },
    }
}

/// Resolution of a list of entities, in order; the first failure wins.
pub open spec fn spec_resolve_children(
    reg: Seq<SpecRegistryEntry>,
    table: Seq<SpecSceneAsset>,
    s: Seq<SpecEntity>,
) -> Result<Seq<SpecSceneEntity>, SpecSceneError>
    decreases s, 0int,
{
    if s.len() == 0 {
        Ok(Seq::empty())
    } else {
        match spec_resolve_entity(reg, table, s[0]) {
            Err(er) => Err(er),
            Ok(en) => match spec_resolve_children(reg, table, s.drop_first()) {
                Err(er) => Err(er),
                Ok(rest) => Ok(seq![en] + rest),
            },
        }
    }
}

// ---------------------------------------------------------------------------
// The executable resolver.

/// A copy of an optional name.
fn clone_name(n: &Option<Vec<u8>>) -> (r: Option<Vec<u8>>)
    ensures
        name_m(r) == name_m(*n),
{
    match n {
        Option::Some(v) => Option::Some(v.clone_props()),
        Option::None => Option::None,
    }
}

impl SceneEntity {
    /// A copy of the resolved entity.
    pub fn clone_entity(&self) -> (r: SceneEntity)
        ensures
            r.m() == self.m(),
        decreases self,
    {
        let name = clone_name(&self.name);
        let mut schematics: Vec<SceneSchematic> = Vec::new();
        let mut i: usize = 0;
        while i < self.schematics.len()
            invariant
                0 <= i <= self.schematics@.len(),
                schematics@.len() == i,
                forall|j: int|
                    0 <= j < i ==> #[trigger] schematics@[j].m() == self.schematics@[j].m(),
            decreases self.schematics@.len() - i,
        {
            let c = self.schematics[i].clone_schematic();
            schematics.push(c);
            i = i + 1;
        }
        let mut children: Vec<SceneEntity> = Vec::new();
        let mut i: usize = 0;
        while i < self.children.len()
            invariant
                0 <= i <= self.children@.len(),
                children@.len() == i,
                forall|j: int| 0 <= j < i ==> #[trigger] children@[j].m() == self.children@[j].m(),
            decreases self.children@.len() - i,
        {
            let c = self.children[i].clone_entity();
            children.push(c);
            i = i + 1;
        }
        let out = SceneEntity { name, schematics, children };
        proof {
            lemma_scene_entities_m(out.children@);
            lemma_scene_entities_m(self.children@);
            assert forall|j: int| 0 <= j < out.schematics@.len() implies scene_schematics_m(
                out.schematics@,
            )[j] == scene_schematics_m(self.schematics@)[j] by {
                assert(out.schematics@[j].m() == self.schematics@[j].m());
            }
            assert(scene_schematics_m(out.schematics@) =~= scene_schematics_m(self.schematics@));
            assert forall|j: int| 0 <= j < out.children@.len() implies scene_entities_m(
                out.children@,
            )[j] == scene_entities_m(self.children@)[j] by {
                assert(out.children@[j].m() == self.children@[j].m());
            }
            assert(scene_entities_m(out.children@) =~= scene_entities_m(self.children@));
        }
        out
    }
}

/// Insert a schematic, or merge it into the first one of its type
/// identity.
fn apply_or_insert_schematic(schematics: &mut Vec<SceneSchematic>, sch: SceneSchematic)
    ensures
        scene_schematics_m(final(schematics)@) == spec_apply_or_insert(
            scene_schematics_m(old(schematics)@),
            sch.m(),
        ),
{
    proof {
        lemma_find_schematic(scene_schematics_m(schematics@), sch.m().type_id);
    }
    let ghost before = scene_schematics_m(schematics@);
    let mut i: usize = 0;
    while i < schematics.len()
        invariant
            0 <= i <= schematics@.len(),
            schematics@ == old(schematics)@,
            before == scene_schematics_m(schematics@),
            forall|j: int| 0 <= j < i ==> (#[trigger] before[j]).type_id != sch.m().type_id,
        decreases schematics@.len() - i,
    {
        proof {
            lemma_find_schematic(before, sch.m().type_id);
        }
        if schematics[i].type_id == sch.type_id {
            proof {
                assert(before[i as int] == schematics@[i as int].m());
                assert(before[i as int].type_id == sch.m().type_id);
                match spec_find_schematic(before, sch.m().type_id) {
                    Option::Some(ip) => {
                        if ip < i as int {
                            assert(before[ip].type_id != sch.m().type_id);
                        }
                        if ip > i as int {
                            assert(before[i as int].type_id != sch.m().type_id);
                        }
                    },
                    Option::None => {
                        assert(before[i as int].type_id != sch.m().type_id);
                    },
                }
            }
            let mut elem = schematics.remove(i);
            elem.props.apply_props(&sch.props);
            schematics.insert(i, elem);
            proof {
                assert(spec_find_schematic(before, sch.m().type_id) == Option::Some(i as int));
                assert forall|j: int| 0 <= j < scene_schematics_m(schematics@).len() implies
                    scene_schematics_m(schematics@)[j] == spec_apply_or_insert(before, sch.m())[j] by {
                    assert(scene_schematics_m(schematics@)[j] == schematics@[j].m());
                    if j < i as int {
                        assert(schematics@[j] == old(schematics)@[j]);
                    } else if j > i as int {
                        assert(schematics@[j] == old(schematics)@[j]);
                    }
                }
                assert(scene_schematics_m(schematics@) =~= spec_apply_or_insert(before, sch.m()));
            }
            return ;
        }
        i = i + 1;
    }
    proof {
        lemma_find_schematic(before, sch.m().type_id);
        assert(spec_find_schematic(before, sch.m().type_id) is None);
    }
    schematics.push(sch);
    proof {
        assert forall|j: int| 0 <= j < scene_schematics_m(schematics@).len() implies
            scene_schematics_m(schematics@)[j] == spec_apply_or_insert(before, sch.m())[j] by {
            assert(scene_schematics_m(schematics@)[j] == schematics@[j].m());
        }
        assert(scene_schematics_m(schematics@) =~= spec_apply_or_insert(before, sch.m()));
    }
}

/// Find the loaded scene with this path.
fn find_scene_index(table: &SceneTable, path: &Vec<u8>) -> (r: Option<usize>)
    ensures
        match spec_find_scene(table.m(), path@) {
            Option::Some(i) => r matches Some(u) && u as int == i && i < table.scenes@.len(),
            Option::None => r is None,
        },
{
    let mut i: usize = 0;
    while i < table.scenes.len()
        invariant
            0 <= i <= table.scenes@.len(),
            forall|j: int| 0 <= j < i ==> (#[trigger] table.m()[j]).path != path@,
        decreases table.scenes@.len() - i,
    {
        proof {
            lemma_find_scene(table.m(), path@);
        }
        if crate::registry::bytes_eq(&table.scenes[i].path, path) {
            proof {
                assert(table.m()[i as int] == table.scenes@[i as int].m());
                assert(table.m()[i as int].path == path@);
                match spec_find_scene(table.m(), path@) {
                    Option::Some(ip) => {
                        if ip < i as int {
                            assert(table.m()[ip].path != path@);
                        }
                        if ip > i as int {
                            assert(table.m()[i as int].path != path@);
                        }
                    },
                    Option::None => {
                        assert(table.m()[i as int].path != path@);
                    },
                }
            }
            return Some(i);
        }
        i = i + 1;
    }
    proof {
        lemma_find_scene(table.m(), path@);
    }
    None
}

/// Inline a loaded sub-scene's root: donate its name when the entity has
/// none, merge its schematics in, and append its children.
fn inline_subscene(
    name: &mut Option<Vec<u8>>,
    schematics: &mut Vec<SceneSchematic>,
    children: &mut Vec<SceneEntity>,
    sub: &SceneEntity,
)
    ensures
        name_m(*final(name)) == (if name_m(*old(name)) is None {
            sub.m().name
        } else {
            name_m(*old(name))
        }),
        scene_schematics_m(final(schematics)@) == spec_merge_all(
            scene_schematics_m(old(schematics)@),
            sub.m().schematics,
        ),
        scene_entities_m(final(children)@) == scene_entities_m(old(children)@)
            + sub.m().children,
{
    if name.is_none() {
        let adopted = clone_name(&sub.name);
        *name = adopted;
    }
    let ghost target = spec_merge_all(scene_schematics_m(schematics@), sub.m().schematics);
    proof {
        assert(sub.m().schematics.subrange(0, sub.m().schematics.len() as int)
            =~= sub.m().schematics);
    }
    let mut i: usize = 0;
    while i < sub.schematics.len()
        invariant
            0 <= i <= sub.schematics@.len(),
            spec_merge_all(
                scene_schematics_m(schematics@),
                sub.m().schematics.subrange(i as int, sub.m().schematics.len() as int),
            ) == target,
            target == spec_merge_all(
                scene_schematics_m(old(schematics)@),
                sub.m().schematics,
            ),
            sub.m().schematics.len() == sub.schematics@.len(),
        decreases sub.schematics@.len() - i,
    {
        let sch = sub.schematics[i].clone_schematic();
        let ghost remaining = sub.m().schematics.subrange(i as int, sub.m().schematics.len() as int);
        apply_or_insert_schematic(schematics, sch);
        proof {
            assert(remaining[0] == sub.m().schematics[i as int]);
            assert(remaining.drop_first() =~= sub.m().schematics.subrange(
                i as int + 1,
                sub.m().schematics.len() as int,
            ));
        }
        i = i + 1;
    }
    proof {
        assert(sub.m().schematics.subrange(
            sub.m().schematics.len() as int,
            sub.m().schematics.len() as int,
        ) =~= Seq::<SpecSceneSchematic>::empty());
    }
    proof {
        lemma_scene_entities_m(sub.children@);
        assert(scene_entities_m(children@) =~= scene_entities_m(children@)
            + sub.m().children.subrange(0, 0));
    }
    let mut i: usize = 0;
    while i < sub.children.len()
        invariant
            0 <= i <= sub.children@.len(),
            sub.m().children.len() == sub.children@.len(),
            scene_entities_m(children@) == scene_entities_m(old(children)@)
                + sub.m().children.subrange(0, i as int),
        decreases sub.children@.len() - i,
    {
        let c = sub.children[i].clone_entity();
        let ghost before = children@;
        children.push(c);
        proof {
            lemma_scene_entities_m(children@);
            lemma_scene_entities_m(before);
            lemma_scene_entities_m(sub.children@);
            assert(sub.m().children[i as int] == sub.children@[i as int].m());
            assert(children@.drop_last() =~= before);
            assert(children@.last() == c);
            assert(scene_entities_m(children@) =~= scene_entities_m(before).push(
                sub.children@[i as int].m(),
            ));
            assert(scene_entities_m(children@) =~= scene_entities_m(old(children)@)
                + sub.m().children.subrange(0, i as int + 1));
        }
        i = i + 1;
    }
    proof {
        lemma_scene_entities_m(sub.children@);
        assert(sub.m().children.subrange(0, sub.m().children.len() as int) =~= sub.m().children);
    }
}

impl SceneEntity {
    /// Resolve one parsed entity against the registry and the loaded
    /// sub-scenes.
    pub fn from_bsn(bsn: BsnEntity, registry: &SchematicRegistry, scenes: &SceneTable) -> (r:
        Result<SceneEntity, SceneFromBsnError>)
        ensures
            match spec_resolve_entity(registry.m(), scenes.m(), bsn.deep()) {
                Ok(m) => r matches Ok(x) && x.m() == m,
                Err(e) => r matches Err(x) && x.m() == e,
            },
        decreases bsn,
    {
        let ghost reg = registry.m();
        let ghost tab = scenes.m();
        let ghost e0 = bsn.deep();
        let BsnEntity { name, configs, children } = bsn;
        let ghost orig_children = children@;
        proof {
            assert(e0.configs == deep_configs(configs@));
            assert(e0.children == deep_entities(children@));
            assert(e0.name == name_m(name));
        }
        let mut name = name;
        let mut schematics: Vec<SceneSchematic> = Vec::new();
        let mut inlined: Vec<SceneEntity> = Vec::new();
        let ghost st0 = SpecSceneEntity {
            name: e0.name,
            schematics: Seq::empty(),
            children: Seq::empty(),
        };
        proof {
            assert(scene_schematics_m(schematics@) =~= Seq::<SpecSceneSchematic>::empty());
            assert(scene_entities_m(inlined@) =~= Seq::<SpecSceneEntity>::empty());
        }
        let mut configs = configs;
        let mut err: Option<SceneFromBsnError> = None;
        loop
            invariant_except_break
                err is None,
                match spec_resolve_configs(
                    reg,
                    tab,
                    SpecSceneEntity {
                        name: name_m(name),
                        schematics: scene_schematics_m(schematics@),
                        children: scene_entities_m(inlined@),
                    },
                    deep_configs(configs@),
                ) {
                    Ok(m) => spec_resolve_configs(reg, tab, st0, e0.configs) == Ok::<
                        SpecSceneEntity,
                        SpecSceneError,
                    >(m),
                    Err(e) => spec_resolve_configs(reg, tab, st0, e0.configs) == Err::<
                        SpecSceneEntity,
                        SpecSceneError,
                    >(e),
                },
            invariant
                reg == registry.m(),
                tab == scenes.m(),
                e0 == bsn.deep(),
                st0 == (SpecSceneEntity {
                    name: e0.name,
                    schematics: Seq::<SpecSceneSchematic>::empty(),
                    children: Seq::<SpecSceneEntity>::empty(),
                }),
            ensures
                match err {
                    None => spec_resolve_configs(reg, tab, st0, e0.configs) == Ok::<
                        SpecSceneEntity,
                        SpecSceneError,
                    >(
                        SpecSceneEntity {
                            name: name_m(name),
                            schematics: scene_schematics_m(schematics@),
                            children: scene_entities_m(inlined@),
                        },
                    ),
                    Some(x) => spec_resolve_configs(reg, tab, st0, e0.configs) == Err::<
                        SpecSceneEntity,
                        SpecSceneError,
                    >(x.m()),
                },
            decreases configs@.len(),
        {
            proof {
                lemma_deep_configs(configs@);
            }
            if configs.len() == 0 {
                break;
            }
            let ghost pre = deep_configs(configs@);
            let ghost prev = configs@;
            let cf = configs.remove(0);
            proof {
                lemma_deep_configs(prev);
                lemma_deep_configs(configs@);
                assert(configs@ =~= prev.drop_first());
                assert forall|n: int| 0 <= n < configs@.len() implies #[trigger] deep_configs(
                    configs@,
                )[n] == pre.drop_first()[n] by {
                    assert(deep_configs(configs@)[n] == configs@[n].deep());
                    assert(pre[n + 1] == prev[n + 1].deep());
                }
                assert(deep_configs(configs@) =~= pre.drop_first());
                assert(pre[0] == cf.deep());
            }
            match cf {
                BsnEntityConfig::Schematic { type_path, schematic_type } => {
                    match registry.get_with_short_name(&type_path) {
                        None => {
                            err = Some(SceneFromBsnError::UnregisteredTypePath { type_path });
                            break;
                        },
                        Some(idx) => {
                            if !registry.entries[idx].has_schematic {
                                proof {
                                    assert(reg[idx as int] == registry.entries@[idx as int].m());
                                }
                                err = Some(
                                    SceneFromBsnError::MissingSchematicRegistrationForValue {
                                        type_path,
                                    },
                                );
                                break;
                            }
                            proof {
                                assert(reg[idx as int] == registry.entries@[idx as int].m());
                            }
                            let value = schematic_type.into_value();
                            match props_from_bsn(&registry.entries[idx].fields, value) {
                                Err(e) => {
                                    err = Some(SceneFromBsnError::FromBsnError(e));
                                    break;
                                },
                                Ok(props) => {
                                    let sch = SceneSchematic {
                                        type_id: registry.entries[idx].type_id,
                                        props,
                                    };
                                    apply_or_insert_schematic(&mut schematics, sch);
                                },
                            }
                        },
                    }
                },
                BsnEntityConfig::Scene { path } => {
                    match find_scene_index(scenes, &path) {
                        None => {
                            err = Some(SceneFromBsnError::LoadSceneError { path });
                            break;
                        },
                        Some(k) => {
                            proof {
                                assert(tab[k as int] == scenes.scenes@[k as int].m());
                            }
                            inline_subscene(
                                &mut name,
                                &mut schematics,
                                &mut inlined,
                                &scenes.scenes[k].scene.root,
                            );
                        },
                    }
                },
            }
        }
        if let Some(x) = err {
            return Err(x);
        }
        let ghost st_after = SpecSceneEntity {
            name: name_m(name),
            schematics: scene_schematics_m(schematics@),
            children: scene_entities_m(inlined@),
        };
        let mut children = children;
        let mut out_children = inlined;
        let ghost inlined_m = st_after.children;
        let mut err: Option<SceneFromBsnError> = None;
        let ghost mut done: int = 0;
        loop
            invariant_except_break
                err is None,
                0 <= done <= orig_children.len(),
                children@ =~= orig_children.subrange(done, orig_children.len() as int),
                scene_schematics_m(schematics@) == st_after.schematics,
                name_m(name) == st_after.name,
                match spec_resolve_children(reg, tab, deep_entities(children@)) {
                    Ok(rest) => spec_resolve_children(reg, tab, e0.children) matches Ok(kids)
                        && scene_entities_m(out_children@) + rest == inlined_m + kids,
                    Err(e) => spec_resolve_children(reg, tab, e0.children) == Err::<
                        Seq<SpecSceneEntity>,
                        SpecSceneError,
                    >(e),
                },
            invariant
                reg == registry.m(),
                tab == scenes.m(),
                e0 == bsn.deep(),
                orig_children == bsn.children@,
                e0.children == deep_entities(orig_children),
            ensures
                match err {
                    None => spec_resolve_children(reg, tab, e0.children) matches Ok(kids)
                        && scene_entities_m(out_children@) == inlined_m + kids
                        && scene_schematics_m(schematics@) == st_after.schematics && name_m(name)
                        == st_after.name,
                    Some(x) => spec_resolve_children(reg, tab, e0.children) == Err::<
                        Seq<SpecSceneEntity>,
                        SpecSceneError,
                    >(x.m()),
                },
            decreases children@.len(),
        {
            proof {
                lemma_deep_entities(children@);
            }
            if children.len() == 0 {
                proof {
                    assert(deep_entities(children@) =~= Seq::<SpecEntity>::empty());
                }
                break;
            }
            let ghost pre = deep_entities(children@);
            let ghost prevv = children@;
            let child = children.remove(0);
            proof {
                lemma_deep_entities(prevv);
                lemma_deep_entities(children@);
                assert(children@ =~= prevv.drop_first());
                assert forall|n: int| 0 <= n < children@.len() implies #[trigger] deep_entities(
                    children@,
                )[n] == pre.drop_first()[n] by {
                    assert(deep_entities(children@)[n] == children@[n].deep());
                    assert(pre[n + 1] == prevv[n + 1].deep());
                }
                assert(deep_entities(children@) =~= pre.drop_first());
                assert(pre[0] == child.deep());
                assert(child == orig_children[done]);
                assert(decreases_to!(bsn => bsn.children));
                assert(decreases_to!(bsn.children => bsn.children@));
                assert(decreases_to!(bsn.children@ => bsn.children@[done]));
                assert(bsn.children@[done] == child);
            }
            match SceneEntity::from_bsn(child, registry, scenes) {
                Err(e) => {
                    err = Some(e);
                    break;
                },
                Ok(ce) => {
                    let ghost before = out_children@;
                    out_children.push(ce);
                    proof {
                        lemma_scene_entities_m(out_children@);
                        lemma_scene_entities_m(before);
                        assert(out_children@.drop_last() =~= before);
                        assert(out_children@.last() == ce);
                        assert(scene_entities_m(out_children@) =~= scene_entities_m(before).push(
                            ce.m(),
                        ));
                    }
                },
            }
            proof {
                done = done + 1;
                assert(children@ =~= orig_children.subrange(done, orig_children.len() as int));
            }
        }
        if let Some(x) = err {
            return Err(x);
        }
        Ok(SceneEntity { name, schematics, children: out_children })
    }
}

impl Scene {
    /// Resolve a parsed scene against the registry and the loaded
    /// sub-scenes.
    pub fn from_bsn(bsn: BsnScene, registry: &SchematicRegistry, scenes: &SceneTable) -> (r:
        Result<Scene, SceneFromBsnError>)
        ensures
            match spec_resolve_entity(registry.m(), scenes.m(), bsn.deep().root) {
                Ok(m) => r matches Ok(x) && x.root.m() == m,
                Err(e) => r matches Err(x) && x.m() == e,
            },
    {
        match SceneEntity::from_bsn(bsn.root, registry, scenes) {
            Ok(root) => Ok(Scene { root }),
            Err(e) => Err(e),
        }
    }
}

// ---------------------------------------------------------------------------
// Laws of resolution.

/// No two schematics of the list share a type identity.
pub open spec fn unique_ids(s: Seq<SpecSceneSchematic>) -> bool {
    forall|i: int, j: int|
        0 <= i < j < s.len() ==> (#[trigger] s[i]).type_id != (#[trigger] s[j]).type_id
}

/// In a resolved entity, each type identity occurs at most once, at every
/// depth.
pub open spec fn wf_resolved(e: SpecSceneEntity) -> bool
    decreases e,
{
    unique_ids(e.schematics) && (forall|k: int|
        0 <= k < e.children.len() ==> wf_resolved(#[trigger] e.children[k]))
}

/// Inserting or merging keeps type identities unique: a collision merges
/// into the first occurrence instead of adding a second one.
pub proof fn lemma_apply_or_insert_unique(s: Seq<SpecSceneSchematic>, sch: SpecSceneSchematic)
    requires
        unique_ids(s),
    ensures
        unique_ids(spec_apply_or_insert(s, sch)),
{
    lemma_find_schematic(s, sch.type_id);
    match spec_find_schematic(s, sch.type_id) {
        Option::Some(i) => {
            let out = s.update(
                i,
                SpecSceneSchematic {
                    type_id: sch.type_id,
                    props: dyn_merge(s[i].props, sch.props),
                },
            );
            assert forall|a: int, b: int| 0 <= a < b < out.len() implies (#[trigger] out[a]).type_id
                != (#[trigger] out[b]).type_id by {
                assert(out[a].type_id == s[a].type_id);
                assert(out[b].type_id == s[b].type_id);
            }
        },
        Option::None => {
            let out = s.push(sch);
            assert forall|a: int, b: int| 0 <= a < b < out.len() implies (#[trigger] out[a]).type_id
                != (#[trigger] out[b]).type_id by {
                if b == s.len() {
                    assert(out[a] == s[a]);
                    assert(s[a].type_id != sch.type_id);
                } else {
                    assert(out[a] == s[a]);
                    assert(out[b] == s[b]);
                }
            }
        },
    }
}

/// Merging a whole list in keeps type identities unique.
pub proof fn lemma_merge_all_unique(s: Seq<SpecSceneSchematic>, other: Seq<SpecSceneSchematic>)
    requires
        unique_ids(s),
    ensures
        unique_ids(spec_merge_all(s, other)),
    decreases other.len(),
{
    if other.len() > 0 {
        lemma_apply_or_insert_unique(s, other[0]);
        lemma_merge_all_unique(spec_apply_or_insert(s, other[0]), other.drop_first());
    }
}

/// One resolution step keeps type identities unique.
pub proof fn lemma_resolve_config_unique(
    reg: Seq<SpecRegistryEntry>,
    table: Seq<SpecSceneAsset>,
    st: SpecSceneEntity,
    cf: SpecConfig,
)
    requires
        unique_ids(st.schematics),
    ensures
        spec_resolve_config(reg, table, st, cf) matches Ok(st2) ==> unique_ids(st2.schematics),
{
    match cf {
        SpecConfig::Schematic { type_path, schematic_type } => {
            if let Option::Some(i) = spec_lookup(reg, type_path) {
                if reg[i].has_schematic {
                    if let Ok(props) = spec_props_from_bsn(
                        reg[i].fields,
                        schematic_type_value(schematic_type),
                    ) {
                        lemma_apply_or_insert_unique(
                            st.schematics,
                            SpecSceneSchematic { type_id: reg[i].type_id, props },
                        );
                    }
                }
            }
        },
        SpecConfig::Scene { path } => {
            if let Option::Some(k) = spec_find_scene(table, path) {
                lemma_merge_all_unique(st.schematics, table[k].root.schematics);
            }
        },
    }
}

/// The fold over an entity's configs keeps type identities unique.
pub proof fn lemma_resolve_configs_unique(
    reg: Seq<SpecRegistryEntry>,
    table: Seq<SpecSceneAsset>,
    st: SpecSceneEntity,
    cfgs: Seq<SpecConfig>,
)
    requires
        unique_ids(st.schematics),
    ensures
        spec_resolve_configs(reg, table, st, cfgs) matches Ok(m) ==> unique_ids(m.schematics),
    decreases cfgs.len(),
{
    if cfgs.len() > 0 {
        lemma_resolve_config_unique(reg, table, st, cfgs[0]);
        if let Ok(st2) = spec_resolve_config(reg, table, st, cfgs[0]) {
            lemma_resolve_configs_unique(reg, table, st2, cfgs.drop_first());
        }
    }
}

/// Every resolved entity has each type identity at most once, at every
/// depth, whatever the loaded sub-scenes hold.
pub proof fn lemma_resolved_type_ids_unique(
    reg: Seq<SpecRegistryEntry>,
    table: Seq<SpecSceneAsset>,
    e: SpecEntity,
)
    requires
        forall|k: int| 0 <= k < table.len() ==> wf_resolved((#[trigger] table[k]).root),
    ensures
        spec_resolve_entity(reg, table, e) matches Ok(m) ==> wf_resolved(m),
    decreases e, 1int,
{
    let st0 = SpecSceneEntity { name: e.name, schematics: Seq::empty(), children: Seq::empty() };
    lemma_resolve_configs_unique(reg, table, st0, e.configs);
    lemma_resolve_configs_children_wf(reg, table, st0, e.configs);
    if let Ok(st) = spec_resolve_configs(reg, table, st0, e.configs) {
        lemma_resolve_children_wf(reg, table, e.children);
        if let Ok(kids) = spec_resolve_children(reg, table, e.children) {
            let m = SpecSceneEntity {
                name: st.name,
                schematics: st.schematics,
                children: st.children + kids,
            };
            assert forall|k: int| 0 <= k < m.children.len() implies wf_resolved(
                #[trigger] m.children[k],
            ) by {
                if k < st.children.len() {
                    assert(m.children[k] == st.children[k]);
                } else {
                    assert(m.children[k] == kids[k - st.children.len()]);
                }
            }
        }
    }
}

/// Children contributed by inlined sub-scenes are themselves resolved
/// scenes, so they are well formed.
pub proof fn lemma_resolve_configs_children_wf(
    reg: Seq<SpecRegistryEntry>,
    table: Seq<SpecSceneAsset>,
    st: SpecSceneEntity,
    cfgs: Seq<SpecConfig>,
)
    requires
        forall|k: int| 0 <= k < table.len() ==> wf_resolved((#[trigger] table[k]).root),
        forall|k: int| 0 <= k < st.children.len() ==> wf_resolved(#[trigger] st.children[k]),
    ensures
        spec_resolve_configs(reg, table, st, cfgs) matches Ok(m) ==> forall|k: int|
            0 <= k < m.children.len() ==> wf_resolved(#[trigger] m.children[k]),
    decreases cfgs.len(),
{
    if cfgs.len() > 0 {
        if let Ok(st2) = spec_resolve_config(reg, table, st, cfgs[0]) {
            assert forall|k: int| 0 <= k < st2.children.len() implies wf_resolved(
                #[trigger] st2.children[k],
            ) by {
                match cfgs[0] {
                    SpecConfig::Schematic { type_path, schematic_type } => {
                        assert(st2.children == st.children);
                    },
                    SpecConfig::Scene { path } => {
                        if let Option::Some(kk) = spec_find_scene(table, path) {
                            lemma_find_scene(table, path);
                            if k < st.children.len() {
                                assert(st2.children[k] == st.children[k]);
                            } else {
                                assert(st2.children[k] == table[kk].root.children[k
                                    - st.children.len()]);
                            }
                        }
                    },
                }
            }
            lemma_resolve_configs_children_wf(reg, table, st2, cfgs.drop_first());
        }
    }
}

/// Every resolved child list is well formed, element by element.
pub proof fn lemma_resolve_children_wf(
    reg: Seq<SpecRegistryEntry>,
    table: Seq<SpecSceneAsset>,
    s: Seq<SpecEntity>,
)
    requires
        forall|k: int| 0 <= k < table.len() ==> wf_resolved((#[trigger] table[k]).root),
    ensures
        spec_resolve_children(reg, table, s) matches Ok(kids) ==> forall|k: int|
            0 <= k < kids.len() ==> wf_resolved(#[trigger] kids[k]),
    decreases s, 0int,
{
    if s.len() > 0 {
        lemma_resolved_type_ids_unique(reg, table, s[0]);
        lemma_resolve_children_wf(reg, table, s.drop_first());
        if let Ok(en) = spec_resolve_entity(reg, table, s[0]) {
            if let Ok(rest) = spec_resolve_children(reg, table, s.drop_first()) {
                let kids = seq![en] + rest;
                assert forall|k: int| 0 <= k < kids.len() implies wf_resolved(
                    #[trigger] kids[k],
                ) by {
                    if k > 0 {
                        assert(kids[k] == rest[k - 1]);
                    }
                }
            }
        }
    }
}

/// An entity that already has a name keeps it through every resolution
/// step: a sub-scene's root name is ignored.
pub proof fn lemma_resolve_configs_name_kept(
    reg: Seq<SpecRegistryEntry>,
    table: Seq<SpecSceneAsset>,
    st: SpecSceneEntity,
    cfgs: Seq<SpecConfig>,
)
    requires
        st.name is Some,
    ensures
        spec_resolve_configs(reg, table, st, cfgs) matches Ok(m) ==> m.name == st.name,
    decreases cfgs.len(),
{
    if cfgs.len() > 0 {
        if let Ok(st2) = spec_resolve_config(reg, table, st, cfgs[0]) {
            assert(st2.name == st.name);
            lemma_resolve_configs_name_kept(reg, table, st2, cfgs.drop_first());
        }
    }
}

/// An entity with a name of its own resolves to that name.
pub proof fn lemma_resolved_name_kept(
    reg: Seq<SpecRegistryEntry>,
    table: Seq<SpecSceneAsset>,
    e: SpecEntity,
)
    requires
        e.name is Some,
    ensures
        spec_resolve_entity(reg, table, e) matches Ok(m) ==> m.name == e.name,
{
    let st0 = SpecSceneEntity { name: e.name, schematics: Seq::empty(), children: Seq::empty() };
    lemma_resolve_configs_name_kept(reg, table, st0, e.configs);
}

/// An entity without a name whose first config is a sub-scene reference
/// adopts the sub-scene root's name.
pub proof fn lemma_resolved_name_adopted(
    reg: Seq<SpecRegistryEntry>,
    table: Seq<SpecSceneAsset>,
    e: SpecEntity,
    path: Seq<u8>,
    k: int,
)
    requires
        e.name is None,
        e.configs.len() > 0,
        e.configs[0] == (SpecConfig::Scene { path }),
        spec_find_scene(table, path) == Option::Some(k),
        0 <= k < table.len(),
        table[k].root.name is Some,
    ensures
        spec_resolve_entity(reg, table, e) matches Ok(m) ==> m.name == table[k].root.name,
{
    let st0 = SpecSceneEntity { name: e.name, schematics: Seq::empty(), children: Seq::empty() };
    if let Ok(st1) = spec_resolve_config(reg, table, st0, e.configs[0]) {
        lemma_resolve_configs_name_kept(reg, table, st1, e.configs.drop_first());
    }
}

} // verus!
