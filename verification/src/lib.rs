//! Declarative scene authoring: a parser for the BSN scene language, a
//! schematic resolution layer that merges property bags by type identity,
//! and a spawner that tracks waiting and spawned scene roots.

pub mod ast;
pub mod components;
pub mod cursor;
pub mod from_bsn;
pub mod meta;
pub mod parse_lemmas;
pub mod parse_spec;
pub mod parser;
pub mod registry;
pub mod roundtrip;
pub mod scene;
pub mod schematic;
pub mod spawn;

pub use ast::BsnEntity;
pub use ast::BsnEntityConfig;
pub use ast::BsnEnum;
pub use ast::BsnField;
pub use ast::BsnScene;
pub use ast::BsnStruct;
pub use ast::BsnValue;
pub use ast::SchematicType;
pub use components::Div;
pub use components::DivProps;
pub use components::Label;
pub use components::LabelProps;
pub use cursor::Cursor;
pub use cursor::NoCharError;
pub use from_bsn::FromBsn;
pub use from_bsn::FromBsnError;
pub use meta::AssetAction;
pub use meta::AssetActionMinimal;
pub use meta::AssetMeta;
pub use meta::AssetMetaMinimal;
pub use meta::AssetMetaProcessedInfoMinimal;
pub use meta::ProcessDependencyInfo;
pub use meta::ProcessedInfo;
pub use meta::Settings;
pub use parse_spec::ParseSceneError;
pub use parser::Parse;
pub use registry::DynProps;
pub use registry::FieldKind;
pub use registry::FieldShape;
pub use registry::RegistryEntry;
pub use registry::SchematicRegistry;
pub use scene::Scene;
pub use scene::SceneAsset;
pub use scene::SceneEntity;
pub use scene::SceneFromBsnError;
pub use scene::SceneSchematic;
pub use scene::SceneTable;
pub use schematic::Prop;
pub use schematic::PropModel;
pub use schematic::Props;
pub use schematic::Schematic;
pub use schematic::SchematicError;
pub use spawn::ReapplyOutcome;
pub use spawn::SceneSpawner;
pub use spawn::SpawnedRoots;
pub use spawn::SpawnScene;
pub use spawn::Waiters;
