//! Example components: a sized box and a text label, each with its
//! property bag. The bags decode from named-field structs by walking the
//! field names, and merge field by field.

use vstd::prelude::*;

use crate::ast::BsnStruct;
use crate::ast::BsnValue;
use crate::ast::SpecField;
use crate::ast::SpecStruct;
use crate::ast::SpecValue;
use crate::from_bsn::FromBsn;
use crate::from_bsn::FromBsnError;
use crate::from_bsn::SpecFromBsnError;
use crate::schematic::Prop;
use crate::schematic::PropModel;
use crate::schematic::Props;
use crate::schematic::Schematic;
use crate::schematic::SchematicError;
use crate::schematic::prop_merge;

verus! {

/// The bytes of the field name `width`.
pub open spec fn width_name() -> Seq<u8> {
    seq![119u8, 105u8, 100u8, 116u8, 104u8]
}

/// The bytes of the field name `height`.
pub open spec fn height_name() -> Seq<u8> {
    seq![104u8, 101u8, 105u8, 103u8, 104u8, 116u8]
}

/// The bytes of the field name `val`.
pub open spec fn val_name() -> Seq<u8> {
    seq![118u8, 97u8, 108u8]
}

fn name_is_width(n: &Vec<u8>) -> (r: bool)
    ensures
        r == (n@ == width_name()),
{
    let r = n.len() == 5 && n[0] == 119 && n[1] == 105 && n[2] == 100 && n[3] == 116 && n[4]
        == 104;
    proof {
        if r {
            assert(n@ =~= width_name());
        }
    }
    r
}

fn name_is_height(n: &Vec<u8>) -> (r: bool)
    ensures
        r == (n@ == height_name()),
{
    let r = n.len() == 6 && n[0] == 104 && n[1] == 101 && n[2] == 105 && n[3] == 103 && n[4] == 104
        && n[5] == 116;
    proof {
        if r {
            assert(n@ =~= height_name());
        }
    }
    r
}

fn name_is_val(n: &Vec<u8>) -> (r: bool)
    ensures
        r == (n@ == val_name()),
{
    let r = n.len() == 3 && n[0] == 118 && n[1] == 97 && n[2] == 108;
    proof {
        if r {
            assert(n@ =~= val_name());
        }
    }
    r
}

// ---------------------------------------------------------------------------
// Div: a box with a width and a height.

/// A box with a width and a height.
#[derive(Debug, PartialEq, Eq, Clone, Copy)]
pub struct Div {
    pub width: u32,
    pub height: u32,
}

/// The property bag of `Div`.
#[derive(Debug)]
pub struct DivProps {
    pub width: Prop<u32>,
    pub height: Prop<u32>,
}

/// The model of `DivProps`: one slot per field.
pub struct DivPropsModel {
    pub width: PropModel<u32>,
    pub height: PropModel<u32>,
}

/// The walk over the named fields of a `Div` config, in order: known names
/// set their slot, the first unknown name is the failure.
pub open spec fn div_fields_fold(fields: Seq<SpecField>, acc: DivPropsModel) -> Result<
    DivPropsModel,
    SpecFromBsnError,
>
    decreases fields.len(),
{
    if fields.len() == 0 {
        Ok(acc)
    } else {
        let f = fields[0];
        if f.name == width_name() {
            match u32::from_bsn_spec(f.value) {
                Err(e) => Err(e),
                Ok(v) => div_fields_fold(
                    fields.drop_first(),
                    DivPropsModel { width: PropModel::Value(v), height: acc.height },
                ),
            }
        } else if f.name == height_name() {
            match u32::from_bsn_spec(f.value) {
                Err(e) => Err(e),
                Ok(v) => div_fields_fold(
                    fields.drop_first(),
                    DivPropsModel { width: acc.width, height: PropModel::Value(v) },
                ),
            }
        } else {
            Err(SpecFromBsnError::UnexpectedField(f.name))
        }
    }
}

impl FromBsn for DivProps {
    type M = DivPropsModel;

    open spec fn m(&self) -> DivPropsModel {
        DivPropsModel { width: self.width.pm(), height: self.height.pm() }
    }

    open spec fn from_bsn_spec(v: SpecValue) -> Result<DivPropsModel, SpecFromBsnError> {
        let unset = DivPropsModel { width: PropModel::Unset, height: PropModel::Unset };
        match v {
            SpecValue::Struct(SpecStruct::NamedFields(fs)) => div_fields_fold(fs, unset),
            SpecValue::Struct(SpecStruct::Tuple(vs)) => if vs.len() == 0 {
                Ok(unset)
            } else {
                Err(SpecFromBsnError::MismatchedType)
            },
            _ => Err(SpecFromBsnError::MismatchedType),
        }
    }

    fn from_bsn(value: BsnValue) -> (r: Result<Self, FromBsnError>) {
        match value {
            BsnValue::Struct(BsnStruct::NamedFields(fields)) => {
                let ghost all = crate::ast::deep_fields(fields@);
                proof {
                    assert(value.deep() == SpecValue::Struct(SpecStruct::NamedFields(all)));
                }
                let mut fields = fields;
                let mut props = DivProps { width: Prop::Unset, height: Prop::Unset };
                let mut err: Option<FromBsnError> = None;
                proof {
                    crate::ast::lemma_deep_fields(fields@);
                }
                loop
                    invariant_except_break
                        err is None,
                        match div_fields_fold(crate::ast::deep_fields(fields@), props.m()) {
                            Ok(m) => div_fields_fold(all, DivPropsModel {
                                width: PropModel::Unset,
                                height: PropModel::Unset,
                            }) == Ok::<DivPropsModel, SpecFromBsnError>(m),
                            Err(e) => div_fields_fold(all, DivPropsModel {
                                width: PropModel::Unset,
                                height: PropModel::Unset,
                            }) == Err::<DivPropsModel, SpecFromBsnError>(e),
                        },
                    ensures
                        match err {
                            None => div_fields_fold(all, DivPropsModel {
                                width: PropModel::Unset,
                                height: PropModel::Unset,
                            }) == Ok::<DivPropsModel, SpecFromBsnError>(props.m()),
                            Some(e) => div_fields_fold(all, DivPropsModel {
                                width: PropModel::Unset,
                                height: PropModel::Unset,
                            }) == Err::<DivPropsModel, SpecFromBsnError>(e.m()),
                        },
                    decreases fields@.len(),
                {
                    proof {
                        crate::ast::lemma_deep_fields(fields@);
                    }
                    if fields.len() == 0 {
                        break;
                    }
                    let ghost pre = crate::ast::deep_fields(fields@);
                    let ghost prev = fields@;
                    let f = fields.remove(0);
                    proof {
                        crate::ast::lemma_deep_fields(prev);
                        crate::ast::lemma_deep_fields(fields@);
                        assert(fields@ =~= prev.drop_first());
                        assert forall|n: int| 0 <= n < fields@.len() implies #[trigger] crate::ast::deep_fields(
                            fields@,
                        )[n] == pre.drop_first()[n] by {
                            assert(crate::ast::deep_fields(fields@)[n] == fields@[n].deep());
                            assert(pre[n + 1] == prev[n + 1].deep());
                        }
                        assert(crate::ast::deep_fields(fields@) =~= pre.drop_first());
                        assert(pre[0] == f.deep());
                    }
                    if name_is_width(&f.name) {
                        match u32::from_bsn(f.value) {
                            Ok(v) => {
                                props.width = Prop::Value(v);
                            },
                            Err(e) => {
                                err = Some(e);
                                break;
                            },
                        }
                    } else if name_is_height(&f.name) {
                        match u32::from_bsn(f.value) {
                            Ok(v) => {
                                props.height = Prop::Value(v);
                            },
                            Err(e) => {
                                err = Some(e);
                                break;
                            },
                        }
                    } else {
                        err = Some(FromBsnError::UnexpectedField(f.name));
                        break;
                    }
                }
                if let Some(e) = err {
                    return Err(e);
                }
                Ok(props)
            },
            BsnValue::Struct(BsnStruct::Tuple(vs)) => {
                proof {
                    crate::ast::lemma_deep_values(vs@);
                }
                if vs.len() == 0 {
                    Ok(DivProps { width: Prop::Unset, height: Prop::Unset })
                } else {
                    Err(FromBsnError::MismatchedType)
                }
            },
            _ => Err(FromBsnError::MismatchedType),
        }
    }
}

impl Props for DivProps {
    open spec fn merge_spec(a: DivPropsModel, b: DivPropsModel) -> DivPropsModel {
        DivPropsModel {
            width: prop_merge::<u32>(a.width, b.width),
            height: prop_merge::<u32>(a.height, b.height),
        }
    }

    open spec fn default_spec() -> DivPropsModel {
        DivPropsModel { width: PropModel::Unset, height: PropModel::Unset }
    }

    fn default_props() -> (r: Self) {
        DivProps { width: Prop::Unset, height: Prop::Unset }
    }

    fn clone_props(&self) -> (r: Self) {
        DivProps {
            width: match &self.width {
                Prop::Unset => Prop::Unset,
                Prop::Value(v) => Prop::Value(*v),
            },
            height: match &self.height {
                Prop::Unset => Prop::Unset,
                Prop::Value(v) => Prop::Value(*v),
            },
        }
    }

    fn apply_props(&mut self, other: &Self) {
        self.width.apply(&other.width);
        self.height.apply(&other.height);
    }
}

impl Schematic for Div {
    type Props = DivProps;

    type M = Div;

    open spec fn sm(&self) -> Div {
        *self
    }

    open spec fn from_props_spec(props: DivPropsModel) -> Div {
        Div {
            width: match props.width {
                PropModel::Unset => 0,
                PropModel::Value(v) => v,
            },
            height: match props.height {
                PropModel::Unset => 0,
                PropModel::Value(v) => v,
            },
        }
    }

    fn from_props(props: DivProps) -> (r: Result<Self, SchematicError>) {
        Ok(Div { width: props.width.get(), height: props.height.get() })
    }
}

/// Merging any `Div` bag with the default bag, on either side, changes
/// nothing.
pub proof fn lemma_div_merge_default(a: DivPropsModel)
    ensures
        DivProps::merge_spec(a, DivProps::default_spec()) == a,
        DivProps::merge_spec(DivProps::default_spec(), a) == a,
{
}

// ---------------------------------------------------------------------------
// Label: a text label.

/// A text label.
#[derive(Debug, PartialEq, Eq)]
pub struct Label {
    pub val: Vec<u8>,
}

/// The property bag of `Label`.
#[derive(Debug)]
pub struct LabelProps {
    pub val: Prop<Vec<u8>>,
}

/// The model of `LabelProps`.
pub struct LabelPropsModel {
    pub val: PropModel<Seq<u8>>,
}

/// The walk over the named fields of a `Label` config.
pub open spec fn label_fields_fold(fields: Seq<SpecField>, acc: LabelPropsModel) -> Result<
    LabelPropsModel,
    SpecFromBsnError,
>
    decreases fields.len(),
{
    if fields.len() == 0 {
        Ok(acc)
    } else {
        let f = fields[0];
        if f.name == val_name() {
            match <Vec<u8> as FromBsn>::from_bsn_spec(f.value) {
                Err(e) => Err(e),
                Ok(v) => label_fields_fold(
                    fields.drop_first(),
                    LabelPropsModel { val: PropModel::Value(v) },
                ),
            }
        } else {
            Err(SpecFromBsnError::UnexpectedField(f.name))
        }
    }
}

impl FromBsn for LabelProps {
    type M = LabelPropsModel;

    open spec fn m(&self) -> LabelPropsModel {
        LabelPropsModel { val: self.val.pm() }
    }

    open spec fn from_bsn_spec(v: SpecValue) -> Result<LabelPropsModel, SpecFromBsnError> {
        let unset = LabelPropsModel { val: PropModel::Unset };
        match v {
            SpecValue::Struct(SpecStruct::NamedFields(fs)) => label_fields_fold(fs, unset),
            SpecValue::Struct(SpecStruct::Tuple(vs)) => if vs.len() == 0 {
                Ok(unset)
            } else {
                Err(SpecFromBsnError::MismatchedType)
            },
            _ => Err(SpecFromBsnError::MismatchedType),
        }
    }

    fn from_bsn(value: BsnValue) -> (r: Result<Self, FromBsnError>) {
        match value {
            BsnValue::Struct(BsnStruct::NamedFields(fields)) => {
                let ghost all = crate::ast::deep_fields(fields@);
                proof {
                    assert(value.deep() == SpecValue::Struct(SpecStruct::NamedFields(all)));
                }
                let mut fields = fields;
                let mut props = LabelProps { val: Prop::Unset };
                let mut err: Option<FromBsnError> = None;
                proof {
                    crate::ast::lemma_deep_fields(fields@);
                }
                loop
                    invariant_except_break
                        err is None,
                        match label_fields_fold(crate::ast::deep_fields(fields@), props.m()) {
                            Ok(m) => label_fields_fold(all, LabelPropsModel {
                                val: PropModel::Unset,
                            }) == Ok::<LabelPropsModel, SpecFromBsnError>(m),
                            Err(e) => label_fields_fold(all, LabelPropsModel {
                                val: PropModel::Unset,
                            }) == Err::<LabelPropsModel, SpecFromBsnError>(e),
                        },
                    ensures
                        match err {
                            None => label_fields_fold(all, LabelPropsModel { val: PropModel::Unset })
                                == Ok::<LabelPropsModel, SpecFromBsnError>(props.m()),
                            Some(e) => label_fields_fold(all, LabelPropsModel {
                                val: PropModel::Unset,
                            }) == Err::<LabelPropsModel, SpecFromBsnError>(e.m()),
                        },
                    decreases fields@.len(),
                {
                    proof {
                        crate::ast::lemma_deep_fields(fields@);
                    }
                    if fields.len() == 0 {
                        break;
                    }
                    let ghost pre = crate::ast::deep_fields(fields@);
                    let ghost prev = fields@;
                    let f = fields.remove(0);
                    proof {
                        crate::ast::lemma_deep_fields(prev);
                        crate::ast::lemma_deep_fields(fields@);
                        assert(fields@ =~= prev.drop_first());
                        assert forall|n: int| 0 <= n < fields@.len() implies #[trigger] crate::ast::deep_fields(
                            fields@,
                        )[n] == pre.drop_first()[n] by {
                            assert(crate::ast::deep_fields(fields@)[n] == fields@[n].deep());
                            assert(pre[n + 1] == prev[n + 1].deep());
                        }
                        assert(crate::ast::deep_fields(fields@) =~= pre.drop_first());
                        assert(pre[0] == f.deep());
                    }
                    if name_is_val(&f.name) {
                        match <Vec<u8> as FromBsn>::from_bsn(f.value) {
                            Ok(v) => {
                                props.val = Prop::Value(v);
                            },
                            Err(e) => {
                                err = Some(e);
                                break;
                            },
                        }
                    } else {
                        err = Some(FromBsnError::UnexpectedField(f.name));
                        break;
                    }
                }
                if let Some(e) = err {
                    return Err(e);
                }
                Ok(props)
            },
            BsnValue::Struct(BsnStruct::Tuple(vs)) => {
                proof {
                    crate::ast::lemma_deep_values(vs@);
                }
                if vs.len() == 0 {
                    Ok(LabelProps { val: Prop::Unset })
                } else {
                    Err(FromBsnError::MismatchedType)
                }
            },
            _ => Err(FromBsnError::MismatchedType),
        }
    }
}

impl Props for LabelProps {
    open spec fn merge_spec(a: LabelPropsModel, b: LabelPropsModel) -> LabelPropsModel {
        LabelPropsModel { val: prop_merge::<Vec<u8>>(a.val, b.val) }
    }

    open spec fn default_spec() -> LabelPropsModel {
        LabelPropsModel { val: PropModel::Unset }
    }

    fn default_props() -> (r: Self) {
        LabelProps { val: Prop::Unset }
    }

    fn clone_props(&self) -> (r: Self) {
        LabelProps {
            val: match &self.val {
                Prop::Unset => Prop::Unset,
                Prop::Value(v) => Prop::Value(v.clone_props()),
            },
        }
    }

    fn apply_props(&mut self, other: &Self) {
        self.val.apply(&other.val);
    }
}

/// The model of a `Label`: its text.
pub struct LabelModel {
    pub val: Seq<u8>,
}

impl Schematic for Label {
    type Props = LabelProps;

    type M = LabelModel;

    open spec fn sm(&self) -> LabelModel {
        LabelModel { val: self.val@ }
    }

    open spec fn from_props_spec(props: LabelPropsModel) -> LabelModel {
        LabelModel {
            val: match props.val {
                PropModel::Unset => Seq::empty(),
                PropModel::Value(v) => v,
            },
        }
    }

    fn from_props(props: LabelProps) -> (r: Result<Self, SchematicError>) {
        Ok(Label { val: props.val.get() })
    }
}

/// Merging any `Label` bag with the default bag, on either side, changes
/// nothing.
pub proof fn lemma_label_merge_default(a: LabelPropsModel)
    ensures
        LabelProps::merge_spec(a, LabelProps::default_spec()) == a,
        LabelProps::merge_spec(LabelProps::default_spec(), a) == a,
{
}

} // verus!
