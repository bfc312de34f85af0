//! Schematics: typed property bags with the merge policy.
//!
//! A property slot is either unset or a value; merging lets a later config
//! fill fields the earlier one left open without overwriting what was set.
//! The merge-identity laws at the end say that merging with an unset slot,
//! on either side, changes nothing.

use vstd::prelude::*;

use crate::from_bsn::FromBsn;

verus! {

/// Why applying a resolved scene to the world failed.
#[derive(Debug, PartialEq, Eq)]
pub enum SchematicError {
    /// The scene asset was not in the scenes table.
    MissingScene { asset_id: u64 },
    /// The target entity no longer exists.
    MissingEntity(u64),
    /// A resource needed by a schematic was absent.
    MissingResource { resource_name: Vec<u8> },
}

/// What a property value offers beyond decoding: a merge over models, a
/// default, and the executable operations the resolver uses. `apply_props`
/// merges `other` into `self`; `merge_spec` is its meaning. Leaves replace;
/// bags merge field by field.
pub trait Props: FromBsn + Sized {
    spec fn merge_spec(a: Self::M, b: Self::M) -> Self::M;

    spec fn default_spec() -> Self::M;

    fn default_props() -> (r: Self)
        ensures
            r.m() == Self::default_spec(),
    ;

    fn clone_props(&self) -> (r: Self)
        ensures
            r.m() == self.m(),
    ;

    fn apply_props(&mut self, other: &Self)
        ensures
            final(self).m() == Self::merge_spec(old(self).m(), other.m()),
    ;
}

/// A registered component type: built from its property bag. `M` is the
/// component's model; `from_props_spec` says which component a bag builds.
pub trait Schematic: Sized {
    type Props: Props;

    type M;

    spec fn sm(&self) -> Self::M;

    spec fn from_props_spec(props: <Self::Props as FromBsn>::M) -> Self::M;

    fn from_props(props: Self::Props) -> (r: Result<Self, SchematicError>)
        ensures
            r matches Ok(v) && v.sm() == Self::from_props_spec(props.m()),
    ;
}

/// The model of a property slot: unset, or the model of a value.
pub enum PropModel<M> {
    Unset,
    Value(M),
}

/// One property slot around a property type `T`.
#[derive(Debug)]
pub enum Prop<T: Props> {
    Unset,
    Value(T),
}

/// The merge of two property slots: an unset side gives way; two values
/// merge by the type's own policy.
pub open spec fn prop_merge<T: Props>(a: PropModel<T::M>, b: PropModel<T::M>) -> PropModel<T::M> {
    match a {
        PropModel::Unset => b,
        PropModel::Value(x) => match b {
            PropModel::Unset => PropModel::Value(x),
            PropModel::Value(y) => PropModel::Value(T::merge_spec(x, y)),
        },
    }
}

impl<T: Props> Prop<T> {
    /// The slot's model.
    pub open spec fn pm(&self) -> PropModel<T::M> {
        match self {
            Prop::Unset => PropModel::Unset,
            Prop::Value(v) => PropModel::Value(v.m()),
        }
    }

    /// Take the value, or the type's default when the slot is unset.
    pub fn get(self) -> (r: T)
        ensures
            r.m() == match self.pm() {
                PropModel::Unset => T::default_spec(),
                PropModel::Value(m) => m,
            },
    {
        match self {
            Prop::Unset => T::default_props(),
            Prop::Value(v) => v,
        }
    }

    /// Merge `other` into this slot.
    pub fn apply(&mut self, other: &Prop<T>)
        ensures
            final(self).pm() == prop_merge::<T>(old(self).pm(), other.pm()),
    {
        match self {
            Prop::Unset => {
                let cloned = match other {
                    Prop::Unset => Prop::Unset,
                    Prop::Value(v) => Prop::Value(v.clone_props()),
                };
                *self = cloned;
            },
            Prop::Value(this) => match other {
                Prop::Unset => {},
                Prop::Value(o) => {
                    this.apply_props(o);
                },
            },
        }
    }
}

impl<T: Props> Default for Prop<T> {
    /// The default slot is unset.
    fn default() -> (r: Self)
        ensures
            r.pm() == PropModel::<T::M>::Unset,
    {
        Prop::Unset
    }
}

// ---------------------------------------------------------------------------
// Merge identity: merging with the unset slot changes nothing, on either
// side.

/// Merging the default (unset) slot into any slot leaves it unchanged.
pub proof fn lemma_prop_merge_default_right<T: Props>(a: PropModel<T::M>)
    ensures
        prop_merge::<T>(a, PropModel::Unset) == a,
{
}

/// Merging any slot into the default (unset) slot gives that slot.
pub proof fn lemma_prop_merge_default_left<T: Props>(b: PropModel<T::M>)
    ensures
        prop_merge::<T>(PropModel::Unset, b) == b,
{
}

// ---------------------------------------------------------------------------
// Leaf properties: the later value replaces the earlier one.

impl Props for u64 {
    open spec fn merge_spec(a: u64, b: u64) -> u64 {
        b
    }

    open spec fn default_spec() -> u64 {
        0
    }

    fn default_props() -> (r: Self) {
        0
    }

    fn clone_props(&self) -> (r: Self) {
        *self
    }

    fn apply_props(&mut self, other: &Self) {
        *self = *other;
    }
}

impl Props for u32 {
    open spec fn merge_spec(a: u32, b: u32) -> u32 {
        b
    }

    open spec fn default_spec() -> u32 {
        0
    }

    fn default_props() -> (r: Self) {
        0
    }

    fn clone_props(&self) -> (r: Self) {
        *self
    }

    fn apply_props(&mut self, other: &Self) {
        *self = *other;
    }
}

impl Props for u16 {
    open spec fn merge_spec(a: u16, b: u16) -> u16 {
        b
    }

    open spec fn default_spec() -> u16 {
        0
    }

    fn default_props() -> (r: Self) {
        0
    }

    fn clone_props(&self) -> (r: Self) {
        *self
    }

    fn apply_props(&mut self, other: &Self) {
        *self = *other;
    }
}

impl Props for u8 {
    open spec fn merge_spec(a: u8, b: u8) -> u8 {
        b
    }

    open spec fn default_spec() -> u8 {
        0
    }

    fn default_props() -> (r: Self) {
        0
    }

    fn clone_props(&self) -> (r: Self) {
        *self
    }

    fn apply_props(&mut self, other: &Self) {
        *self = *other;
    }
}

/// Byte strings replace on merge, like other leaves.
impl Props for Vec<u8> {
    open spec fn merge_spec(a: Seq<u8>, b: Seq<u8>) -> Seq<u8> {
        b
    }

    open spec fn default_spec() -> Seq<u8> {
        Seq::empty()
    }

    fn default_props() -> (r: Self) {
        let v: Vec<u8> = Vec::new();
        proof {
            assert(v@ =~= Seq::<u8>::empty());
        }
        v
    }

    fn clone_props(&self) -> (r: Self) {
        let mut out: Vec<u8> = Vec::new();
        let mut i: usize = 0;
        while i < self.len()
            invariant
                0 <= i <= self@.len(),
                out@ == self@.subrange(0, i as int),
            decreases self@.len() - i,
        {
            out.push(self[i]);
            proof {
                assert(out@ =~= self@.subrange(0, i as int + 1));
            }
            i = i + 1;
        }
        proof {
            assert(self@.subrange(0, self@.len() as int) =~= self@);
        }
        out
    }

    fn apply_props(&mut self, other: &Self) {
        let cloned = other.clone_props();
        *self = cloned;
    }
}

/// The unit has nothing to merge.
impl Props for () {
    open spec fn merge_spec(a: (), b: ()) -> () {
        ()
    }

    open spec fn default_spec() -> () {
        ()
    }

    fn default_props() -> (r: Self) {
    }

    fn clone_props(&self) -> (r: Self) {
    }

    fn apply_props(&mut self, other: &Self) {
    }
}

} // verus!
