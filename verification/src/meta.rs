//! The asset meta sidecar: the document that rides along an asset and says
//! how to load or process it, and the hashes that identify cached
//! processing outputs. The text form of the document is the host's concern;
//! the library holds the values.

use vstd::prelude::*;

verus! {

/// The current version of the meta format.
pub open spec fn meta_format_version() -> Seq<u8> {
    seq![49u8, 46u8, 48u8]
}

/// What loader or processor settings must offer; the unit settings offer
/// nothing.
pub trait Settings: Sized {
}

impl Settings for () {
}

/// Hashes identifying a processed asset: of its bytes and meta, and folded
/// together with its process dependencies' full hashes.
pub struct ProcessedInfo {
    pub hash: u64,
    pub full_hash: u64,
    pub process_dependencies: Vec<ProcessDependencyInfo>,
}

/// One process dependency: its full hash and its path.
pub struct ProcessDependencyInfo {
    pub full_hash: u64,
    pub path: Vec<u8>,
}

/// What to do with an asset: load it, process it, or leave it alone.
pub enum AssetAction<LS, PS> {
    /// Load the asset with the given loader and settings.
    Load { loader: Vec<u8>, settings: LS },
    /// Process the asset with the given processor and settings.
    Process { processor: Vec<u8>, settings: PS },
    /// Do nothing with the asset.
    Ignore,
}

/// The meta document: the format version, the hashes of a processed asset
/// when there are any, and the action.
pub struct AssetMeta<LS, PS> {
    pub meta_format_version: Vec<u8>,
    pub processed_info: Option<ProcessedInfo>,
    pub asset: AssetAction<LS, PS>,
}

impl<LS: Settings, PS: Settings> AssetMeta<LS, PS> {
    /// A fresh meta document for an action: the current format version and
    /// no processing hashes.
    pub fn new(asset: AssetAction<LS, PS>) -> (r: Self)
        ensures
            r.meta_format_version@ == meta_format_version(),
            r.processed_info is None,
            r.asset == asset,
    {
        let mut version: Vec<u8> = Vec::new();
        version.push(49);
        version.push(46);
        version.push(48);
        proof {
            assert(version@ =~= meta_format_version());
        }
        AssetMeta { meta_format_version: version, processed_info: None, asset }
    }

    /// The loader settings, when the action is a load.
    pub fn loader_settings(&self) -> (r: Option<&LS>)
        ensures
            match self.asset {
                AssetAction::Load { loader, settings } => r matches Some(s) && *s == settings,
                _ => r is None,
            },
    {
        if let AssetAction::Load { settings, .. } = &self.asset {
            Some(settings)
        } else {
            None
        }
    }

    /// The processing hashes, when the asset was processed.
    pub fn processed_info(&self) -> (r: &Option<ProcessedInfo>)
        ensures
            r == &self.processed_info,
    {
        &self.processed_info
    }
}

/// The least part of a meta document a reader needs: the action alone, with
/// the settings left out.
pub struct AssetMetaMinimal {
    pub asset: AssetActionMinimal,
}

/// The action of a minimal meta document.
pub enum AssetActionMinimal {
    Load { loader: Vec<u8> },
    Process { processor: Vec<u8> },
    Ignore,
}

/// The least part a processed-asset reader needs: the hashes alone.
pub struct AssetMetaProcessedInfoMinimal {
    pub processed_info: Option<ProcessedInfo>,
}

} // verus!
