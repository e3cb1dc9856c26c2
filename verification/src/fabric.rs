//! Records of the Fabric version catalogue: the game versions that Fabric
//! supports and the builds of its loader, intermediary mappings and
//! installer. The lists keep the order in which the catalogue gives them.

use vstd::prelude::*;

verus! {

/// Everything the catalogue lists.
#[derive(Debug, Clone)]
pub struct FabricVersions {
    pub game: Vec<GameVersion>,
    pub loader: Vec<LoaderVersion>,
    pub intermediary: Vec<IntermediaryVersion>,
    pub installer: Vec<InstallerVersion>,
}

/// A Minecraft game version supported by Fabric.
#[derive(Debug, Clone)]
pub struct GameVersion {
    pub version: String,
    pub stable: bool,
}

/// A Fabric loader version.
#[derive(Debug, Clone)]
pub struct LoaderVersion {
    pub separator: String,
    pub build: u32,
    pub maven: String,
    pub version: String,
    pub stable: bool,
}

/// An intermediary mappings version.
#[derive(Debug, Clone)]
pub struct IntermediaryVersion {
    pub maven: String,
    pub version: String,
    pub stable: bool,
}

/// A Fabric installer version.
#[derive(Debug, Clone)]
pub struct InstallerVersion {
    pub url: String,
    pub maven: String,
    pub version: String,
    pub stable: bool,
}

} // verus!
