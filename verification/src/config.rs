//! The shape of a pipeline configuration: where the sources and outputs live, and
//! the modules that name a processor with its options and content.

use vstd::prelude::*;

verus! {

/// The directories of a project: its base, and the source, build and deploy
/// directories under it.
#[derive(Clone, Debug)]
pub struct ConfigMeta {
    pub base_path: String,
    pub src_path: String,
    pub build_path: String,
    pub deploy_path: String,
}

/// One module of the configuration: its name, the processor that handles it, and
/// that processor's options and content.
#[derive(Clone, Debug)]
pub struct ConfigModule<T, U> {
    pub name: String,
    pub processor: String,
    pub options: T,
    pub content: U,
}

} // verus!
