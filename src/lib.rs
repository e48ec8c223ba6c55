//! Control of the TLS ClientHello fingerprint: a parsed plan of cipher
//! suites and extension chunks, the rewrite of an engine's natural
//! extensions into that plan, and the recomputation of the fingerprint
//! strings that the plan encodes.
pub mod extension;
pub mod text;
pub mod builder;
pub mod engine;
pub mod extensions;
pub mod hash;
pub mod round_trip;
mod random;

use builder::{chunks_view, ChunkModel, ExtensionChunk, JAOverrideBuilder};
use vstd::prelude::*;

verus! {

/// A fingerprint plan: cipher suites, extension chunks, and whether the
/// interior of the emitted extensions is shuffled.
#[derive(Debug)]
pub struct JAOverride {
    pub cipher_suites: Vec<u16>,
    pub extensions: Vec<ExtensionChunk>,
    pub shuffle_extension: bool,
}

/// The mathematical value of a plan.
pub struct PlanModel {
    pub cipher_suites: Seq<u16>,
    pub extensions: Seq<ChunkModel>,
    pub shuffle_extension: bool,
}

impl View for JAOverride {
    type V = PlanModel;

    open spec fn view(&self) -> PlanModel {
        PlanModel {
            cipher_suites: self.cipher_suites@,
            extensions: chunks_view(self.extensions@),
            shuffle_extension: self.shuffle_extension,
        }
    }
}

impl JAOverride {
    /// A side configuration with nothing set.
    pub fn builder() -> (r: JAOverrideBuilder)
        ensures
            r.tls_versions is None,
            r.alpn is None,
            r.signature_algorithms is None,
            r.compress_certificate is None,
            !r.grease,
            r.unknown_extensions@ == Map::<u16, crate::extension::ClientExtension>::empty(),
            !r.shuffle_extension,
    {
        JAOverrideBuilder::default()
    }
}

} // verus!
