//! Instances of the lit material, which follow their texture from the fallback
//! to the real one.

use super::asset_server::{AssetServer, TextureSource};
use super::handle::Handle;
use super::pbr_atlas::{can_resolve_to, SamplerKind};
use crate::data::source::AssetSource;
use vstd::prelude::*;

verus! {

/// An instance of the lit material, and the texture that its binding was last
/// made for.
#[verifier::reject_recursive_types(T)]
pub struct PbrMaterialInstance<T> {
    albedo: Handle<T>,
    sampler_kind: SamplerKind,
    last_source: TextureSource,
}

impl<T> PbrMaterialInstance<T> {
    pub closed spec fn spec_albedo(&self) -> Handle<T> {
        self.albedo
    }

    pub closed spec fn spec_sampler(&self) -> SamplerKind {
        self.sampler_kind
    }

    /// What the binding was last made for.
    pub closed spec fn source(&self) -> TextureSource {
        self.last_source
    }

    /// An instance whose binding is made for what its handle resolves to.
    pub fn new<L: AssetSource>(
        albedo: Handle<T>,
        sampler: SamplerKind,
        assets: &AssetServer<T, L>,
    ) -> (r: Self)
        ensures
            r.spec_albedo() == albedo,
            r.spec_sampler() == sampler,
            can_resolve_to(albedo, assets.forced(), r.source()),
    {
        let last_source = assets.resolve_texture(&albedo).source;
        PbrMaterialInstance { albedo, sampler_kind: sampler, last_source }
    }

    pub fn albedo_handle(&self) -> (r: &Handle<T>)
        ensures
            *r == self.spec_albedo(),
    {
        &self.albedo
    }

    pub fn sampler_kind(&self) -> (r: SamplerKind)
        ensures
            r == self.spec_sampler(),
    {
        self.sampler_kind
    }

    /// Notes what the handle resolves to now, and says whether the binding has
    /// to be made again for it.
    pub fn note_source(&mut self, albedo: TextureSource) -> (r: bool)
        ensures
            r == (old(self).source() != albedo),
            final(self).source() == albedo,
            final(self).spec_albedo() == old(self).spec_albedo(),
            final(self).spec_sampler() == old(self).spec_sampler(),
    {
        if albedo == self.last_source {
            return false;
        }
        self.last_source = albedo;
        true
    }

    /// Follows the handle, and says whether the binding has to be made again.
    pub fn refresh<L: AssetSource>(&mut self, assets: &AssetServer<T, L>) -> (r: bool)
        ensures
            r == (final(self).source() != old(self).source()),
            can_resolve_to(old(self).spec_albedo(), assets.forced(), final(self).source()),
            final(self).spec_albedo() == old(self).spec_albedo(),
            final(self).spec_sampler() == old(self).spec_sampler(),
    {
        let albedo = assets.resolve_texture(&self.albedo).source;
        self.note_source(albedo)
    }
}

} // verus!
