//! Instances of the atlas material, which follow their textures from the
//! fallback to the real ones.

use super::asset_server::{source_of, AssetServer, TextureSource};
use super::handle::{state_of, Handle, HandleError};
use crate::data::source::AssetSource;
use vstd::prelude::*;

verus! {

/// How a texture is sampled.
#[derive(Debug, Clone, Copy, PartialEq, Eq, Structural)]
pub enum SamplerKind {
    LinearRepeat,
    LinearClamp,
    NearestClamp,
}

/// What an instance of the atlas material is made from.
#[verifier::reject_recursive_types(T)]
pub struct PbrAtlasMaterialParams<T> {
    /// The colours.
    pub albedo: Handle<T>,
    /// Metallic, roughness and emission.
    pub mre: Handle<T>,
    pub sampler: SamplerKind,
}

/// `source` can be where the texture of a handle comes from.
pub open spec fn can_resolve_to<T>(
    handle: Handle<T>,
    forced: bool,
    source: TextureSource,
) -> bool {
    exists|shown: Option<&Result<T, HandleError>>| #[trigger]
        handle.can_show(shown) && source == source_of(forced, state_of(shown))
}

/// An instance of the atlas material, and the textures that its bindings were
/// last made for.
#[verifier::reject_recursive_types(T)]
pub struct PbrAtlasMaterialInstance<T> {
    albedo: Handle<T>,
    mre: Handle<T>,
    sampler_kind: SamplerKind,
    last_albedo_source: TextureSource,
    last_mre_source: TextureSource,
}

impl<T> PbrAtlasMaterialInstance<T> {
    pub closed spec fn spec_albedo(&self) -> Handle<T> {
        self.albedo
    }

    pub closed spec fn spec_mre(&self) -> Handle<T> {
        self.mre
    }

    pub closed spec fn spec_sampler(&self) -> SamplerKind {
        self.sampler_kind
    }

    /// What the bindings were last made for.
    pub closed spec fn sources(&self) -> (TextureSource, TextureSource) {
        (self.last_albedo_source, self.last_mre_source)
    }

    /// An instance whose bindings are made for what its handles resolve to.
    pub fn new<L: AssetSource>(params: PbrAtlasMaterialParams<T>, assets: &AssetServer<T, L>) -> (r:
        Self)
        ensures
            r.spec_albedo() == params.albedo,
            r.spec_mre() == params.mre,
            r.spec_sampler() == params.sampler,
            can_resolve_to(params.albedo, assets.forced(), r.sources().0),
            can_resolve_to(params.mre, assets.forced(), r.sources().1),
    {
        let PbrAtlasMaterialParams { albedo, mre, sampler } = params;
        let last_albedo_source = assets.resolve_texture(&albedo).source;
        let last_mre_source = assets.resolve_texture(&mre).source;
        PbrAtlasMaterialInstance {
            albedo,
            mre,
            sampler_kind: sampler,
            last_albedo_source,
            last_mre_source,
        }
    }

    pub fn albedo_handle(&self) -> (r: &Handle<T>)
        ensures
            *r == self.spec_albedo(),
    {
        &self.albedo
    }

    pub fn mre_handle(&self) -> (r: &Handle<T>)
        ensures
            *r == self.spec_mre(),
    {
        &self.mre
    }

    pub fn sampler_kind(&self) -> (r: SamplerKind)
        ensures
            r == self.spec_sampler(),
    {
        self.sampler_kind
    }

    /// Notes what the handles resolve to now, and says whether the bindings
    /// have to be made again for it.
    pub fn note_sources(&mut self, albedo: TextureSource, mre: TextureSource) -> (r: bool)
        ensures
            r == (old(self).sources() != (albedo, mre)),
            final(self).sources() == (albedo, mre),
            final(self).spec_albedo() == old(self).spec_albedo(),
            final(self).spec_mre() == old(self).spec_mre(),
            final(self).spec_sampler() == old(self).spec_sampler(),
    {
        if albedo == self.last_albedo_source && mre == self.last_mre_source {
            return false;
        }
        self.last_albedo_source = albedo;
        self.last_mre_source = mre;
        true
    }

    /// Follows the handles, and says whether the bindings have to be made
    /// again.
    pub fn refresh<L: AssetSource>(&mut self, assets: &AssetServer<T, L>) -> (r: bool)
        ensures
            r == (final(self).sources() != old(self).sources()),
            can_resolve_to(old(self).spec_albedo(), assets.forced(), final(self).sources().0),
            can_resolve_to(old(self).spec_mre(), assets.forced(), final(self).sources().1),
            final(self).spec_albedo() == old(self).spec_albedo(),
            final(self).spec_mre() == old(self).spec_mre(),
            final(self).spec_sampler() == old(self).spec_sampler(),
    {
        let albedo = assets.resolve_texture(&self.albedo).source;
        let mre = assets.resolve_texture(&self.mre).source;
        self.note_sources(albedo, mre)
    }
}

/// What a binding is made for: the fallback while that is forced, and else the
/// texture if the handle shows one, or the fallback for the reason that the
/// handle gives.
pub proof fn law_bindings_follow_their_handle<T>(
    handle: Handle<T>,
    forced: bool,
    source: TextureSource,
)
    requires
        can_resolve_to(handle, forced, source),
    ensures
        forced <==> source is ForcedFallback,
        source is Real ==> exists|shown: Option<&Result<T, HandleError>>| #[trigger]
            handle.can_show(shown) && shown is Some && *shown->0 is Ok,
        source is Failed ==> exists|shown: Option<&Result<T, HandleError>>| #[trigger]
            handle.can_show(shown) && shown is Some && *shown->0 is Err,
        source is Loading ==> handle.can_show(None),
{
    let shown = choose|shown: Option<&Result<T, HandleError>>| #[trigger]
        handle.can_show(shown) && source == source_of(forced, state_of(shown));
    assert(handle.can_show(shown));
}

} // verus!
