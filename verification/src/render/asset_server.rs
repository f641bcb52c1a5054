//! Textures by path: each is loaded once, and stands in as a fallback until it
//! is there.

use super::handle::{new_pending, state_of, Handle, HandleError, HandleState, HandleWriter};
use crate::data::path::VfsPath;
use crate::data::source::{AssetError, AssetSource};
use crate::data::vfs::{can_resolve, Vfs};
use crate::table::{Table, TableKey};
use std::sync::Arc;
use vstd::prelude::*;

verus! {

/// How the numbers of a texture are to be read.
#[derive(Debug, Clone, Copy, PartialEq, Eq, Hash, Structural)]
pub enum TextureColorSpace {
    /// As colours.
    Srgb,
    /// As data.
    Linear,
}

/// What a texture is asked for by. The same file read as colours and as data
/// is two textures.
#[derive(Debug, PartialEq, Eq, Hash)]
pub struct TextureKey {
    pub path: VfsPath,
    pub color_space: TextureColorSpace,
}

impl TableKey for TextureKey {
    type Id = (Seq<char>, TextureColorSpace);

    open spec fn key(&self) -> (Seq<char>, TextureColorSpace) {
        (self.path@, self.color_space)
    }

    fn same_key(&self, other: &Self) -> (r: bool) {
        self.path.same(&other.path) && self.color_space == other.color_space
    }
}

/// Where a texture that is to be bound came from.
#[derive(Debug, Clone, Copy, PartialEq, Eq, Structural)]
pub enum TextureSource {
    /// It is the texture itself.
    Real,
    /// The fallback, as the texture is still loading.
    Loading,
    /// The fallback, as the load has failed.
    Failed,
    /// The fallback, as the server was told to show it.
    ForcedFallback,
}

/// A texture that is to be bound, and why it is that one.
pub struct ResolvedTexture<'a, T> {
    pub texture: &'a T,
    pub source: TextureSource,
}

/// The source for a handle in the given state.
pub open spec fn source_of<T>(forced: bool, state: HandleState<'_, T>) -> TextureSource {
    if forced {
        TextureSource::ForcedFallback
    } else {
        match state {
            HandleState::Ready(_) => TextureSource::Real,
            HandleState::Loading => TextureSource::Loading,
            HandleState::Failed(_) => TextureSource::Failed,
        }
    }
}

/// The texture to bind for a handle in the given state.
pub open spec fn texture_of<'a, T>(forced: bool, state: HandleState<'a, T>, fallback: &'a T) -> &'a T {
    match state {
        HandleState::Ready(texture) => if forced {
            fallback
        } else {
            texture
        },
        _ => fallback,
    }
}

/// The texture to bind for a handle in the given state: the real one if it is
/// there and the fallback is not forced.
pub fn resolve<'a, T>(forced: bool, state: HandleState<'a, T>, fallback: &'a T) -> (r:
    ResolvedTexture<'a, T>)
    ensures
        r.source == source_of(forced, state),
        r.texture == texture_of(forced, state, fallback),
{
    if forced {
        return ResolvedTexture { texture: fallback, source: TextureSource::ForcedFallback };
    }
    match state {
        HandleState::Ready(texture) => ResolvedTexture { texture, source: TextureSource::Real },
        HandleState::Loading => {
            ResolvedTexture { texture: fallback, source: TextureSource::Loading }
        },
        HandleState::Failed(_) => {
            ResolvedTexture { texture: fallback, source: TextureSource::Failed }
        },
    }
}

/// What a texture is asked for by, as a text and a colour space.
pub type TextureId = (Seq<char>, TextureColorSpace);

/// A texture is asked for: one that was asked for before has the handle that it
/// had; another gets a handle of its own, which is to be filled.
pub open spec fn is_request<T>(
    before: Map<TextureId, Handle<T>>,
    after: Map<TextureId, Handle<T>>,
    id: TextureId,
    handle: Handle<T>,
    loads: bool,
) -> bool {
    if before.contains_key(id) {
        !loads && after == before && handle == before[id]
    } else {
        &&& loads
        &&& after == before.insert(id, handle)
        &&& handle.can_hold(None)
        &&& handle.spec_label() == id.0
    }
}

/// The textures asked for so far, and the fallback.
#[verifier::reject_recursive_types(T)]
pub struct AssetServer<T, L: AssetSource> {
    vfs: Arc<Vfs<L>>,
    fallback: T,
    textures: Table<TextureKey, Handle<T>>,
    force_loading: bool,
}

impl<T, L: AssetSource> AssetServer<T, L> {
    /// The handles that were given out.
    pub closed spec fn textures(&self) -> Map<TextureId, Handle<T>> {
        self.textures@
    }

    pub closed spec fn spec_fallback(&self) -> T {
        self.fallback
    }

    pub closed spec fn forced(&self) -> bool {
        self.force_loading
    }

    pub closed spec fn spec_vfs(&self) -> Vfs<L> {
        *self.vfs
    }

    /// A server that has loaded nothing.
    pub fn new(vfs: Arc<Vfs<L>>, fallback: T) -> (r: Self)
        ensures
            r.textures() == Map::<TextureId, Handle<T>>::empty(),
            r.spec_fallback() == fallback,
            !r.forced(),
            r.spec_vfs() == *vfs,
    {
        AssetServer { vfs, fallback, textures: Table::new(), force_loading: false }
    }

    /// The texture that stands in for one that is not there.
    pub fn fallback_texture(&self) -> (r: &T)
        ensures
            *r == self.spec_fallback(),
    {
        &self.fallback
    }

    /// Where assets are read from.
    pub fn vfs(&self) -> (r: &Arc<Vfs<L>>)
        ensures
            **r == self.spec_vfs(),
    {
        &self.vfs
    }

    /// Whether the fallback is shown for every texture.
    pub fn force_loading(&self) -> (r: bool)
        ensures
            r == self.forced(),
    {
        self.force_loading
    }

    /// Has the fallback shown for every texture, or no longer.
    pub fn set_force_loading(&mut self, on: bool)
        ensures
            final(self).forced() == on,
            final(self).textures() == old(self).textures(),
            final(self).spec_fallback() == old(self).spec_fallback(),
            final(self).spec_vfs() == old(self).spec_vfs(),
    {
        self.force_loading = on;
    }

    /// The handle for a texture, and the side to fill if the texture was not
    /// asked for before: then it is to be loaded.
    pub fn texture(&mut self, path: VfsPath, color_space: TextureColorSpace) -> (r: (
        Handle<T>,
        Option<HandleWriter<T>>,
    ))
        ensures
            final(self).forced() == old(self).forced(),
            final(self).spec_fallback() == old(self).spec_fallback(),
            final(self).spec_vfs() == old(self).spec_vfs(),
            is_request(
                old(self).textures(),
                final(self).textures(),
                (path@, color_space),
                r.0,
                r.1 is Some,
            ),
            r.1 matches Some(writer) ==> writer.handle() == r.0,
    {
        let key = TextureKey { path, color_space };
        match self.textures.get(&key) {
            Some(existing) => {
                return (existing.clone(), None);
            },
            None => {},
        }
        let (handle, writer) = new_pending(key.path.as_str());
        self.textures.insert(key, handle.clone());
        (handle, Some(writer))
    }

    /// The texture to bind for a handle, by what the handle is seen to hold: a
    /// handle that was settled from the start, its result; one that a loader
    /// fills, what the loader has brought about so far.
    pub fn resolve_texture<'a>(&'a self, handle: &'a Handle<T>) -> (r: ResolvedTexture<'a, T>)
        ensures
            exists|shown: Option<&Result<T, HandleError>>|
                {
                    &&& #[trigger] handle.can_show(shown)
                    &&& r.source == source_of(self.forced(), state_of(shown))
                    &&& *r.texture == *texture_of(
                        self.forced(),
                        state_of(shown),
                        &self.spec_fallback(),
                    )
                },
    {
        resolve(self.force_loading, handle.peek(), &self.fallback)
    }
}

/// However often a texture is asked for, it is loaded once, and every request
/// gets the same handle.
pub proof fn law_each_texture_is_loaded_once<T>(
    start: Map<TextureId, Handle<T>>,
    between: Map<TextureId, Handle<T>>,
    end: Map<TextureId, Handle<T>>,
    id: TextureId,
    first: Handle<T>,
    second: Handle<T>,
    loads_first: bool,
    loads_second: bool,
)
    requires
        is_request(start, between, id, first, loads_first),
        is_request(between, end, id, second, loads_second),
    ensures
        !loads_second,
        second == first,
        end == between,
{
}

/// A request leaves the handles of other textures as they are. The same path
/// in another colour space is another texture.
pub proof fn law_requests_do_not_disturb_others<T>(
    before: Map<TextureId, Handle<T>>,
    after: Map<TextureId, Handle<T>>,
    id: TextureId,
    other: TextureId,
    handle: Handle<T>,
    loads: bool,
)
    requires
        is_request(before, after, id, handle, loads),
        other != id,
    ensures
        after.contains_key(other) == before.contains_key(other),
        before.contains_key(other) ==> after[other] == before[other],
{
}

/// The fallback is shown for every handle while it is forced, and otherwise for
/// those whose texture is not there.
pub proof fn law_fallback_is_shown_until_ready<T>(
    forced: bool,
    state: HandleState<'_, T>,
    fallback: &T,
)
    ensures
        source_of(forced, state) == TextureSource::Real <==> !forced && state is Ready,
        source_of(forced, state) != TextureSource::Real ==> texture_of(forced, state, fallback)
            == fallback,
{
}

/// The error for a failed read or decoding: what was done, to what, and why it
/// failed.
pub open spec fn failure_text(doing: Seq<char>, path: Seq<char>, why: Seq<char>) -> Seq<char> {
    doing + path + ": "@ + why
}

fn failure(doing: &str, path: &VfsPath, why: &str) -> (r: HandleError)
    ensures
        r@ == failure_text(doing@, path@, why@),
{
    let text = doing.to_owned().concat(path.as_str());
    let text = text.concat(": ");
    let text = text.concat(why);
    HandleError::new(text.as_str())
}

/// Reads and decodes a texture. `decode` gives the texture, or says why it
/// cannot be made.
pub fn load_texture<T, L: AssetSource, D: Fn(&Vec<u8>) -> Result<T, String>>(
    vfs: &Vfs<L>,
    path: &VfsPath,
    decode: D,
) -> (r: Result<T, HandleError>)
    requires
        forall|bytes: &Vec<u8>| #[trigger] call_requires(decode, (bytes,)),
    ensures
        exists|answer: Result<Vec<u8>, AssetError>|
            #[trigger] can_resolve(vfs.layers(), path@, answer) && can_load(
                answer,
                decode,
                path@,
                r,
            ),
{
    let answer = vfs.read(path);
    load_from(answer, path, decode)
}

/// What can come of a load, given what was read.
pub open spec fn can_load<T, D: Fn(&Vec<u8>) -> Result<T, String>>(
    answer: Result<Vec<u8>, AssetError>,
    decode: D,
    path: Seq<char>,
    r: Result<T, HandleError>,
) -> bool {
    match answer {
        Ok(bytes) => match r {
            Ok(texture) => call_ensures(decode, (&bytes,), Ok::<T, String>(texture)),
            Err(error) => exists|why: String|
                {
                    &&& #[trigger] call_ensures(decode, (&bytes,), Err::<T, String>(why))
                    &&& error@ == failure_text("decoding "@, path, why@)
                },
        },
        Err(e) => r matches Err(error) && exists|why: Seq<char>|
            #[trigger] e.can_say(why) && error@ == failure_text("reading "@, path, why),
    }
}

/// Decodes a texture from what was read.
pub fn load_from<T, D: Fn(&Vec<u8>) -> Result<T, String>>(
    answer: Result<Vec<u8>, AssetError>,
    path: &VfsPath,
    decode: D,
) -> (r: Result<T, HandleError>)
    requires
        forall|bytes: &Vec<u8>| #[trigger] call_requires(decode, (bytes,)),
    ensures
        can_load(answer, decode, path@, r),
{
    match answer {
        Ok(bytes) => match decode(&bytes) {
            Ok(texture) => Ok(texture),
            Err(why) => Err(failure("decoding ", path, why.as_str())),
        },
        Err(e) => {
            let why = e.message();
            Err(failure("reading ", path, why.as_str()))
        },
    }
}

/// The width and height of the fallback.
pub const FALLBACK_SIZE: u32 = 4;

/// The colours of the fallback: magenta all over.
pub fn magenta_fallback() -> (r: Vec<u8>)
    ensures
        r@ == Seq::new(
            4 * FALLBACK_SIZE as nat * FALLBACK_SIZE as nat,
            |i: int|
                if i % 4 == 1 {
                    0u8
                } else {
                    255u8
                },
        ),
{
    let mut rgba: Vec<u8> = Vec::new();
    let mut i: u32 = 0;
    while i < FALLBACK_SIZE * FALLBACK_SIZE
        invariant
            i <= 16,
            rgba@.len() == 4 * i,
            forall|k: int|
                0 <= k < 4 * i ==> #[trigger] rgba@[k] == (if k % 4 == 1 {
                    0u8
                } else {
                    255u8
                }),
        decreases 16 - i,
    {
        rgba.push(255);
        rgba.push(0);
        rgba.push(255);
        rgba.push(255);
        i += 1;
    }
    rgba
}

/// What is bound for a handle, and the reason that is given: the texture if it
/// is ready and the fallback is not forced, and else the fallback, since it is
/// forced, or the texture is loading, or its load has failed.
pub proof fn law_bound_textures_have_their_reason<'a, T>(
    forced: bool,
    state: HandleState<'a, T>,
    fallback: &'a T,
    r: ResolvedTexture<'a, T>,
)
    requires
        call_ensures(resolve::<T>, (forced, state, fallback), r),
    ensures
        forced ==> r.texture == fallback && r.source is ForcedFallback,
        !forced ==> match state {
            HandleState::Ready(texture) => r.texture == texture && r.source is Real,
            HandleState::Loading => r.texture == fallback && r.source is Loading,
            HandleState::Failed(_) => r.texture == fallback && r.source is Failed,
        },
{
}

/// A texture that was not asked for before is to be loaded, into a handle that
/// is empty, bears the path and is kept for later requests; one that was is not.
pub proof fn law_new_textures_are_loaded<T>(
    before: Map<TextureId, Handle<T>>,
    after: Map<TextureId, Handle<T>>,
    id: TextureId,
    handle: Handle<T>,
    loads: bool,
)
    requires
        is_request(before, after, id, handle, loads),
    ensures
        loads <==> !before.contains_key(id),
        after.contains_key(id) && after[id] == handle,
        loads ==> handle.can_hold(None) && handle.spec_label() == id.0,
        !loads ==> handle == before[id],
{
}

/// A load gives the texture that was decoded from the bytes that were read. If
/// reading or decoding failed, its error says which of the two, of which path,
/// and why.
pub proof fn law_loads_give_what_was_read<T, D: Fn(&Vec<u8>) -> Result<T, String>>(
    answer: Result<Vec<u8>, AssetError>,
    path: VfsPath,
    decode: D,
    r: Result<T, HandleError>,
)
    requires
        call_ensures(load_from::<T, D>, (answer, &path, decode), r),
    ensures
        match (answer, r) {
            (Ok(bytes), Ok(texture)) => call_ensures(decode, (&bytes,), Ok::<T, String>(texture)),
            (Ok(bytes), Err(error)) => exists|why: String|
                {
                    &&& #[trigger] call_ensures(decode, (&bytes,), Err::<T, String>(why))
                    &&& error@ == "decoding "@ + path@ + ": "@ + why@
                },
            (Err(e), Err(error)) => exists|why: Seq<char>|
                {
                    &&& #[trigger] e.can_say(why)
                    &&& error@ == "reading "@ + path@ + ": "@ + why
                },
            (Err(_), Ok(_)) => false,
        },
{
}

/// Every pixel of the fallback is red and blue to the full, without green, and
/// opaque; there are four rows of four.
pub proof fn law_the_fallback_is_magenta(rgba: Vec<u8>, x: int, y: int)
    requires
        call_ensures(magenta_fallback, (), rgba),
        0 <= x < 4,
        0 <= y < 4,
    ensures
        rgba@.len() == 64,
        rgba@[16 * y + 4 * x] == 255,
        rgba@[16 * y + 4 * x + 1] == 0,
        rgba@[16 * y + 4 * x + 2] == 255,
        rgba@[16 * y + 4 * x + 3] == 255,
{
}

} // verus!
