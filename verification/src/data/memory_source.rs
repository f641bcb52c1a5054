//! `MemorySource`: an asset source backed by an in-memory map.

use super::path::{normalise, VfsPath};
use super::source::{AssetError, AssetSource};
use super::vfs::{can_resolve, lists};
use crate::table::{lemma_as_map, Table, TableKey};
use vstd::prelude::*;

verus! {

impl TableKey for VfsPath {
    type Id = Seq<char>;

    open spec fn key(&self) -> Seq<char> {
        self@
    }

    fn same_key(&self, other: &Self) -> (r: bool) {
        self.same(other)
    }
}

/// In-memory asset source: a map from paths to bytes.
pub struct MemorySource {
    files: Table<VfsPath, Vec<u8>>,
}

/// A copy of `bytes`.
fn copy_bytes(bytes: &Vec<u8>) -> (r: Vec<u8>)
    ensures
        r@ == bytes@,
{
    let mut out: Vec<u8> = Vec::new();
    let mut i: usize = 0;
    while i < bytes.len()
        invariant
            i <= bytes@.len(),
            out@ == bytes@.take(i as int),
        decreases bytes@.len() - i,
    {
        out.push(bytes[i]);
        i += 1;
        assert(bytes@.take(i as int) =~= bytes@.take(i - 1).push(bytes@[i - 1]));
    }
    assert(bytes@.take(i as int) =~= bytes@);
    out
}

impl MemorySource {
    /// The files: the bytes at each path.
    pub closed spec fn files(&self) -> Map<Seq<char>, Seq<u8>> {
        self.files@.map_values(|bytes: Vec<u8>| bytes@)
    }

    /// A source without files.
    pub fn new() -> (r: Self)
        ensures
            r.files() == Map::<Seq<char>, Seq<u8>>::empty(),
    {
        let r = MemorySource { files: Table::new() };
        assert(r.files() =~= Map::<Seq<char>, Seq<u8>>::empty());
        r
    }

    /// Puts `bytes` at `path`, and hands back the bytes that stood there.
    pub fn insert(&mut self, path: VfsPath, bytes: Vec<u8>) -> (r: Option<Vec<u8>>)
        ensures
            final(self).files() == old(self).files().insert(path@, bytes@),
            match r {
                Some(previous) => old(self).files().contains_key(path@) && previous@ == old(
                    self,
                ).files()[path@],
                None => !old(self).files().contains_key(path@),
            },
    {
        let r = self.files.insert(path, bytes);
        assert(self.files() =~= old(self).files().insert(path@, bytes@));
        r
    }

    /// The source with `bytes` at `path` as well.
    pub fn with(self, path: &str, bytes: Vec<u8>) -> (r: Self)
        requires
            normalise(path@) is Ok,
        ensures
            r.files() == self.files().insert(normalise(path@)->Ok_0, bytes@),
    {
        let mut source = self;
        match VfsPath::new(path) {
            Ok(path) => {
                source.insert(path, bytes);
            },
            Err(_) => {},
        }
        source
    }
}

impl Default for MemorySource {
    fn default() -> (r: Self)
        ensures
            r.files() == Map::<Seq<char>, Seq<u8>>::empty(),
    {
        MemorySource::new()
    }
}

impl AssetSource for MemorySource {
    /// A read gives the bytes of the file, or `NotFound`.
    open spec fn can_read(&self, path: Seq<char>, answer: Result<Vec<u8>, AssetError>) -> bool {
        match answer {
            Ok(bytes) => self.files().contains_key(path) && bytes@ == self.files()[path],
            Err(e) => !self.files().contains_key(path) && e == AssetError::NotFound,
        }
    }

    /// A listing holds the path of each file, once.
    open spec fn can_list(&self, answer: Result<Vec<VfsPath>, AssetError>) -> bool {
        match answer {
            Ok(paths) => {
                &&& paths@.len() == self.files().dom().len()
                &&& forall|text: Seq<char>| #[trigger]
                    lists(paths@, text) <==> self.files().contains_key(text)
            },
            Err(_) => false,
        }
    }

    /// Nothing ever changes behind the source's back.
    open spec fn can_report(&self, changed: Vec<VfsPath>) -> bool {
        false
    }

    fn read(&self, path: &VfsPath) -> (r: Result<Vec<u8>, AssetError>) {
        match self.files.get(path) {
            Some(bytes) => Ok(copy_bytes(bytes)),
            None => Err(AssetError::NotFound),
        }
    }

    fn list(&self) -> (r: Result<Vec<VfsPath>, AssetError>) {
        let n = self.files.len();
        let ghost entries = self.files.entries();
        let mut out: Vec<VfsPath> = Vec::new();
        let mut i: usize = 0;
        while i < n
            invariant
                i <= n == entries.len(),
                entries == self.files.entries(),
                out@.len() == i,
                forall|k: int| 0 <= k < i ==> (#[trigger] out@[k]) == entries[k].0,
            decreases n - i,
        {
            let (path, _bytes) = self.files.entry(i);
            out.push(path.clone());
            i += 1;
        }
        proof {
            lemma_as_map(entries);
            assert(self.files().dom() =~= self.files@.dom());
            assert forall|text: Seq<char>| #[trigger]
                lists(out@, text) <==> self.files().contains_key(text) by {
                if lists(out@, text) {
                    let k = choose|k: int| 0 <= k < out@.len() && (#[trigger] out@[k])@ == text;
                    assert(entries[k].0.key() == text);
                }
                if self.files@.contains_key(text) {
                    let k = choose|k: int|
                        0 <= k < entries.len() && (#[trigger] entries[k]).0.key() == text;
                    assert(out@[k]@ == text);
                }
            }
        }
        Ok(out)
    }
}

/// Reading through a stack of in-memory layers gives the bytes of the topmost
/// layer that has the path, whatever the layers below hold.
pub proof fn law_top_layer_wins(
    layers: Seq<MemorySource>,
    path: Seq<char>,
    top: int,
    answer: Result<Vec<u8>, AssetError>,
)
    requires
        0 <= top < layers.len(),
        layers[top].files().contains_key(path),
        forall|k: int| 0 <= k < top ==> !(#[trigger] layers[k]).files().contains_key(path),
        can_resolve(layers, path, answer),
    ensures
        answer matches Ok(bytes) && bytes@ == layers[top].files()[path],
    decreases layers.len(),
{
    if top > 0 {
        assert(!layers[0].files().contains_key(path));
        assert(layers.skip(1)[top - 1] == layers[top]);
        assert forall|k: int| 0 <= k < top - 1 implies !(#[trigger] layers.skip(
            1,
        )[k]).files().contains_key(path) by {
            assert(!layers[k + 1].files().contains_key(path));
        }
        law_top_layer_wins(layers.skip(1), path, top - 1, answer);
    }
}

/// A path that no in-memory layer holds is not found.
pub proof fn law_missing_everywhere_is_not_found(
    layers: Seq<MemorySource>,
    path: Seq<char>,
    answer: Result<Vec<u8>, AssetError>,
)
    requires
        forall|k: int| 0 <= k < layers.len() ==> !(#[trigger] layers[k]).files().contains_key(path),
        can_resolve(layers, path, answer),
    ensures
        answer == Err::<Vec<u8>, AssetError>(AssetError::NotFound),
    decreases layers.len(),
{
    if layers.len() > 0 {
        assert(!layers[0].files().contains_key(path));
        assert forall|k: int| 0 <= k < layers.len() - 1 implies !(#[trigger] layers.skip(
            1,
        )[k]).files().contains_key(path) by {
            assert(!layers[k + 1].files().contains_key(path));
        }
        law_missing_everywhere_is_not_found(layers.skip(1), path, answer);
    }
}

} // verus!
