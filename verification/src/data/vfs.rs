//! `Vfs`: layers of asset sources stitched into one read-only namespace.
//!
//! Layers are ordered by precedence. A base layer holds the game's assets and
//! each layer mounted above it overrides it path by path.

use super::path::VfsPath;
use super::source::{AssetError, AssetSource};
use crate::text::{compare, lemma_text_lt, text_lt, Standing};
use vstd::prelude::*;

verus! {

/// Ordered stack of layers. Layer 0 is the top: reads walk from there down and
/// take the first hit.
///
/// Layers of different types are mounted as `Box<dyn AssetSource>`.
pub struct Vfs<L: AssetSource> {
    layers: Vec<L>,
}

/// `answer` is one that reading `path` through `layers` can give: the answer
/// of the first layer that says anything but `NotFound`, or `NotFound` if each
/// of them says so.
pub open spec fn can_resolve<L: AssetSource>(
    layers: Seq<L>,
    path: Seq<char>,
    answer: Result<Vec<u8>, AssetError>,
) -> bool
    decreases layers.len(),
{
    if layers.len() == 0 {
        answer == Err::<Vec<u8>, AssetError>(AssetError::NotFound)
    } else {
        ||| {
            &&& answer != Err::<Vec<u8>, AssetError>(AssetError::NotFound)
            &&& layers[0].can_read(path, answer)
        }
        ||| {
            &&& layers[0].can_read(path, Err::<Vec<u8>, AssetError>(AssetError::NotFound))
            &&& can_resolve(layers.skip(1), path, answer)
        }
    }
}

/// Whether one of `paths` has the text `text`.
pub open spec fn lists(paths: Seq<VfsPath>, text: Seq<char>) -> bool {
    exists|i: int| 0 <= i < paths.len() && (#[trigger] paths[i])@ == text
}

/// Each path comes before those behind it; in particular none comes twice.
pub open spec fn ascending(paths: Seq<VfsPath>) -> bool {
    forall|i: int, j: int|
        0 <= i < j < paths.len() ==> text_lt((#[trigger] paths[i])@, (#[trigger] paths[j])@)
}

/// `out` holds the paths of all `listings`, each once, in ascending order.
pub open spec fn is_union(listings: Seq<Vec<VfsPath>>, out: Seq<VfsPath>) -> bool {
    &&& ascending(out)
    &&& forall|text: Seq<char>| #[trigger]
        lists(out, text) <==> exists|k: int|
            0 <= k < listings.len() && lists((#[trigger] listings[k])@, text)
}

/// `answers` are ones that the layers can give to `list`, one each.
pub open spec fn can_list_each<L: AssetSource>(
    layers: Seq<L>,
    answers: Seq<Vec<VfsPath>>,
) -> bool {
    &&& answers.len() == layers.len()
    &&& forall|k: int|
        0 <= k < answers.len() ==> layers[k].can_list(
            Ok::<Vec<VfsPath>, AssetError>(#[trigger] answers[k]),
        )
}

/// `answer` is one that the layer can give to `drain_changes`.
pub open spec fn can_drain<L: AssetSource>(layer: L, answer: Vec<VfsPath>) -> bool {
    &&& call_ensures(L::drain_changes, (&layer,), answer)
    &&& answer@.len() == 0 || layer.can_report(answer)
}

/// `answers` are ones that the layers can give to `drain_changes`, one each.
pub open spec fn can_drain_each<L: AssetSource>(
    layers: Seq<L>,
    answers: Seq<Vec<VfsPath>>,
) -> bool {
    &&& answers.len() == layers.len()
    &&& forall|k: int| 0 <= k < answers.len() ==> can_drain(layers[k], #[trigger] answers[k])
}

/// Where `path` is, or would have to be put, among the ascending `paths`.
fn place_of(paths: &Vec<VfsPath>, path: &VfsPath) -> (r: (usize, bool))
    requires
        ascending(paths@),
    ensures
        r.0 <= paths@.len(),
        r.1 ==> r.0 < paths@.len() && paths@[r.0 as int]@ == path@,
        forall|k: int| 0 <= k < r.0 ==> text_lt((#[trigger] paths@[k])@, path@),
        !r.1 ==> forall|k: int|
            r.0 <= k < paths@.len() ==> text_lt(path@, (#[trigger] paths@[k])@),
{
    let mut i: usize = 0;
    while i < paths.len()
        invariant
            i <= paths@.len(),
            ascending(paths@),
            forall|k: int| 0 <= k < i ==> text_lt((#[trigger] paths@[k])@, path@),
        decreases paths@.len() - i,
    {
        match compare(paths[i].as_str(), path.as_str()) {
            Standing::Before => {},
            Standing::Same => {
                return (i, true);
            },
            Standing::After => {
                proof {
                    assert forall|k: int| i <= k < paths@.len() implies text_lt(
                        path@,
                        (#[trigger] paths@[k])@,
                    ) by {
                        if k > i {
                            assert(text_lt(paths@[i as int]@, paths@[k]@));
                            lemma_text_lt(path@, paths@[i as int]@, paths@[k]@);
                        }
                    }
                }
                return (i, false);
            },
        }
        i += 1;
    }
    (i, false)
}

/// Puts `path` in its place among the ascending `paths`, unless it is there.
fn add_path(paths: &mut Vec<VfsPath>, path: VfsPath)
    requires
        ascending(old(paths)@),
    ensures
        ascending(final(paths)@),
        forall|text: Seq<char>| #[trigger]
            lists(final(paths)@, text) <==> lists(old(paths)@, text) || text == path@,
{
    let (at, found) = place_of(paths, &path);
    let ghost before = paths@;
    if found {
        assert(before[at as int]@ == path@);
        return ;
    }
    let ghost p = path;
    paths.insert(at, path);
    proof {
        let after = paths@;
        assert(after =~= before.insert(at as int, p));
        assert forall|i: int, j: int| 0 <= i < j < after.len() implies text_lt(
            (#[trigger] after[i])@,
            (#[trigger] after[j])@,
        ) by {
            let i0 = if i < at {
                i
            } else {
                i - 1
            };
            let j0 = if j < at {
                j
            } else {
                j - 1
            };
            if i == at {
                assert(after[j] == before[j0]);
            } else if j == at {
                assert(after[i] == before[i0]);
            } else {
                assert(after[i] == before[i0] && after[j] == before[j0]);
                assert(text_lt(before[i0]@, before[j0]@));
            }
        }
        assert forall|text: Seq<char>| #[trigger]
            lists(after, text) <==> lists(before, text) || text == p@ by {
            if lists(after, text) {
                let i = choose|i: int| 0 <= i < after.len() && (#[trigger] after[i])@ == text;
                if i < at {
                    assert(before[i]@ == text);
                } else if i > at {
                    assert(before[i - 1]@ == text);
                }
            }
            if lists(before, text) {
                let i = choose|i: int| 0 <= i < before.len() && (#[trigger] before[i])@ == text;
                if i < at {
                    assert(after[i]@ == text);
                } else {
                    assert(after[i + 1]@ == text);
                }
            }
            if text == p@ {
                assert(after[at as int]@ == text);
            }
        }
    }
}

/// Adds every path of `listing` to the ascending `paths`.
fn add_paths(paths: &mut Vec<VfsPath>, listing: &Vec<VfsPath>)
    requires
        ascending(old(paths)@),
    ensures
        ascending(final(paths)@),
        forall|text: Seq<char>| #[trigger]
            lists(final(paths)@, text) <==> lists(old(paths)@, text) || lists(listing@, text),
{
    let ghost before = paths@;
    let mut i: usize = 0;
    while i < listing.len()
        invariant
            i <= listing@.len(),
            ascending(paths@),
            forall|text: Seq<char>| #[trigger]
                lists(paths@, text) <==> lists(before, text) || lists(
                    listing@.take(i as int),
                    text,
                ),
        decreases listing@.len() - i,
    {
        let ghost now = paths@;
        add_path(paths, listing[i].clone());
        proof {
            let longer = listing@.take(i + 1);
            assert forall|text: Seq<char>| #[trigger]
                lists(paths@, text) <==> lists(before, text) || lists(longer, text) by {
                assert(lists(paths@, text) <==> lists(now, text) || text == listing@[i as int]@);
                if lists(listing@.take(i as int), text) {
                    let k = choose|k: int|
                        0 <= k < i && (#[trigger] listing@.take(i as int)[k])@ == text;
                    assert(longer[k]@ == text);
                }
                if text == listing@[i as int]@ {
                    assert(longer[i as int]@ == text);
                }
                if lists(longer, text) {
                    let k = choose|k: int| 0 <= k < longer.len() && (#[trigger] longer[k])@ == text;
                    if k < i {
                        assert(listing@.take(i as int)[k]@ == text);
                    }
                }
            }
        }
        i += 1;
    }
    assert(listing@.take(listing@.len() as int) =~= listing@);
}

proof fn lemma_union_step(
    listings: Seq<Vec<VfsPath>>,
    next: Vec<VfsPath>,
    before: Seq<VfsPath>,
    after: Seq<VfsPath>,
)
    requires
        is_union(listings, before),
        ascending(after),
        forall|text: Seq<char>| #[trigger]
            lists(after, text) <==> lists(before, text) || lists(next@, text),
    ensures
        is_union(listings.push(next), after),
{
    let longer = listings.push(next);
    assert forall|text: Seq<char>| #[trigger] lists(after, text) <==> exists|k: int|
        0 <= k < longer.len() && lists((#[trigger] longer[k])@, text) by {
        if lists(before, text) {
            let k = choose|k: int|
                0 <= k < listings.len() && lists((#[trigger] listings[k])@, text);
            assert(longer[k] == listings[k]);
        }
        if lists(next@, text) {
            assert(longer[listings.len() as int] == next);
        }
        if exists|k: int| 0 <= k < longer.len() && lists((#[trigger] longer[k])@, text) {
            let k = choose|k: int| 0 <= k < longer.len() && lists((#[trigger] longer[k])@, text);
            if k < listings.len() {
                assert(lists(listings[k]@, text));
            }
        }
    }
}

/// Two ascending lists of the same paths are the same list: a merged listing
/// does not depend on the order in which the layers, or the operating system
/// below them, name their files.
pub proof fn law_listing_is_reproducible(a: Seq<VfsPath>, b: Seq<VfsPath>)
    requires
        ascending(a),
        ascending(b),
        forall|text: Seq<char>| #[trigger] lists(a, text) <==> lists(b, text),
    ensures
        a.len() == b.len(),
        forall|i: int| 0 <= i < a.len() ==> (#[trigger] a[i])@ == b[i]@,
    decreases a.len(),
{
    if a.len() == 0 {
        if b.len() > 0 {
            assert(lists(b, b[0]@));
            assert(lists(a, b[0]@));
        }
    } else {
        assert(a[a.len() - 1]@ == a.last()@);
        assert(lists(a, a.last()@));
        assert(lists(b, a.last()@));
        assert(b[b.len() - 1]@ == b.last()@);
        assert(lists(b, b.last()@));
        assert(lists(a, b.last()@));
        lemma_last_is_greatest(a, b.last()@);
        lemma_last_is_greatest(b, a.last()@);
        lemma_text_lt(a.last()@, b.last()@, a.last()@);
        let c = a.drop_last();
        let d = b.drop_last();
        assert(ascending(c)) by {
            assert forall|i: int, j: int| 0 <= i < j < c.len() implies text_lt(
                (#[trigger] c[i])@,
                (#[trigger] c[j])@,
            ) by {
                assert(text_lt(a[i]@, a[j]@));
            }
        }
        assert(ascending(d)) by {
            assert forall|i: int, j: int| 0 <= i < j < d.len() implies text_lt(
                (#[trigger] d[i])@,
                (#[trigger] d[j])@,
            ) by {
                assert(text_lt(b[i]@, b[j]@));
            }
        }
        assert forall|text: Seq<char>| #[trigger] lists(c, text) <==> lists(d, text) by {
            lemma_lists_without_last(a, text);
            lemma_lists_without_last(b, text);
        }
        law_listing_is_reproducible(c, d);
        assert forall|i: int| 0 <= i < a.len() implies (#[trigger] a[i])@ == b[i]@ by {
            if i < c.len() {
                assert(c[i]@ == d[i]@);
            }
        }
    }
}

proof fn lemma_last_is_greatest(paths: Seq<VfsPath>, text: Seq<char>)
    requires
        ascending(paths),
        lists(paths, text),
    ensures
        paths.len() > 0,
        text == paths.last()@ || text_lt(text, paths.last()@),
{
    let i = choose|i: int| 0 <= i < paths.len() && (#[trigger] paths[i])@ == text;
    if i < paths.len() - 1 {
        assert(text_lt(paths[i]@, paths[paths.len() - 1]@));
    }
}

proof fn lemma_lists_without_last(paths: Seq<VfsPath>, text: Seq<char>)
    requires
        ascending(paths),
        paths.len() > 0,
    ensures
        lists(paths.drop_last(), text) <==> lists(paths, text) && text != paths.last()@,
{
    let front = paths.drop_last();
    if lists(front, text) {
        let i = choose|i: int| 0 <= i < front.len() && (#[trigger] front[i])@ == text;
        assert(paths[i]@ == text);
        assert(text_lt(paths[i]@, paths[paths.len() - 1]@));
        lemma_text_lt(paths[i]@, paths[paths.len() - 1]@, text);
    }
    if lists(paths, text) && text != paths.last()@ {
        let i = choose|i: int| 0 <= i < paths.len() && (#[trigger] paths[i])@ == text;
        assert(front[i]@ == text);
    }
}

impl<L: AssetSource> Vfs<L> {
    /// The layers, top first.
    pub closed spec fn layers(&self) -> Seq<L> {
        self.layers@
    }

    /// A filesystem without layers.
    pub fn new() -> (r: Self)
        ensures
            r.layers() == Seq::<L>::empty(),
    {
        Vfs { layers: Vec::new() }
    }

    /// Puts `source` on top of the stack: it overrides what is mounted.
    pub fn mount(&mut self, source: L)
        ensures
            final(self).layers() == seq![source] + old(self).layers(),
    {
        self.layers.insert(0, source);
        assert(self.layers@ =~= seq![source] + old(self).layers@);
    }

    /// How many layers are mounted.
    pub fn layer_count(&self) -> (r: usize)
        ensures
            r == self.layers().len(),
    {
        self.layers.len()
    }

    /// Reads `path` from the first layer that has it.
    ///
    /// `NotFound` comes back if no layer has it; any other error of a layer is
    /// returned at once and is not hidden by a lower layer.
    pub fn read(&self, path: &VfsPath) -> (r: Result<Vec<u8>, AssetError>)
        ensures
            can_resolve(self.layers(), path@, r),
    {
        let ghost layers = self.layers@;
        let mut i: usize = 0;
        assert(layers.skip(0) =~= layers);
        while i < self.layers.len()
            invariant
                layers == self.layers@,
                i <= layers.len(),
                forall|answer: Result<Vec<u8>, AssetError>| #[trigger]
                    can_resolve(layers.skip(i as int), path@, answer) ==> can_resolve(
                        layers,
                        path@,
                        answer,
                    ),
            decreases layers.len() - i,
        {
            let answer = self.layers[i].read(path);
            let ghost rest = layers.skip(i as int);
            assert(rest[0] == layers[i as int]);
            assert(rest.skip(1) =~= layers.skip(i + 1));
            match answer {
                Err(AssetError::NotFound) => {
                    assert(rest[0].can_read(
                        path@,
                        Err::<Vec<u8>, AssetError>(AssetError::NotFound),
                    ));
                    assert forall|later: Result<Vec<u8>, AssetError>| #[trigger]
                        can_resolve(layers.skip(i + 1), path@, later) implies can_resolve(
                        layers,
                        path@,
                        later,
                    ) by {
                        assert(can_resolve(rest, path@, later));
                    }
                },
                other => {
                    assert(can_resolve(rest, path@, other));
                    return other;
                },
            }
            i += 1;
        }
        let missing: Result<Vec<u8>, AssetError> = Err(AssetError::NotFound);
        assert(can_resolve(layers.skip(i as int), path@, missing));
        missing
    }

    /// Every path that some layer lists, each once, in ascending order. The
    /// first error of a layer is returned in their place.
    pub fn list(&self) -> (r: Result<Vec<VfsPath>, AssetError>)
        ensures
            match r {
                Ok(out) => exists|listings: Seq<Vec<VfsPath>>|
                    {
                        &&& #[trigger] can_list_each(self.layers(), listings)
                        &&& is_union(listings, out@)
                    },
                Err(e) => exists|listings: Seq<Vec<VfsPath>>|
                    {
                        &&& listings.len() < self.layers().len()
                        &&& #[trigger] can_list_each(
                            self.layers().take(listings.len() as int),
                            listings,
                        )
                        &&& self.layers()[listings.len() as int].can_list(
                            Err::<Vec<VfsPath>, AssetError>(e),
                        )
                    },
            },
    {
        let ghost layers = self.layers@;
        let ghost mut listings: Seq<Vec<VfsPath>> = Seq::empty();
        let mut out: Vec<VfsPath> = Vec::new();
        let mut i: usize = 0;
        while i < self.layers.len()
            invariant
                layers == self.layers@,
                i <= layers.len(),
                listings.len() == i,
                can_list_each(layers.take(i as int), listings),
                is_union(listings, out@),
            decreases layers.len() - i,
        {
            match self.layers[i].list() {
                Ok(listing) => {
                    let ghost before = out@;
                    add_paths(&mut out, &listing);
                    proof {
                        lemma_union_step(listings, listing, before, out@);
                        let more = listings.push(listing);
                        assert forall|k: int| 0 <= k < more.len() implies layers.take(
                            i + 1,
                        )[k].can_list(Ok::<Vec<VfsPath>, AssetError>(#[trigger] more[k])) by {
                            if k < i {
                                assert(layers.take(i as int)[k].can_list(
                                    Ok::<Vec<VfsPath>, AssetError>(listings[k]),
                                ));
                            }
                        }
                        listings = more;
                    }
                },
                Err(e) => {
                    assert(can_list_each(self.layers().take(listings.len() as int), listings));
                    return Err(e);
                },
            }
            i += 1;
        }
        assert(layers.take(layers.len() as int) =~= layers);
        assert(can_list_each(self.layers(), listings));
        Ok(out)
    }

    /// The paths that some layer reports as changed, each once, in ascending
    /// order.
    pub fn drain_changes(&self) -> (r: Vec<VfsPath>)
        ensures
            exists|reports: Seq<Vec<VfsPath>>|
                {
                    &&& #[trigger] can_drain_each(self.layers(), reports)
                    &&& is_union(reports, r@)
                },
    {
        let ghost layers = self.layers@;
        let ghost mut reports: Seq<Vec<VfsPath>> = Seq::empty();
        let mut out: Vec<VfsPath> = Vec::new();
        let mut i: usize = 0;
        while i < self.layers.len()
            invariant
                layers == self.layers@,
                i <= layers.len(),
                reports.len() == i,
                can_drain_each(layers.take(i as int), reports),
                is_union(reports, out@),
            decreases layers.len() - i,
        {
            let drain = L::drain_changes;
            let report = drain(&self.layers[i]);
            let ghost before = out@;
            add_paths(&mut out, &report);
            proof {
                lemma_union_step(reports, report, before, out@);
                let more = reports.push(report);
                assert forall|k: int| 0 <= k < more.len() implies can_drain(
                    layers.take(i + 1)[k],
                    #[trigger] more[k],
                ) by {
                    if k < i {
                        assert(can_drain(layers.take(i as int)[k], reports[k]));
                    }
                }
                reports = more;
            }
            i += 1;
        }
        assert(layers.take(layers.len() as int) =~= layers);
        assert(can_drain_each(self.layers(), reports));
        out
    }
}

/// A read is answered by the first layer that does not say that it has no such
/// path, whatever that layer says and whatever lies below it; if there is no
/// such layer, the path is not found.
pub proof fn law_first_layer_answers<L: AssetSource>(
    vfs: Vfs<L>,
    path: VfsPath,
    answer: Result<Vec<u8>, AssetError>,
) -> (n: int)
    requires
        call_ensures(Vfs::<L>::read, (&vfs, &path), answer),
    ensures
        0 <= n <= vfs.layers().len(),
        forall|k: int|
            0 <= k < n ==> (#[trigger] vfs.layers()[k]).can_read(
                path@,
                Err::<Vec<u8>, AssetError>(AssetError::NotFound),
            ),
        n == vfs.layers().len() <==> answer == Err::<Vec<u8>, AssetError>(AssetError::NotFound),
        n < vfs.layers().len() ==> vfs.layers()[n].can_read(path@, answer),
{
    lemma_first_answer(vfs.layers(), path@, answer)
}

proof fn lemma_first_answer<L: AssetSource>(
    layers: Seq<L>,
    path: Seq<char>,
    answer: Result<Vec<u8>, AssetError>,
) -> (n: int)
    requires
        can_resolve(layers, path, answer),
    ensures
        0 <= n <= layers.len(),
        forall|k: int|
            0 <= k < n ==> (#[trigger] layers[k]).can_read(
                path,
                Err::<Vec<u8>, AssetError>(AssetError::NotFound),
            ),
        n == layers.len() <==> answer == Err::<Vec<u8>, AssetError>(AssetError::NotFound),
        n < layers.len() ==> layers[n].can_read(path, answer),
    decreases layers.len(),
{
    if layers.len() == 0 {
        0
    } else if answer != Err::<Vec<u8>, AssetError>(AssetError::NotFound) && layers[0].can_read(
        path,
        answer,
    ) {
        0
    } else {
        let n = lemma_first_answer(layers.skip(1), path, answer);
        assert forall|k: int| 0 <= k < n + 1 implies (#[trigger] layers[k]).can_read(
            path,
            Err::<Vec<u8>, AssetError>(AssetError::NotFound),
        ) by {
            if k > 0 {
                assert(layers.skip(1)[k - 1] == layers[k]);
            }
        }
        n + 1
    }
}

/// A listing holds a path if and only if a layer lists it; each comes once,
/// after those that are less.
pub proof fn law_listings_are_merged<L: AssetSource>(vfs: Vfs<L>, listing: Vec<VfsPath>) -> (
    answers: Seq<Vec<VfsPath>>)
    requires
        call_ensures(Vfs::<L>::list, (&vfs,), Ok::<Vec<VfsPath>, AssetError>(listing)),
    ensures
        answers.len() == vfs.layers().len(),
        forall|k: int|
            0 <= k < answers.len() ==> vfs.layers()[k].can_list(
                Ok::<Vec<VfsPath>, AssetError>(#[trigger] answers[k]),
            ),
        forall|text: Seq<char>| #[trigger]
            lists(listing@, text) <==> exists|k: int|
                0 <= k < answers.len() && lists((#[trigger] answers[k])@, text),
        forall|i: int, j: int|
            0 <= i < j < listing@.len() ==> text_lt(
                (#[trigger] listing@[i])@,
                (#[trigger] listing@[j])@,
            ),
{
    choose|listings: Seq<Vec<VfsPath>>|
        {
            &&& #[trigger] can_list_each(vfs.layers(), listings)
            &&& is_union(listings, listing@)
        }
}

/// A report of changes holds a path if and only if a layer reports it; each
/// comes once, after those that are less.
pub proof fn law_changes_are_merged<L: AssetSource>(vfs: Vfs<L>, changes: Vec<VfsPath>) -> (
    answers: Seq<Vec<VfsPath>>)
    requires
        call_ensures(Vfs::<L>::drain_changes, (&vfs,), changes),
    ensures
        answers.len() == vfs.layers().len(),
        forall|k: int|
            0 <= k < answers.len() ==> call_ensures(
                L::drain_changes,
                (&vfs.layers()[k],),
                #[trigger] answers[k],
            ),
        forall|text: Seq<char>| #[trigger]
            lists(changes@, text) <==> exists|k: int|
                0 <= k < answers.len() && lists((#[trigger] answers[k])@, text),
        forall|i: int, j: int|
            0 <= i < j < changes@.len() ==> text_lt(
                (#[trigger] changes@[i])@,
                (#[trigger] changes@[j])@,
            ),
{
    let reports = choose|reports: Seq<Vec<VfsPath>>|
        {
            &&& #[trigger] can_drain_each(vfs.layers(), reports)
            &&& is_union(reports, changes@)
        };
    assert forall|k: int| 0 <= k < reports.len() implies call_ensures(
        L::drain_changes,
        (&vfs.layers()[k],),
        #[trigger] reports[k],
    ) by {
        assert(can_drain(vfs.layers()[k], reports[k]));
    }
    reports
}

} // verus!
