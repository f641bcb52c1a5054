//! Paths of the host's filesystem, taken into the virtual one.

use super::path::{normalise, VfsPath};
use crate::text::{chars_of, string_of};
use vstd::prelude::*;

verus! {

#[verifier::external_type_specification]
#[verifier::external_body]
pub struct ExPathBuf(std::path::PathBuf);

/// What `Path::strip_prefix` leaves of `host` below `root`.
pub uninterp spec fn path_below(
    root: std::path::PathBuf,
    host: std::path::PathBuf,
) -> Option<std::path::PathBuf>;

/// What `Path::to_str` gives for `path`.
pub uninterp spec fn path_text(path: std::path::PathBuf) -> Option<Seq<char>>;

/// `std::path::Path::strip_prefix`: the rest of `host` behind `root`, or
/// nothing if `host` does not start with the components of `root`.
#[verifier::external_body]
fn strip_prefix(root: &std::path::PathBuf, host: &std::path::PathBuf) -> (r: Option<
    std::path::PathBuf,
>)
    ensures
        r == path_below(*root, *host),
{
    host.strip_prefix(root).ok().map(|rest| rest.to_path_buf())
}

/// `std::path::Path::to_str`: the path as text, or nothing if it is not valid
/// Unicode.
#[verifier::external_body]
fn to_text(path: &std::path::PathBuf) -> (r: Option<String>)
    ensures
        match r {
            Some(text) => path_text(*path) == Some(text@),
            None => path_text(*path) is None,
        },
{
    path.to_str().map(|text| text.to_owned())
}

/// `std::path::MAIN_SEPARATOR`: the character that the platform writes
/// between path components, a slash or a backslash. Which one it is depends on
/// the platform.
#[verifier::external_body]
fn main_separator() -> (r: char)
    ensures
        is_separator(r),
{
    std::path::MAIN_SEPARATOR
}

/// A character that some platform writes between path components.
pub open spec fn is_separator(c: char) -> bool {
    c == '/' || c == '\\'
}

/// `text` with a slash in place of each `separator`.
pub open spec fn with_slashes(text: Seq<char>, separator: char) -> Seq<char> {
    text.map_values(
        |c: char|
            if c == separator {
                '/'
            } else {
                c
            },
    )
}

/// The virtual path of a relative host path, if the grammar accepts it.
pub open spec fn from_host(text: Option<Seq<char>>, separator: char) -> Option<Seq<char>> {
    match text {
        None => None,
        Some(t) => match normalise(with_slashes(t, separator)) {
            Ok(path) => Some(path),
            Err(_) => None,
        },
    }
}

/// Takes a host path, relative to a root and written with `separator`, into
/// the virtual filesystem. What the grammar rejects is dropped.
pub fn vfs_path_of(text: &str, separator: char) -> (r: Option<VfsPath>)
    ensures
        match r {
            Some(path) => from_host(Some(text@), separator) == Some(path@),
            None => from_host(Some(text@), separator) is None,
        },
{
    let chars = chars_of(text);
    let mut slashed: Vec<char> = Vec::new();
    let mut i: usize = 0;
    while i < chars.len()
        invariant
            i <= chars@.len(),
            slashed@ == with_slashes(chars@.take(i as int), separator),
        decreases chars@.len() - i,
    {
        let c = chars[i];
        let shown = if c == separator {
            '/'
        } else {
            c
        };
        slashed.push(shown);
        i += 1;
        assert(slashed@ =~= with_slashes(chars@.take(i as int), separator));
    }
    assert(chars@.take(i as int) =~= chars@);
    let n = slashed.len();
    let normalised = string_of(&slashed, 0, n);
    assert(normalised@ =~= slashed@);
    match VfsPath::new(normalised.as_str()) {
        Ok(path) => Some(path),
        Err(_) => None,
    }
}

/// What a host path is in the virtual filesystem rooted at `root`: nothing for
/// a path outside the root, one that is not Unicode, and one that the grammar
/// rejects (the root itself among them).
pub open spec fn translated(
    root: std::path::PathBuf,
    host: std::path::PathBuf,
    separator: char,
) -> Option<Seq<char>> {
    match path_below(root, host) {
        None => None,
        Some(rest) => from_host(path_text(rest), separator),
    }
}

/// The text of a path.
pub open spec fn text_of(path: Option<VfsPath>) -> Option<Seq<char>> {
    match path {
        Some(p) => Some(p@),
        None => None,
    }
}

/// Takes a host path, written with `separator`, into the virtual filesystem
/// rooted at `root`.
fn translate(root: &std::path::PathBuf, host_path: &std::path::PathBuf, separator: char) -> (r:
    Option<VfsPath>)
    ensures
        text_of(r) == translated(*root, *host_path, separator),
{
    let rest = match strip_prefix(root, host_path) {
        Some(rest) => rest,
        None => {
            return None;
        },
    };
    match to_text(&rest) {
        Some(text) => vfs_path_of(text.as_str(), separator),
        None => None,
    }
}

/// Takes the host path `host_path` into the virtual filesystem rooted at
/// `root`. Which of the two separators stands between its components depends
/// on the platform.
pub fn vfs_path_for(root: &std::path::PathBuf, host_path: &std::path::PathBuf) -> (r: Option<
    VfsPath,
>)
    ensures
        exists|separator: char|
            is_separator(separator) && text_of(r) == #[trigger] translated(
                *root,
                *host_path,
                separator,
            ),
{
    translate(root, host_path, main_separator())
}

/// The texts that are there, in order.
pub open spec fn present(texts: Seq<Option<Seq<char>>>) -> Seq<Seq<char>>
    decreases texts.len(),
{
    if texts.len() == 0 {
        Seq::empty()
    } else {
        match texts.last() {
            Some(text) => present(texts.drop_last()).push(text),
            None => present(texts.drop_last()),
        }
    }
}

/// What host paths are in the virtual filesystem rooted at `root`, one each.
pub open spec fn all_translated(
    root: std::path::PathBuf,
    hosts: Seq<std::path::PathBuf>,
    separator: char,
) -> Seq<Option<Seq<char>>> {
    Seq::new(hosts.len(), |i: int| translated(root, hosts[i], separator))
}

/// Takes host paths into the virtual filesystem rooted at `root`: the files of
/// a directory walk, or those that have changed. Those that are not in it are
/// left out. The same separator stands in all of them.
pub fn vfs_paths_for(root: &std::path::PathBuf, hosts: &Vec<std::path::PathBuf>) -> (r: Vec<VfsPath>)
    ensures
        exists|separator: char|
            is_separator(separator) && r@.map_values(|p: VfsPath| p@) == present(
                #[trigger] all_translated(*root, hosts@, separator),
            ),
{
    let separator = main_separator();
    let mut out: Vec<VfsPath> = Vec::new();
    let mut i: usize = 0;
    let ghost all = all_translated(*root, hosts@, separator);
    assert(out@.map_values(|p: VfsPath| p@) =~= present(all.take(0)));
    while i < hosts.len()
        invariant
            i <= hosts@.len(),
            all == all_translated(*root, hosts@, separator),
            out@.map_values(|p: VfsPath| p@) == present(all.take(i as int)),
        decreases hosts@.len() - i,
    {
        let ghost before = out@;
        assert(all.take(i + 1).drop_last() =~= all.take(i as int));
        match translate(root, &hosts[i], separator) {
            Some(path) => {
                out.push(path);
                assert(out@.map_values(|p: VfsPath| p@) =~= before.map_values(
                    |p: VfsPath| p@,
                ).push(path@));
            },
            None => {},
        }
        i += 1;
    }
    assert(all.take(i as int) =~= all);
    out
}

/// A text without backslashes has one virtual path, whatever the platform.
pub proof fn law_plain_text_has_one_path(text: Seq<char>, a: char, b: char)
    requires
        !text.contains('\\'),
        is_separator(a),
        is_separator(b),
    ensures
        from_host(Some(text), a) == from_host(Some(text), b),
        from_host(Some(text), a) == match normalise(text) {
            Ok(path) => Some(path),
            Err(_) => None,
        },
{
    assert(with_slashes(text, a) =~= text);
    assert(with_slashes(text, b) =~= text);
}

/// Translating host text cannot leave the sandbox: what comes out is a
/// normalised path.
pub proof fn law_host_paths_are_normal(text: Option<Seq<char>>, separator: char)
    ensures
        from_host(text, separator) matches Some(path) ==> super::path::is_normal(path),
{
    match text {
        Some(t) => super::path::lemma_normalise_idempotent(with_slashes(t, separator)),
        None => {},
    }
}

/// Where `text` has the separator, its virtual path has a slash; every other
/// character counts as it stands.
pub proof fn law_separators_become_slashes(text: Seq<char>, slashed: Seq<char>, separator: char)
    requires
        text.len() == slashed.len(),
        forall|i: int|
            #![trigger text[i]]
            0 <= i < text.len() ==> slashed[i] == (if text[i] == separator {
                '/'
            } else {
                text[i]
            }),
    ensures
        match normalise(slashed) {
            Ok(path) => from_host(Some(text), separator) == Some(path),
            Err(_) => from_host(Some(text), separator) is None,
        },
{
    assert(with_slashes(text, separator) =~= slashed) by {
        assert forall|i: int| 0 <= i < text.len() implies with_slashes(text, separator)[i]
            == slashed[i] by {
            let c = text[i];
        }
    }
}

/// What is left of texts are those that are there, each in its turn: `places`
/// tells where they stood.
pub proof fn law_present_texts_keep_their_order(texts: Seq<Option<Seq<char>>>) -> (places: Seq<int>)
    ensures
        places.len() == present(texts).len(),
        forall|p: int, q: int|
            0 <= p < q < places.len() ==> #[trigger] places[p] < #[trigger] places[q],
        forall|p: int|
            0 <= p < places.len() ==> 0 <= #[trigger] places[p] < texts.len() && texts[places[p]]
                == Some(present(texts)[p]),
        forall|at: int|
            0 <= at < texts.len() && #[trigger] texts[at] is Some ==> places.contains(at),
    decreases texts.len(),
{
    if texts.len() == 0 {
        Seq::empty()
    } else {
        let front = texts.drop_last();
        let last = texts.len() - 1;
        let before = law_present_texts_keep_their_order(front);
        let places = if texts.last() is Some {
            before.push(last)
        } else {
            before
        };
        assert forall|p: int| 0 <= p < places.len() implies 0 <= #[trigger] places[p]
            < texts.len() && texts[places[p]] == Some(present(texts)[p]) by {
            if p < before.len() {
                assert(before[p] == places[p]);
                assert(front[before[p]] == texts[before[p]]);
            }
        }
        assert forall|p: int, q: int| 0 <= p < q < places.len() implies #[trigger] places[p]
            < #[trigger] places[q] by {
            assert(before[p] == places[p]);
            if q < before.len() {
                assert(before[q] == places[q]);
            }
        }
        assert forall|at: int|
            0 <= at < texts.len() && #[trigger] texts[at] is Some implies places.contains(at) by {
            if at < last {
                assert(front[at] == texts[at]);
                let p = choose|p: int| 0 <= p < before.len() && before[p] == at;
                assert(places[p] == at);
            } else {
                assert(places[places.len() - 1] == last);
            }
        }
        places
    }
}

} // verus!
