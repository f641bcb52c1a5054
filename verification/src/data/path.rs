//! `VfsPath`: the grammar of paths inside the virtual filesystem.
//!
//! The constructor is the only way to build a path. It rejects every form
//! that could let an asset reference escape the sandbox: parent traversal,
//! absolute paths, drive letters, backslashes, embedded NULs and `.` segments.
//! What it accepts is normalised (repeated slashes collapsed, trailing slashes
//! stripped), so that equal paths are equal strings.

use crate::text::chars_of;
use vstd::prelude::*;

verus! {

/// Reasons for which `VfsPath::new` rejects an input.
#[derive(Debug, Clone, Copy, PartialEq, Eq, Structural)]
pub enum VfsPathError {
    /// The input was empty.
    Empty,
    /// The input started with `/`.
    Absolute,
    /// The input contained a backslash.
    Backslash,
    /// The input contained a colon.
    Colon,
    /// The input contained a NUL.
    NulByte,
    /// The input contained a `..` segment.
    ParentTraversal,
    /// The input contained a `.` segment.
    CurrentDir,
}

impl VfsPathError {
    /// What `message` says of each error.
    pub open spec fn spec_message(self) -> Seq<char> {
        match self {
            VfsPathError::Empty => "path is empty"@,
            VfsPathError::Absolute => "path is absolute (starts with `/`)"@,
            VfsPathError::Backslash => "path contains a backslash"@,
            VfsPathError::Colon => "path contains a colon"@,
            VfsPathError::NulByte => "path contains a NUL byte"@,
            VfsPathError::ParentTraversal => "path contains a `..` segment"@,
            VfsPathError::CurrentDir => "path contains a `.` segment"@,
        }
    }

    /// The error in words.
    pub fn message(&self) -> (r: &'static str)
        ensures
            r@ == self.spec_message(),
    {
        match self {
            VfsPathError::Empty => "path is empty",
            VfsPathError::Absolute => "path is absolute (starts with `/`)",
            VfsPathError::Backslash => "path contains a backslash",
            VfsPathError::Colon => "path contains a colon",
            VfsPathError::NulByte => "path contains a NUL byte",
            VfsPathError::ParentTraversal => "path contains a `..` segment",
            VfsPathError::CurrentDir => "path contains a `.` segment",
        }
    }
}

/// The pieces of `s` between slashes, empty pieces included.
pub open spec fn pieces(s: Seq<char>) -> Seq<Seq<char>>
    decreases s.len(),
{
    if s.len() == 0 {
        seq![Seq::<char>::empty()]
    } else {
        let before = pieces(s.drop_last());
        if s.last() == '/' {
            before.push(Seq::<char>::empty())
        } else {
            before.drop_last().push(before.last().push(s.last()))
        }
    }
}

/// The non-empty ones among `parts`, in order.
pub open spec fn non_empty(parts: Seq<Seq<char>>) -> Seq<Seq<char>>
    decreases parts.len(),
{
    if parts.len() == 0 {
        Seq::empty()
    } else if parts.last().len() == 0 {
        non_empty(parts.drop_last())
    } else {
        non_empty(parts.drop_last()).push(parts.last())
    }
}

/// The segments of a path: its non-empty pieces.
pub open spec fn segments(s: Seq<char>) -> Seq<Seq<char>> {
    non_empty(pieces(s))
}

/// The segments written one after the other with a single `/` between them.
pub open spec fn join(parts: Seq<Seq<char>>) -> Seq<char>
    decreases parts.len(),
{
    if parts.len() == 0 {
        Seq::empty()
    } else if parts.len() == 1 {
        parts[0]
    } else {
        join(parts.drop_last()).push('/') + parts.last()
    }
}

/// What is wrong with one segment, if anything.
pub open spec fn segment_error(part: Seq<char>) -> Option<VfsPathError> {
    if part == seq!['.', '.'] {
        Some(VfsPathError::ParentTraversal)
    } else if part == seq!['.'] {
        Some(VfsPathError::CurrentDir)
    } else {
        None
    }
}

/// What is wrong with the first bad segment, if there is one.
pub open spec fn first_segment_error(parts: Seq<Seq<char>>) -> Option<VfsPathError>
    decreases parts.len(),
{
    if parts.len() == 0 {
        None
    } else {
        match first_segment_error(parts.drop_last()) {
            Some(e) => Some(e),
            None => segment_error(parts.last()),
        }
    }
}

/// The normalised form of `input`, or the reason why it is rejected.
pub open spec fn normalise(input: Seq<char>) -> Result<Seq<char>, VfsPathError> {
    if input.len() == 0 {
        Err(VfsPathError::Empty)
    } else if input[0] == '/' {
        Err(VfsPathError::Absolute)
    } else if input.contains('\\') {
        Err(VfsPathError::Backslash)
    } else if input.contains(':') {
        Err(VfsPathError::Colon)
    } else if input.contains('\0') {
        Err(VfsPathError::NulByte)
    } else {
        match first_segment_error(segments(input)) {
            Some(e) => Err(e),
            None => Ok(join(segments(input))),
        }
    }
}

/// The normalised paths: what `VfsPath::new` can return.
pub open spec fn is_normal(s: Seq<char>) -> bool {
    normalise(s) == Ok::<Seq<char>, VfsPathError>(s)
}

/// What follows the last `c` of `s`, if `s` has one.
pub open spec fn after_last(s: Seq<char>, c: char) -> Option<Seq<char>>
    decreases s.len(),
{
    if s.len() == 0 {
        None
    } else if s.last() == c {
        Some(Seq::empty())
    } else {
        match after_last(s.drop_last(), c) {
            Some(tail) => Some(tail.push(s.last())),
            None => None,
        }
    }
}

/// The last segment of a normalised path.
pub open spec fn file_name(path: Seq<char>) -> Seq<char> {
    match after_last(path, '/') {
        Some(name) => name,
        None => path,
    }
}

/// What follows the last dot of the final segment, unless that is empty.
pub open spec fn path_extension(path: Seq<char>) -> Option<Seq<char>> {
    match after_last(file_name(path), '.') {
        Some(ext) => if ext.len() == 0 {
            None
        } else {
            Some(ext)
        },
        None => None,
    }
}

/// `path` is `prefix` or lies below it.
pub open spec fn within(path: Seq<char>, prefix: Seq<char>) -> bool {
    path == prefix || (path.len() > prefix.len() + 1 && path.take(prefix.len() as int) == prefix
        && path[prefix.len() as int] == '/')
}

proof fn lemma_pieces_non_empty(s: Seq<char>)
    ensures
        pieces(s).len() >= 1,
    decreases s.len(),
{
    if s.len() > 0 {
        lemma_pieces_non_empty(s.drop_last());
    }
}

/// Where `chars[start..i]` is the current piece, a slash at `i` ends it.
proof fn lemma_pieces_step(s: Seq<char>, i: int)
    requires
        0 <= i < s.len(),
    ensures
        pieces(s.take(i)).len() >= 1,
        s[i] == '/' ==> pieces(s.take(i + 1)) == pieces(s.take(i)).push(Seq::<char>::empty()),
        s[i] != '/' ==> pieces(s.take(i + 1)) == pieces(s.take(i)).drop_last().push(
            pieces(s.take(i)).last().push(s[i]),
        ),
{
    assert(s.take(i + 1).drop_last() =~= s.take(i));
    lemma_pieces_non_empty(s.take(i));
}

/// The non-empty pieces of `s` that are complete before position `i`.
spec fn complete_before(s: Seq<char>, i: int) -> Seq<Seq<char>> {
    non_empty(pieces(s.take(i)).drop_last())
}

/// A bad segment that is complete before position `i` stays the first one.
proof fn lemma_error_stays(s: Seq<char>, i: int)
    requires
        0 <= i <= s.len(),
        first_segment_error(complete_before(s, i)) is Some,
    ensures
        first_segment_error(segments(s)) == first_segment_error(complete_before(s, i)),
    decreases s.len() - i,
{
    if i == s.len() {
        assert(s.take(i) =~= s);
        lemma_pieces_non_empty(s);
        lemma_non_empty_push(pieces(s));
    } else {
        lemma_pieces_step(s, i);
        let now = pieces(s.take(i));
        if s[i] == '/' {
            assert(pieces(s.take(i + 1)).drop_last() =~= now);
            lemma_non_empty_push(now);
        } else {
            assert(pieces(s.take(i + 1)).drop_last() =~= now.drop_last());
        }
        lemma_error_stays(s, i + 1);
    }
}

/// One more piece keeps the error of the pieces before it.
proof fn lemma_non_empty_push(parts: Seq<Seq<char>>)
    requires
        parts.len() >= 1,
        first_segment_error(non_empty(parts.drop_last())) is Some,
    ensures
        first_segment_error(non_empty(parts)) == first_segment_error(non_empty(parts.drop_last())),
{
    if parts.last().len() > 0 {
        assert(non_empty(parts).drop_last() =~= non_empty(parts.drop_last()));
    }
}

/// Pieces hold no slash, and no character that the string does not hold.
proof fn lemma_pieces_chars(s: Seq<char>, k: int, j: int)
    requires
        0 <= k < pieces(s).len(),
        0 <= j < pieces(s)[k].len(),
    ensures
        pieces(s)[k][j] != '/',
        s.contains(pieces(s)[k][j]),
    decreases s.len(),
{
    if s.len() > 0 {
        let shorter = s.drop_last();
        lemma_pieces_non_empty(shorter);
        let before = pieces(shorter);
        if k < before.len() && j < before[k].len() {
            lemma_pieces_chars(shorter, k, j);
            let at = choose|at: int| 0 <= at < shorter.len() && shorter[at] == before[k][j];
            assert(s[at] == shorter[at]);
        } else {
            assert(s[s.len() - 1] == s.last());
        }
    }
}

/// Each non-empty part is one of the parts.
proof fn lemma_non_empty_member(parts: Seq<Seq<char>>, k: int) -> (at: int)
    requires
        0 <= k < non_empty(parts).len(),
    ensures
        0 <= at < parts.len(),
        non_empty(parts)[k] == parts[at],
        parts[at].len() > 0,
    decreases parts.len(),
{
    if parts.last().len() > 0 && k == non_empty(parts).len() - 1 {
        parts.len() - 1
    } else {
        lemma_non_empty_member(parts.drop_last(), k)
    }
}

/// Parts that are all non-empty stay as they are.
proof fn lemma_non_empty_id(parts: Seq<Seq<char>>)
    requires
        forall|k: int| 0 <= k < parts.len() ==> parts[k].len() > 0,
    ensures
        non_empty(parts) == parts,
    decreases parts.len(),
{
    if parts.len() > 0 {
        assert forall|k: int| 0 <= k < parts.drop_last().len() implies parts.drop_last()[k].len()
            > 0 by {
            assert(parts[k].len() > 0);
        }
        lemma_non_empty_id(parts.drop_last());
        assert(parts[parts.len() - 1].len() > 0);
        assert(parts.drop_last().push(parts.last()) =~= parts);
    } else {
        assert(non_empty(parts) =~= parts);
    }
}

/// The first of the parts, where it is not empty, is the first non-empty one.
proof fn lemma_non_empty_first(parts: Seq<Seq<char>>)
    requires
        parts.len() > 0,
        parts[0].len() > 0,
    ensures
        non_empty(parts).len() > 0,
        non_empty(parts)[0] == parts[0],
    decreases parts.len(),
{
    if parts.len() == 1 {
        assert(parts.drop_last() =~= Seq::<Seq<char>>::empty());
    } else {
        assert(parts.drop_last()[0] == parts[0]);
        lemma_non_empty_first(parts.drop_last());
    }
}

/// A string that does not start with a slash has its first character in its
/// first piece.
proof fn lemma_pieces_first(s: Seq<char>)
    requires
        s.len() > 0,
        s[0] != '/',
    ensures
        pieces(s)[0].len() > 0,
        pieces(s)[0][0] == s[0],
    decreases s.len(),
{
    let shorter = s.drop_last();
    lemma_pieces_non_empty(shorter);
    if s.len() == 1 {
        assert(shorter =~= Seq::<char>::empty());
    } else {
        assert(shorter[0] == s[0]);
        lemma_pieces_first(shorter);
    }
}

/// Text without a slash lengthens the last piece.
proof fn lemma_pieces_append(head: Seq<char>, tail: Seq<char>)
    requires
        !tail.contains('/'),
    ensures
        pieces(head + tail) == pieces(head).drop_last().push(pieces(head).last() + tail),
    decreases tail.len(),
{
    lemma_pieces_non_empty(head);
    if tail.len() == 0 {
        assert(head + tail =~= head);
        assert(pieces(head).last() + tail =~= pieces(head).last());
        assert(pieces(head).drop_last().push(pieces(head).last()) =~= pieces(head));
    } else {
        let rest = tail.drop_last();
        assert((head + tail).drop_last() =~= head + rest);
        assert(!rest.contains('/')) by {
            if rest.contains('/') {
                let at = choose|at: int| 0 <= at < rest.len() && rest[at] == '/';
                assert(tail[at] == '/');
            }
        }
        assert(tail[tail.len() - 1] != '/');
        lemma_pieces_append(head, rest);
        let last = pieces(head).last();
        assert((last + rest).push(tail.last()) =~= last + tail);
        assert(pieces(head).drop_last().push(last + rest).drop_last() =~= pieces(
            head,
        ).drop_last());
    }
}

/// Taking a joined path apart gives back its segments.
proof fn lemma_pieces_of_join(parts: Seq<Seq<char>>)
    requires
        parts.len() >= 1,
        forall|k: int| 0 <= k < parts.len() ==> !(#[trigger] parts[k]).contains('/'),
    ensures
        pieces(join(parts)) == parts,
    decreases parts.len(),
{
    if parts.len() == 1 {
        assert(Seq::<char>::empty() + parts[0] =~= parts[0]);
        lemma_pieces_append(Seq::empty(), parts[0]);
        assert(pieces(Seq::<char>::empty()).drop_last() =~= Seq::<Seq<char>>::empty());
        assert(pieces(join(parts)) =~= parts);
    } else {
        let front = parts.drop_last();
        assert forall|k: int| 0 <= k < front.len() implies !(#[trigger] front[k]).contains('/') by {
            assert(front[k] == parts[k]);
        }
        lemma_pieces_of_join(front);
        let head = join(front).push('/');
        assert(head.drop_last() =~= join(front));
        assert(!parts[parts.len() - 1].contains('/'));
        lemma_pieces_append(head, parts.last());
        assert(pieces(head) == front.push(Seq::<char>::empty()));
        assert(front.push(Seq::<char>::empty()).drop_last() =~= front);
        assert(Seq::<char>::empty() + parts.last() =~= parts.last());
        assert(front.push(parts.last()) =~= parts);
    }
}

/// A joined path holds slashes and the characters of its parts.
proof fn lemma_join_chars(parts: Seq<Seq<char>>, c: char)
    requires
        c != '/',
        forall|k: int| 0 <= k < parts.len() ==> !(#[trigger] parts[k]).contains(c),
    ensures
        !join(parts).contains(c),
    decreases parts.len(),
{
    if parts.len() == 1 {
        assert(!parts[0].contains(c));
    } else if parts.len() > 1 {
        let front = parts.drop_last();
        assert forall|k: int| 0 <= k < front.len() implies !(#[trigger] front[k]).contains(c) by {
            assert(front[k] == parts[k]);
        }
        lemma_join_chars(front, c);
        assert(!parts[parts.len() - 1].contains(c));
        if join(parts).contains(c) {
            let at = choose|at: int| 0 <= at < join(parts).len() && join(parts)[at] == c;
            if at < join(front).len() {
                assert(join(front)[at] == c);
            } else if at > join(front).len() {
                assert(parts.last()[at - join(front).len() - 1] == c);
            }
        }
    }
}

/// A joined path starts with its first part.
proof fn lemma_join_first(parts: Seq<Seq<char>>)
    requires
        parts.len() >= 1,
        parts[0].len() > 0,
    ensures
        join(parts).len() > 0,
        join(parts)[0] == parts[0][0],
    decreases parts.len(),
{
    if parts.len() > 1 {
        assert(parts.drop_last()[0] == parts[0]);
        lemma_join_first(parts.drop_last());
    }
}

/// The segments of an input that does not start with a slash: there is at
/// least one, none is empty, none holds a slash, and joining them and taking
/// the result apart changes nothing.
pub proof fn lemma_segments(s: Seq<char>)
    requires
        s.len() > 0,
        s[0] != '/',
    ensures
        segments(s).len() >= 1,
        forall|k: int|
            0 <= k < segments(s).len() ==> (#[trigger] segments(s)[k]).len() > 0 && !segments(
                s,
            )[k].contains('/'),
        segments(join(segments(s))) == segments(s),
{
    let parts = segments(s);
    lemma_pieces_non_empty(s);
    lemma_pieces_first(s);
    lemma_non_empty_first(pieces(s));
    assert forall|k: int| 0 <= k < parts.len() implies (#[trigger] parts[k]).len() > 0
        && !parts[k].contains('/') by {
        let at = lemma_non_empty_member(pieces(s), k);
        if parts[k].contains('/') {
            let j = choose|j: int| 0 <= j < parts[k].len() && parts[k][j] == '/';
            lemma_pieces_chars(s, at, j);
        }
    }
    lemma_pieces_of_join(parts);
    lemma_non_empty_id(parts);
}

/// Normalising twice is normalising once.
pub proof fn lemma_normalise_idempotent(input: Seq<char>)
    ensures
        normalise(input) matches Ok(path) ==> normalise(path) == Ok::<Seq<char>, VfsPathError>(
            path,
        ),
{
    if normalise(input) is Ok {
        let parts = segments(input);
        let path = join(parts);
        lemma_segments(input);
        lemma_pieces_first(input);
        lemma_non_empty_first(pieces(input));
        lemma_join_first(parts);
        assert forall|c: char| c != '/' && !input.contains(c) implies !path.contains(c) by {
            assert forall|k: int| 0 <= k < parts.len() implies !(#[trigger] parts[k]).contains(
                c,
            ) by {
                let at = lemma_non_empty_member(pieces(input), k);
                if parts[k].contains(c) {
                    let j = choose|j: int| 0 <= j < parts[k].len() && parts[k][j] == c;
                    lemma_pieces_chars(input, at, j);
                }
            }
            lemma_join_chars(parts, c);
        }
    }
}

/// A character that does not occur has nothing after it; one at `i - 1` with
/// none behind it has `s[i..]` after it.
proof fn lemma_after_last(s: Seq<char>, c: char, i: int)
    requires
        0 <= i <= s.len(),
        forall|k: int| i <= k < s.len() ==> s[k] != c,
        i == 0 || s[i - 1] == c,
    ensures
        after_last(s, c) == (if i == 0 {
            None::<Seq<char>>
        } else {
            Some(s.skip(i))
        }),
    decreases s.len(),
{
    if s.len() > 0 {
        if i == s.len() {
            assert(s.skip(i) =~= Seq::<char>::empty());
        } else {
            lemma_after_last(s.drop_last(), c, i);
            if i > 0 {
                assert(s.drop_last().skip(i).push(s.last()) =~= s.skip(i));
            }
        }
    }
}

/// What follows the last `c` of `head + tail`, where `tail` has no `c`.
proof fn lemma_after_last_append(head: Seq<char>, tail: Seq<char>, c: char)
    requires
        !tail.contains(c),
    ensures
        after_last(head + tail, c) == match after_last(head, c) {
            Some(t) => Some(t + tail),
            None => None,
        },
    decreases tail.len(),
{
    if tail.len() == 0 {
        assert(head + tail =~= head);
        match after_last(head, c) {
            Some(t) => {
                assert(t + tail =~= t);
            },
            None => {},
        }
    } else {
        let rest = tail.drop_last();
        assert((head + tail).drop_last() =~= head + rest);
        assert(tail[tail.len() - 1] != c);
        assert(!rest.contains(c)) by {
            if rest.contains(c) {
                let at = choose|at: int| 0 <= at < rest.len() && rest[at] == c;
                assert(tail[at] == c);
            }
        }
        lemma_after_last_append(head, rest, c);
        match after_last(head, c) {
            Some(t) => {
                assert((t + rest).push(tail.last()) =~= t + tail);
            },
            None => {},
        }
    }
}

/// The extension read off at position `i`, where `s[i..]` holds neither a
/// slash nor a dot and a slash or a dot (or nothing) stands before it.
proof fn lemma_extension(s: Seq<char>, i: int)
    requires
        0 <= i <= s.len(),
        forall|k: int| i <= k < s.len() ==> s[k] != '/' && s[k] != '.',
        i == 0 || s[i - 1] == '/' || s[i - 1] == '.',
    ensures
        path_extension(s) == (if i == 0 || i == s.len() || s[i - 1] == '/' {
            None::<Seq<char>>
        } else {
            Some(s.skip(i))
        }),
{
    let head = s.take(i);
    let tail = s.skip(i);
    assert(s =~= head + tail);
    assert(!tail.contains('/') && !tail.contains('.')) by {
        assert forall|k: int| 0 <= k < tail.len() implies tail[k] != '/' && tail[k] != '.' by {
            assert(tail[k] == s[i + k]);
        }
    }
    lemma_after_last_append(head, tail, '/');
    if i == 0 {
        assert(head =~= Seq::<char>::empty());
        lemma_after_last(s, '.', 0);
    } else if s[i - 1] == '/' {
        assert(head.last() == '/');
        assert(Seq::<char>::empty() + tail =~= tail);
        lemma_after_last(tail, '.', 0);
    } else {
        assert(head.last() == '.');
        match after_last(head, '/') {
            Some(t) => {
                lemma_after_last_tail(head, '/');
                lemma_after_last_append(t, tail, '.');
                assert(t.last() == '.');
                assert(Seq::<char>::empty() + tail =~= tail);
            },
            None => {
                lemma_after_last(s, '.', i);
            },
        }
    }
}

/// Where something follows the last `c`, it ends as the whole does.
proof fn lemma_after_last_tail(s: Seq<char>, c: char)
    requires
        s.len() > 0,
        s.last() != c,
        after_last(s, c) is Some,
    ensures
        after_last(s, c)->0.len() > 0,
        after_last(s, c)->0.last() == s.last(),
{
}

/// A normalised path cannot leave the sandbox: it is not empty, not absolute,
/// does not end in a slash, holds no backslash, colon or NUL, and its segments
/// are the pieces between its slashes, none of which is empty, `.` or `..`.
pub proof fn law_normal_path_is_safe(path: Seq<char>)
    requires
        is_normal(path),
    ensures
        path.len() > 0,
        path[0] != '/',
        path.last() != '/',
        !path.contains('\\'),
        !path.contains(':'),
        !path.contains('\0'),
        pieces(path) == segments(path),
        path == join(segments(path)),
        forall|k: int|
            0 <= k < pieces(path).len() ==> {
                &&& (#[trigger] pieces(path)[k]).len() > 0
                &&& pieces(path)[k] != seq!['.']
                &&& pieces(path)[k] != seq!['.', '.']
            },
{
    let parts = segments(path);
    lemma_segments(path);
    assert forall|k: int| 0 <= k < parts.len() implies !(#[trigger] parts[k]).contains('/') by {}
    lemma_pieces_of_join(parts);
    assert forall|k: int| 0 <= k < parts.len() implies segment_error(#[trigger] parts[k]) is None by {
        lemma_no_segment_error(parts, k);
    }
    lemma_pieces_non_empty(path.drop_last());
    if path.last() == '/' {
        assert(pieces(path)[pieces(path).len() - 1].len() == 0);
    }
}

proof fn lemma_no_segment_error(parts: Seq<Seq<char>>, k: int)
    requires
        first_segment_error(parts) is None,
        0 <= k < parts.len(),
    ensures
        segment_error(parts[k]) is None,
    decreases parts.len(),
{
    if k < parts.len() - 1 {
        lemma_no_segment_error(parts.drop_last(), k);
    }
}

proof fn lemma_pieces_concat(a: Seq<char>, b: Seq<char>)
    ensures
        pieces(a.push('/') + b) == pieces(a) + pieces(b),
    decreases b.len(),
{
    lemma_pieces_non_empty(a);
    if b.len() == 0 {
        assert(a.push('/') + b =~= a.push('/'));
        assert(a.push('/').drop_last() =~= a);
        assert(pieces(a) + pieces(b) =~= pieces(a).push(Seq::<char>::empty()));
    } else {
        let rest = b.drop_last();
        lemma_pieces_concat(a, rest);
        lemma_pieces_non_empty(rest);
        assert((a.push('/') + b).drop_last() =~= a.push('/') + rest);
        let before = pieces(a) + pieces(rest);
        assert(before.last() == pieces(rest).last());
        assert(before.push(Seq::<char>::empty()) =~= pieces(a) + pieces(rest).push(
            Seq::<char>::empty(),
        ));
        let longer = pieces(rest).last().push(b.last());
        assert(before.drop_last().push(longer) =~= pieces(a) + pieces(rest).drop_last().push(
            longer,
        ));
    }
}

proof fn lemma_non_empty_concat(a: Seq<Seq<char>>, b: Seq<Seq<char>>)
    ensures
        non_empty(a + b) == non_empty(a) + non_empty(b),
    decreases b.len(),
{
    if b.len() == 0 {
        assert(a + b =~= a);
        assert(non_empty(a) + non_empty(b) =~= non_empty(a));
    } else {
        assert((a + b).drop_last() =~= a + b.drop_last());
        lemma_non_empty_concat(a, b.drop_last());
        assert(non_empty(a + b) =~= non_empty(a) + non_empty(b));
    }
}

proof fn lemma_join_concat(a: Seq<Seq<char>>, b: Seq<Seq<char>>)
    requires
        a.len() >= 1,
        b.len() >= 1,
    ensures
        join(a + b) == join(a).push('/') + join(b),
    decreases b.len(),
{
    assert((a + b).drop_last() =~= a + b.drop_last());
    assert((a + b).last() == b.last());
    if b.len() == 1 {
        assert(a + b.drop_last() =~= a);
    } else {
        lemma_join_concat(a, b.drop_last());
        assert(join(a + b) =~= join(a).push('/') + join(b));
    }
}

/// A path lies within a prefix exactly when the prefix's segments are the
/// first segments of the path: sharing characters is not enough.
pub proof fn law_within_is_segment_prefix(path: Seq<char>, prefix: Seq<char>)
    requires
        is_normal(path),
        is_normal(prefix),
    ensures
        within(path, prefix) <==> segments(prefix).is_prefix_of(segments(path)),
{
    law_normal_path_is_safe(path);
    law_normal_path_is_safe(prefix);
    let whole = segments(path);
    let start = segments(prefix);
    if within(path, prefix) && path != prefix {
        let rest = path.skip(prefix.len() as int + 1);
        assert(path =~= prefix.push('/') + rest);
        lemma_pieces_concat(prefix, rest);
        lemma_non_empty_concat(pieces(prefix), pieces(rest));
        assert(start.is_prefix_of(whole));
    }
    if start.is_prefix_of(whole) {
        let rest = whole.skip(start.len() as int);
        assert(whole =~= start + rest);
        if rest.len() == 0 {
            assert(whole =~= start);
        } else {
            lemma_segments(prefix);
            lemma_join_concat(start, rest);
            assert(rest[0] == whole[start.len() as int]);
            lemma_join_first(rest);
            assert(path == prefix.push('/') + join(rest));
            assert(path.take(prefix.len() as int) =~= prefix);
        }
    }
}

/// Being within is a partial order on paths.
pub proof fn law_within_is_an_order(a: Seq<char>, b: Seq<char>, c: Seq<char>)
    ensures
        within(a, a),
        within(a, b) && within(b, c) ==> within(a, c),
        within(a, b) && within(b, a) ==> a == b,
{
    if within(a, b) && within(b, c) && a != b && b != c {
        assert(a.take(c.len() as int) =~= b.take(c.len() as int)) by {
            assert forall|k: int| 0 <= k < c.len() implies a[k] == b[k] by {
                assert(a.take(b.len() as int)[k] == b[k]);
            }
        }
        assert(a[c.len() as int] == a.take(b.len() as int)[c.len() as int]);
    }
}

/// The text that the extension is taken from is the last segment.
pub proof fn law_file_name_is_last_segment(path: Seq<char>)
    requires
        is_normal(path),
    ensures
        segments(path).len() >= 1,
        file_name(path) == segments(path).last(),
{
    law_normal_path_is_safe(path);
    lemma_segments(path);
    lemma_file_name(path);
}

proof fn lemma_file_name(path: Seq<char>)
    ensures
        pieces(path).len() >= 1,
        file_name(path) == pieces(path).last(),
        after_last(path, '/') is None ==> pieces(path).len() == 1,
    decreases path.len(),
{
    if path.len() > 0 {
        lemma_file_name(path.drop_last());
        if path.last() != '/' && after_last(path, '/') is None {
            assert(path.drop_last().push(path.last()) =~= path);
        }
    }
}

/// The characters `s[i..j]` are what stands between two slashes, or between a
/// slash and an end.
pub open spec fn is_piece(s: Seq<char>, i: int, j: int) -> bool {
    &&& 0 <= i <= j <= s.len()
    &&& i == 0 || s[i - 1] == '/'
    &&& j == s.len() || s[j] == '/'
    &&& forall|k: int| i <= k < j ==> s[k] != '/'
}

proof fn lemma_piece_place(s: Seq<char>, k: int) -> (at: (int, int))
    requires
        0 <= k < pieces(s).len(),
    ensures
        is_piece(s, at.0, at.1),
        pieces(s)[k] == s.subrange(at.0, at.1),
        k == pieces(s).len() - 1 <==> at.1 == s.len(),
    decreases s.len(),
{
    if s.len() == 0 {
        assert(s.subrange(0, 0) =~= Seq::<char>::empty());
        (0, 0)
    } else {
        let shorter = s.drop_last();
        lemma_pieces_non_empty(shorter);
        let n = pieces(shorter).len();
        if k < n {
            let at = lemma_piece_place(shorter, k);
            assert forall|m: int| at.0 <= m < at.1 implies s[m] != '/' by {
                assert(shorter[m] == s[m]);
            }
            assert(at.0 > 0 ==> shorter[at.0 - 1] == s[at.0 - 1]);
            assert(at.1 < shorter.len() ==> shorter[at.1] == s[at.1]);
            if k == n - 1 && s.last() != '/' {
                assert(s.subrange(at.0, at.1 + 1) =~= shorter.subrange(at.0, at.1).push(s.last()));
                (at.0, at.1 + 1)
            } else {
                assert(s.subrange(at.0, at.1) =~= shorter.subrange(at.0, at.1));
                at
            }
        } else {
            assert(s.subrange(s.len() as int, s.len() as int) =~= Seq::<char>::empty());
            (s.len() as int, s.len() as int)
        }
    }
}

/// The pieces before, at and behind a place.
proof fn lemma_piece_splits(s: Seq<char>, i: int, j: int) -> (around: (
    Seq<Seq<char>>,
    Seq<Seq<char>>,
))
    requires
        is_piece(s, i, j),
    ensures
        pieces(s) == around.0 + seq![s.subrange(i, j)] + around.1,
        i > 0 ==> around.0 == pieces(s.take(i - 1)),
        i == 0 ==> around.0.len() == 0,
{
    let mid = s.subrange(i, j);
    let end = s.skip(i);
    let none = Seq::<Seq<char>>::empty();
    let behind = if j == s.len() {
        none
    } else {
        pieces(s.skip(j + 1))
    };
    assert(!mid.contains('/'));
    assert(Seq::<char>::empty() + mid =~= mid);
    lemma_pieces_append(Seq::empty(), mid);
    assert(pieces(mid) =~= seq![mid]);
    assert(pieces(end) =~= seq![mid] + behind) by {
        if j == s.len() {
            assert(end =~= mid);
        } else {
            assert(end =~= mid.push('/') + s.skip(j + 1));
            lemma_pieces_concat(mid, s.skip(j + 1));
        }
    }
    if i == 0 {
        assert(s =~= end);
        assert(none + seq![mid] + behind =~= pieces(s));
        (none, behind)
    } else {
        let head = s.take(i - 1);
        assert(s =~= head.push('/') + end);
        lemma_pieces_concat(head, end);
        assert(pieces(head) + seq![mid] + behind =~= pieces(s));
        (pieces(head), behind)
    }
}

proof fn lemma_join_of_pieces(s: Seq<char>)
    ensures
        join(pieces(s)) == s,
    decreases s.len(),
{
    if s.len() > 0 {
        let shorter = s.drop_last();
        lemma_pieces_non_empty(shorter);
        lemma_join_of_pieces(shorter);
        let before = pieces(shorter);
        assert(s =~= shorter.push(s.last()));
        if s.last() == '/' {
            assert(before.push(Seq::<char>::empty()).drop_last() =~= before);
            assert(join(pieces(s)) =~= s);
        } else {
            let longer = before.last().push(s.last());
            assert(pieces(s).drop_last() =~= before.drop_last());
            assert(pieces(s).last() == longer);
            assert(join(pieces(s)) =~= s);
        }
    } else {
        assert(join(pieces(s)) =~= s);
    }
}

/// The paths that are kept as they are: those that are not empty, hold no
/// backslash, colon or NUL, and have between their slashes nothing that is
/// empty, `.` or `..`.
pub proof fn law_clean_paths_are_kept(s: Seq<char>)
    ensures
        normalise(s) == Ok::<Seq<char>, VfsPathError>(s) <==> {
            &&& s.len() > 0
            &&& !s.contains('\\') && !s.contains(':') && !s.contains('\0')
            &&& forall|i: int, j: int| #[trigger]
                is_piece(s, i, j) ==> {
                    &&& i < j
                    &&& s.subrange(i, j) != seq!['.']
                    &&& s.subrange(i, j) != seq!['.', '.']
                }
        },
{
    let clean = {
        &&& s.len() > 0
        &&& !s.contains('\\') && !s.contains(':') && !s.contains('\0')
        &&& forall|i: int, j: int| #[trigger]
            is_piece(s, i, j) ==> {
                &&& i < j
                &&& s.subrange(i, j) != seq!['.']
                &&& s.subrange(i, j) != seq!['.', '.']
            }
    };
    if is_normal(s) {
        law_normal_path_is_safe(s);
        assert forall|i: int, j: int| #[trigger] is_piece(s, i, j) implies {
            &&& i < j
            &&& s.subrange(i, j) != seq!['.']
            &&& s.subrange(i, j) != seq!['.', '.']
        } by {
            let around = lemma_piece_splits(s, i, j);
            assert(pieces(s)[around.0.len() as int] == s.subrange(i, j));
        }
        assert(clean);
    }
    if clean {
        if s[0] == '/' {
            assert(is_piece(s, 0, 0));
        }
        let parts = pieces(s);
        assert forall|k: int| 0 <= k < parts.len() implies parts[k].len() > 0 && segment_error(
            #[trigger] parts[k],
        ) is None by {
            let at = lemma_piece_place(s, k);
            assert(is_piece(s, at.0, at.1));
        }
        lemma_non_empty_id(parts);
        lemma_sound_segments(parts);
        lemma_join_of_pieces(s);
    }
}

proof fn lemma_sound_segments(parts: Seq<Seq<char>>)
    requires
        forall|k: int| 0 <= k < parts.len() ==> segment_error(#[trigger] parts[k]) is None,
    ensures
        first_segment_error(parts) is None,
    decreases parts.len(),
{
    if parts.len() > 0 {
        assert forall|k: int| 0 <= k < parts.drop_last().len() implies segment_error(
            #[trigger] parts.drop_last()[k],
        ) is None by {
            assert(parts.drop_last()[k] == parts[k]);
        }
        lemma_sound_segments(parts.drop_last());
        assert(segment_error(parts[parts.len() - 1]) is None);
    }
}

/// Repeated slashes count as one, and those at the end count for nothing: what
/// is made of a path, or why it is refused, stays the same.
pub proof fn law_slashes_collapse(a: Seq<char>, b: Seq<char>)
    ensures
        normalise(a.push('/').push('/') + b) == normalise(a.push('/') + b),
        a.len() > 0 ==> normalise(a.push('/')) == normalise(a),
{
    let none = Seq::<char>::empty();
    let twice = a.push('/').push('/') + b;
    let once = a.push('/') + b;
    assert forall|c: char| c != '/' implies #[trigger] twice.contains(c) == once.contains(c) by {
        if twice.contains(c) {
            let at = choose|at: int| 0 <= at < twice.len() && twice[at] == c;
            assert(once[if at < a.len() {
                at
            } else {
                at - 1
            }] == c);
        }
        if once.contains(c) {
            let at = choose|at: int| 0 <= at < once.len() && once[at] == c;
            assert(twice[if at < a.len() {
                at
            } else {
                at + 1
            }] == c);
        }
    }
    assert(a.push('/') =~= a.push('/') + none);
    lemma_pieces_concat(a, none);
    lemma_pieces_concat(a.push('/'), b);
    lemma_pieces_concat(a, b);
    let blank = seq![none];
    assert(pieces(none) =~= blank);
    assert(blank.drop_last() =~= Seq::<Seq<char>>::empty());
    assert(blank.last().len() == 0);
    assert(non_empty(blank) == non_empty(blank.drop_last()));
    assert(non_empty(blank) =~= Seq::<Seq<char>>::empty());
    lemma_non_empty_concat(pieces(a), blank);
    lemma_non_empty_concat(pieces(a) + blank, pieces(b));
    lemma_non_empty_concat(pieces(a), pieces(b));
    assert(segments(a.push('/')) =~= segments(a));
    assert(segments(twice) =~= segments(once));
    assert(a.len() > 0 ==> twice[0] == a[0] && once[0] == a[0]);
    assert(a.len() == 0 ==> twice[0] == '/' && once[0] == '/');
    let ended = a.push('/');
    assert forall|c: char| c != '/' implies #[trigger] ended.contains(c) == a.contains(c) by {
        if a.contains(c) {
            let at = choose|at: int| 0 <= at < a.len() && a[at] == c;
            assert(ended[at] == c);
        }
        if ended.contains(c) {
            let at = choose|at: int| 0 <= at < ended.len() && ended[at] == c;
            assert(a[at] == c);
        }
    }
}

proof fn lemma_first_error_concat(a: Seq<Seq<char>>, b: Seq<Seq<char>>)
    requires
        first_segment_error(a) is None,
    ensures
        first_segment_error(a + b) == first_segment_error(b),
    decreases b.len(),
{
    if b.len() == 0 {
        assert(a + b =~= a);
    } else {
        assert((a + b).drop_last() =~= a + b.drop_last());
        lemma_first_error_concat(a, b.drop_last());
    }
}

proof fn lemma_error_of_first(a: Seq<Seq<char>>, b: Seq<Seq<char>>)
    requires
        first_segment_error(a) is Some,
    ensures
        first_segment_error(a + b) == first_segment_error(a),
    decreases b.len(),
{
    if b.len() == 0 {
        assert(a + b =~= a);
    } else {
        assert((a + b).drop_last() =~= a + b.drop_last());
        lemma_error_of_first(a, b.drop_last());
    }
}

/// A path that is sound but for its segments is refused for the first of them
/// that is `.` or `..`: the latter leads to the parent, the former nowhere.
pub proof fn law_dots_are_refused(s: Seq<char>, i: int, j: int)
    requires
        s.len() > 0,
        s[0] != '/',
        !s.contains('\\') && !s.contains(':') && !s.contains('\0'),
        is_piece(s, i, j),
        s.subrange(i, j) == seq!['.'] || s.subrange(i, j) == seq!['.', '.'],
        forall|p: int, q: int| #[trigger]
            is_piece(s, p, q) && q < i ==> s.subrange(p, q) != seq!['.'] && s.subrange(p, q)
                != seq!['.', '.'],
    ensures
        j == i + 1 ==> normalise(s) == Err::<Seq<char>, VfsPathError>(VfsPathError::CurrentDir),
        j == i + 2 ==> normalise(s) == Err::<Seq<char>, VfsPathError>(
            VfsPathError::ParentTraversal,
        ),
        j == i + 1 || j == i + 2,
{
    let mid = s.subrange(i, j);
    assert(mid.len() == j - i);
    let around = lemma_piece_splits(s, i, j);
    let before = around.0;
    assert forall|k: int| 0 <= k < before.len() implies segment_error(#[trigger] before[k]) is None by {
        let head = s.take(i - 1);
        let at = lemma_piece_place(head, k);
        assert(head.subrange(at.0, at.1) =~= s.subrange(at.0, at.1));
        assert forall|m: int| at.0 <= m < at.1 implies s[m] != '/' by {
            assert(head[m] == s[m]);
        }
        assert(at.0 > 0 ==> head[at.0 - 1] == s[at.0 - 1]);
        assert(at.1 < head.len() ==> head[at.1] == s[at.1]);
        assert(is_piece(s, at.0, at.1));
    }
    assert forall|k: int| 0 <= k < non_empty(before).len() implies segment_error(
        #[trigger] non_empty(before)[k],
    ) is None by {
        let at = lemma_non_empty_member(before, k);
        assert(segment_error(before[at]) is None);
    }
    lemma_sound_segments(non_empty(before));
    let one = seq![mid];
    let none = Seq::<Seq<char>>::empty();
    lemma_non_empty_concat(before, one);
    lemma_non_empty_concat(before + one, around.1);
    assert(one.drop_last() =~= none);
    assert(non_empty(none) =~= none);
    assert(non_empty(one) =~= one);
    assert(first_segment_error(one) == segment_error(mid)) by {
        assert(first_segment_error(one.drop_last()) is None);
    }
    lemma_first_error_concat(non_empty(before), one);
    lemma_error_of_first(non_empty(before) + one, non_empty(around.1));
    assert(seq!['.'].len() == 1);
    assert(seq!['.', '.'].len() == 2);
}

proof fn lemma_last_mark(s: Seq<char>) -> (i: int)
    ensures
        0 <= i <= s.len(),
        forall|k: int| i <= k < s.len() ==> s[k] != '/' && s[k] != '.',
        i == 0 || s[i - 1] == '/' || s[i - 1] == '.',
    decreases s.len(),
{
    if s.len() == 0 || s.last() == '/' || s.last() == '.' {
        s.len() as int
    } else {
        let i = lemma_last_mark(s.drop_last());
        assert forall|k: int| i <= k < s.len() implies s[k] != '/' && s[k] != '.' by {
            if k < s.len() - 1 {
                assert(s.drop_last()[k] == s[k]);
            }
        }
        i
    }
}

/// A path has an extension exactly when it ends in a dot and at least one
/// character, none of which is a dot or a slash; these are the extension.
pub proof fn law_extensions_follow_a_dot(s: Seq<char>, ext: Seq<char>)
    ensures
        path_extension(s) == Some(ext) <==> {
            &&& ext.len() > 0
            &&& !ext.contains('.') && !ext.contains('/')
            &&& s.len() > ext.len()
            &&& s[s.len() - ext.len() - 1] == '.'
            &&& s.skip(s.len() - ext.len()) == ext
        },
{
    let i = lemma_last_mark(s);
    lemma_extension(s, i);
    let tail = s.skip(i);
    assert forall|k: int| 0 <= k < tail.len() implies tail[k] != '/' && tail[k] != '.' by {
        assert(tail[k] == s[i + k]);
    }
    assert(!tail.contains('/') && !tail.contains('.'));
    let at = s.len() - ext.len();
    if ext.len() > 0 && !ext.contains('.') && !ext.contains('/') && at > 0 && s[at - 1] == '.'
        && s.skip(at) == ext {
        assert forall|k: int| at <= k < s.len() implies s[k] != '/' && s[k] != '.' by {
            assert(s.skip(at)[k - at] == s[k]);
            assert(ext.contains(ext[k - at]));
        }
        lemma_extension(s, at);
    }
}

/// A sandbox-safe, normalised path inside the virtual filesystem.
#[derive(Debug, PartialEq, Eq, Hash, PartialOrd, Ord)]
pub struct VfsPath(String);

impl View for VfsPath {
    type V = Seq<char>;

    closed spec fn view(&self) -> Seq<char> {
        self.0@
    }
}

impl Clone for VfsPath {
    fn clone(&self) -> (r: Self)
        ensures
            r == *self,
    {
        proof {
            use_type_invariant(self);
        }
        VfsPath(self.0.clone())
    }
}

/// Whether `chars` holds `c`.
fn has_char(chars: &Vec<char>, c: char) -> (r: bool)
    ensures
        r == chars@.contains(c),
{
    let mut i: usize = 0;
    while i < chars.len()
        invariant
            i <= chars@.len(),
            forall|k: int| 0 <= k < i ==> chars@[k] != c,
        decreases chars@.len() - i,
    {
        if chars[i] == c {
            assert(chars@[i as int] == c);
            return true;
        }
        i += 1;
    }
    false
}

/// What is wrong with the segment `chars[from..to]`, if anything.
fn check_segment(chars: &Vec<char>, from: usize, to: usize) -> (r: Option<VfsPathError>)
    requires
        from <= to <= chars@.len(),
    ensures
        r == segment_error(chars@.subrange(from as int, to as int)),
{
    let ghost part = chars@.subrange(from as int, to as int);
    if to - from == 2 && chars[from] == '.' && chars[from + 1] == '.' {
        assert(part =~= seq!['.', '.']);
        Some(VfsPathError::ParentTraversal)
    } else if to - from == 1 && chars[from] == '.' {
        assert(part =~= seq!['.']);
        Some(VfsPathError::CurrentDir)
    } else {
        proof {
            assert(part.len() == to - from);
            if part == seq!['.', '.'] {
                assert(part[0] == chars@[from as int] && part[1] == chars@[from + 1]);
            }
            if part == seq!['.'] {
                assert(part[0] == chars@[from as int]);
            }
        }
        None
    }
}

/// Appends `chars[from..to]` to `out` as one more segment.
fn push_segment(out: &mut String, first: bool, chars: &Vec<char>, from: usize, to: usize)
    requires
        from <= to <= chars@.len(),
    ensures
        final(out)@ == (if first {
            old(out)@
        } else {
            old(out)@.push('/')
        }) + chars@.subrange(from as int, to as int),
{
    if !first {
        out.push('/');
    }
    let ghost base = out@;
    let mut i: usize = from;
    while i < to
        invariant
            from <= i <= to <= chars@.len(),
            out@ == base + chars@.subrange(from as int, i as int),
        decreases to - i,
    {
        out.push(chars[i]);
        i += 1;
        assert(chars@.subrange(from as int, i as int) =~= chars@.subrange(
            from as int,
            i - 1,
        ).push(chars@[i - 1]));
    }
    assert(out@ =~= base + chars@.subrange(from as int, to as int));
}

impl VfsPath {
    #[verifier::type_invariant]
    closed spec fn wf(self) -> bool {
        is_normal(self.0@)
    }

    /// Validates and normalises `input`.
    ///
    /// Runs of `/` collapse into one and trailing slashes go; every other
    /// character is kept as it is.
    pub fn new(input: &str) -> (r: Result<VfsPath, VfsPathError>)
        ensures
            match r {
                Ok(path) => normalise(input@) == Ok::<Seq<char>, VfsPathError>(path@),
                Err(e) => normalise(input@) == Err::<Seq<char>, VfsPathError>(e),
            },
    {
        let chars = chars_of(input);
        if chars.len() == 0 {
            return Err(VfsPathError::Empty);
        }
        if chars[0] == '/' {
            return Err(VfsPathError::Absolute);
        }
        if has_char(&chars, '\\') {
            return Err(VfsPathError::Backslash);
        }
        if has_char(&chars, ':') {
            return Err(VfsPathError::Colon);
        }
        if has_char(&chars, '\0') {
            return Err(VfsPathError::NulByte);
        }
        let ghost s = chars@;
        let mut out = String::new();
        let mut first: bool = true;
        let mut start: usize = 0;
        let mut i: usize = 0;
        assert(s.take(0) =~= Seq::<char>::empty());
        assert(pieces(s.take(0)).drop_last() =~= Seq::<Seq<char>>::empty());
        assert(s.subrange(0, 0) =~= Seq::<char>::empty());
        while i < chars.len()
            invariant
                s == chars@,
                s == input@,
                s.len() > 0 && s[0] != '/',
                !s.contains('\\') && !s.contains(':') && !s.contains('\0'),
                start <= i <= chars@.len(),
                pieces(s.take(i as int)).len() >= 1,
                pieces(s.take(i as int)).last() == s.subrange(start as int, i as int),
                out@ == join(non_empty(pieces(s.take(i as int)).drop_last())),
                first <==> non_empty(pieces(s.take(i as int)).drop_last()).len() == 0,
                first_segment_error(non_empty(pieces(s.take(i as int)).drop_last())) is None,
            decreases chars@.len() - i,
        {
            proof {
                lemma_pieces_step(s, i as int);
            }
            let ghost before = pieces(s.take(i as int));
            let ghost done = non_empty(before.drop_last());
            if chars[i] == '/' {
                assert(pieces(s.take(i + 1)).drop_last() =~= before);
                if start < i {
                    assert(non_empty(before) == done.push(before.last()));
                    assert(done.push(before.last()).drop_last() =~= done);
                    match check_segment(&chars, start, i) {
                        Some(e) => {
                            proof {
                                lemma_error_stays(s, i + 1);
                            }
                            return Err(e);
                        },
                        None => {},
                    }
                    push_segment(&mut out, first, &chars, start, i);
                    proof {
                        if done.len() == 0 {
                            assert(out@ =~= before.last());
                        }
                    }
                    first = false;
                }
                start = i + 1;
            } else {
                assert(pieces(s.take(i + 1)).drop_last() =~= before.drop_last());
                assert(s.subrange(start as int, i + 1) =~= s.subrange(start as int, i as int).push(
                    s[i as int],
                ));
            }
            i += 1;
            assert(s.subrange(i as int, i as int) =~= Seq::<char>::empty());
        }
        assert(s.take(s.len() as int) =~= s);
        let ghost all = pieces(s);
        let ghost done = non_empty(all.drop_last());
        if start < i {
            assert(done.push(all.last()).drop_last() =~= done);
            match check_segment(&chars, start, i) {
                Some(e) => {
                    return Err(e);
                },
                None => {},
            }
            push_segment(&mut out, first, &chars, start, i);
            proof {
                if done.len() == 0 {
                    assert(out@ =~= all.last());
                }
            }
        }
        assert(out@ == join(segments(s)));
        proof {
            lemma_normalise_idempotent(s);
        }
        Ok(VfsPath(out))
    }

    /// The path as text.
    pub fn as_str(&self) -> (r: &str)
        ensures
            r@ == self@,
            is_normal(r@),
    {
        proof {
            use_type_invariant(self);
        }
        self.0.as_str()
    }

    /// The extension (without the dot) of the final segment, if it has a
    /// non-empty one.
    pub fn extension(&self) -> (r: Option<&str>)
        ensures
            match r {
                Some(ext) => path_extension(self@) == Some(ext@),
                None => path_extension(self@) is None,
            },
    {
        let chars = chars_of(self.0.as_str());
        let n = chars.len();
        let mut i: usize = n;
        let ghost s = chars@;
        while i > 0 && chars[i - 1] != '/' && chars[i - 1] != '.'
            invariant
                s == chars@,
                s == self@,
                i <= n == chars@.len(),
                forall|k: int| i <= k < n ==> chars@[k] != '/' && chars@[k] != '.',
            decreases i,
        {
            i -= 1;
        }
        proof {
            lemma_extension(s, i as int);
        }
        if i == 0 || i == n || chars[i - 1] == '/' {
            None
        } else {
            Some(self.0.as_str().substring_char(i, n))
        }
    }

    /// Whether this path is `prefix` itself or lies below it.
    pub fn is_within(&self, prefix: &VfsPath) -> (r: bool)
        ensures
            r == within(self@, prefix@),
    {
        let s = chars_of(self.0.as_str());
        let p = chars_of(prefix.0.as_str());
        if s.len() < p.len() {
            return false;
        }
        let mut i: usize = 0;
        while i < p.len()
            invariant
                i <= p@.len() <= s@.len(),
                s@ == self@,
                p@ == prefix@,
                forall|k: int| 0 <= k < i ==> s@[k] == p@[k],
            decreases p@.len() - i,
        {
            if s[i] != p[i] {
                assert(s@.take(p@.len() as int)[i as int] != p@[i as int]);
                return false;
            }
            i += 1;
        }
        assert(s@.take(p@.len() as int) =~= p@);
        if s.len() == p.len() {
            assert(s@ =~= p@);
            true
        } else {
            s.len() > p.len() + 1 && s[p.len()] == '/'
        }
    }

    /// Whether this path and `other` are the same.
    pub fn same(&self, other: &VfsPath) -> (r: bool)
        ensures
            r == (self@ == other@),
    {
        self.0 == other.0
    }
}

/// Each error says what is wrong.
pub proof fn law_errors_say_what_is_wrong(error: VfsPathError, text: &'static str)
    requires
        call_ensures(VfsPathError::message, (&error,), text),
    ensures
        error is Empty ==> text@ == "path is empty"@,
        error is Absolute ==> text@ == "path is absolute (starts with `/`)"@,
        error is Backslash ==> text@ == "path contains a backslash"@,
        error is Colon ==> text@ == "path contains a colon"@,
        error is NulByte ==> text@ == "path contains a NUL byte"@,
        error is ParentTraversal ==> text@ == "path contains a `..` segment"@,
        error is CurrentDir ==> text@ == "path contains a `.` segment"@,
{
}

/// A path is refused for the first thing that is wrong with it: that it is
/// empty, that it starts with a slash, or that it holds a backslash, a colon or a
/// NUL, in this order.
pub proof fn law_paths_are_refused_for_their_fault(input: &str, r: Result<VfsPath, VfsPathError>)
    requires
        call_ensures(VfsPath::new, (input,), r),
    ensures
        ({
            let s = input@;
            let absolute = s.len() > 0 && s[0] == '/';
            let backslash = s.contains('\\');
            let colon = s.contains(':');
            let nul = s.contains('\0');
            &&& r is Err && r->Err_0 is Empty <==> s.len() == 0
            &&& r is Err && r->Err_0 is Absolute <==> absolute
            &&& r is Err && r->Err_0 is Backslash <==> s.len() > 0 && !absolute && backslash
            &&& r is Err && r->Err_0 is Colon <==> s.len() > 0 && !absolute && !backslash && colon
            &&& r is Err && r->Err_0 is NulByte <==> s.len() > 0 && !absolute && !backslash
                && !colon && nul
        }),
{
    if first_segment_error(segments(input@)) is Some {
        lemma_segment_errors(segments(input@));
    }
}

proof fn lemma_segment_errors(parts: Seq<Seq<char>>)
    requires
        first_segment_error(parts) is Some,
    ensures
        first_segment_error(parts)->0 is ParentTraversal || first_segment_error(parts)->0
            is CurrentDir,
    decreases parts.len(),
{
    if parts.len() > 0 && first_segment_error(parts.drop_last()) is Some {
        lemma_segment_errors(parts.drop_last());
    }
}

} // verus!
