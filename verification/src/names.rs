//! The grammar of namespaced names: `namespace:name`.
//!
//! Both halves match `[a-z][a-z0-9_]*` and exactly one colon stands between
//! them. Kind ids and material ids share it.

use crate::text::chars_of;
use vstd::prelude::*;

verus! {

/// What is wrong with a name, in the order in which the faults are looked for.
#[derive(Debug, Clone, Copy, PartialEq, Eq, Structural)]
pub enum NameFault {
    /// No `:` present.
    MissingSeparator,
    /// More than one `:` present.
    MultipleSeparators,
    /// Nothing before the `:`.
    EmptyNamespace,
    /// Nothing after the `:`.
    EmptyName,
    /// The part before the `:` breaks the grammar.
    InvalidNamespace,
    /// The part after the `:` breaks the grammar.
    InvalidName,
}

/// A lower-case ASCII letter.
pub open spec fn is_letter(c: char) -> bool {
    'a' <= c <= 'z'
}

/// A character that may stand behind the first one of a half.
pub open spec fn is_word_char(c: char) -> bool {
    is_letter(c) || '0' <= c <= '9' || c == '_'
}

/// `[a-z][a-z0-9_]*`.
pub open spec fn is_word(s: Seq<char>) -> bool {
    &&& s.len() > 0
    &&& is_letter(s[0])
    &&& forall|i: int| 0 <= i < s.len() ==> is_word_char(#[trigger] s[i])
}

/// Where the first `:` of `s` stands; `s.len()` if there is none.
pub open spec fn first_colon(s: Seq<char>) -> int
    decreases s.len(),
{
    if s.len() == 0 {
        0
    } else if s[0] == ':' {
        0
    } else {
        1 + first_colon(s.skip(1))
    }
}

/// The two halves of a well-formed name, or what is wrong with it.
pub open spec fn split_name(s: Seq<char>) -> Result<(Seq<char>, Seq<char>), NameFault> {
    let at = first_colon(s);
    let namespace = s.take(at);
    let name = s.skip(at + 1);
    if at == s.len() {
        Err(NameFault::MissingSeparator)
    } else if name.contains(':') {
        Err(NameFault::MultipleSeparators)
    } else if namespace.len() == 0 {
        Err(NameFault::EmptyNamespace)
    } else if name.len() == 0 {
        Err(NameFault::EmptyName)
    } else if !is_word(namespace) {
        Err(NameFault::InvalidNamespace)
    } else if !is_word(name) {
        Err(NameFault::InvalidName)
    } else {
        Ok((namespace, name))
    }
}

/// A well-formed name.
pub open spec fn is_name(s: Seq<char>) -> bool {
    split_name(s) is Ok
}

/// The first colon is where a colon stands with none before it.
pub proof fn lemma_first_colon(s: Seq<char>, at: int)
    requires
        0 <= at <= s.len(),
        forall|k: int| 0 <= k < at ==> s[k] != ':',
        at < s.len() ==> s[at] == ':',
    ensures
        first_colon(s) == at,
    decreases s.len(),
{
    if s.len() > 0 && at > 0 {
        assert(s[0] != ':');
        assert forall|k: int| 0 <= k < at - 1 implies s.skip(1)[k] != ':' by {
            assert(s[k + 1] != ':');
        }
        lemma_first_colon(s.skip(1), at - 1);
    }
}

/// A word holds no colon.
proof fn lemma_word_has_no_colon(s: Seq<char>)
    requires
        is_word(s),
    ensures
        !s.contains(':'),
{
    if s.contains(':') {
        let at = choose|at: int| 0 <= at < s.len() && s[at] == ':';
        assert(is_word_char(s[at]));
    }
}

/// Names are exactly the pairs of words: splitting a name gives two words
/// whose concatenation around a colon is the name, and every two words make
/// a name that splits into them.
pub proof fn law_names_are_pairs_of_words(s: Seq<char>, namespace: Seq<char>, name: Seq<char>)
    ensures
        split_name(s) == Ok::<(Seq<char>, Seq<char>), NameFault>((namespace, name)) <==> {
            &&& is_word(namespace)
            &&& is_word(name)
            &&& s == namespace.push(':') + name
        },
{
    lemma_first_colon_bounds(s);
    let at = first_colon(s);
    if split_name(s) is Ok {
        assert(s =~= s.take(at).push(':') + s.skip(at + 1));
    }
    if is_word(namespace) && is_word(name) && s == namespace.push(':') + name {
        lemma_word_has_no_colon(namespace);
        lemma_word_has_no_colon(name);
        assert forall|k: int| 0 <= k < namespace.len() implies s[k] != ':' by {
            assert(namespace[k] == s[k]);
            assert(namespace.contains(namespace[k]));
        }
        lemma_first_colon(s, namespace.len() as int);
        assert(s.take(namespace.len() as int) =~= namespace);
        assert(s.skip(namespace.len() as int + 1) =~= name);
    }
}

/// Where the first colon is: in bounds, on a colon, with none before it.
pub proof fn lemma_first_colon_bounds(s: Seq<char>)
    ensures
        0 <= first_colon(s) <= s.len(),
        first_colon(s) < s.len() ==> s[first_colon(s)] == ':',
        forall|k: int| 0 <= k < first_colon(s) ==> s[k] != ':',
    decreases s.len(),
{
    if s.len() > 0 && s[0] != ':' {
        lemma_first_colon_bounds(s.skip(1));
        assert forall|k: int| 0 <= k < first_colon(s) implies s[k] != ':' by {
            if k > 0 {
                assert(s.skip(1)[k - 1] == s[k]);
            }
        }
    }
}

/// A character stands in a text at two places or more.
pub open spec fn has_two(s: Seq<char>, c: char) -> bool {
    exists|i: int, j: int| 0 <= i < j < s.len() && s[i] == c && s[j] == c
}

/// The fault that is told: that there is no colon before that there is more
/// than one, then that a half is empty and then that it is no word, the
/// namespace before the name.
pub proof fn law_faults_are_told_in_order(s: Seq<char>, at: int)
    ensures
        split_name(s) == Err::<(Seq<char>, Seq<char>), NameFault>(NameFault::MissingSeparator)
            <==> !s.contains(':'),
        split_name(s) == Err::<(Seq<char>, Seq<char>), NameFault>(NameFault::MultipleSeparators)
            <==> has_two(s, ':'),
        0 <= at < s.len() && s[at] == ':' && !has_two(s, ':') ==> {
            let namespace = s.take(at);
            let name = s.skip(at + 1);
            match split_name(s) {
                Ok(halves) => halves == (namespace, name) && is_word(namespace) && is_word(name),
                Err(NameFault::EmptyNamespace) => at == 0,
                Err(NameFault::EmptyName) => at > 0 && at == s.len() - 1,
                Err(NameFault::InvalidNamespace) => 0 < at < s.len() - 1 && !is_word(namespace),
                Err(NameFault::InvalidName) => 0 < at < s.len() - 1 && is_word(namespace)
                    && !is_word(name),
                Err(_) => false,
            }
        },
{
    lemma_first_colon_bounds(s);
    let first = first_colon(s);
    let name = s.skip(first + 1);
    if s.contains(':') {
        let k = choose|k: int| 0 <= k < s.len() && s[k] == ':';
        assert(first <= k);
        if name.contains(':') {
            let m = choose|m: int| 0 <= m < name.len() && name[m] == ':';
            assert(s[first + 1 + m] == ':');
            assert(has_two(s, ':'));
        }
        if has_two(s, ':') {
            let (i, j) = choose|i: int, j: int| 0 <= i < j < s.len() && s[i] == ':' && s[j] == ':';
            assert(name[j - first - 1] == ':');
        }
    } else {
        if first < s.len() {
            assert(s.contains(s[first]));
        }
        if has_two(s, ':') {
            let (i, j) = choose|i: int, j: int| 0 <= i < j < s.len() && s[i] == ':' && s[j] == ':';
            assert(s.contains(s[i]));
        }
    }
    if 0 <= at < s.len() && s[at] == ':' && !has_two(s, ':') {
        assert(first == at) by {
            if first < at {
                assert(has_two(s, ':'));
            }
        }
    }
}

/// Whether `chars[from..to]` is a word.
pub fn is_valid_segment(chars: &Vec<char>, from: usize, to: usize) -> (r: bool)
    requires
        from <= to <= chars@.len(),
    ensures
        r == is_word(chars@.subrange(from as int, to as int)),
{
    let ghost part = chars@.subrange(from as int, to as int);
    if from == to {
        return false;
    }
    let first = chars[from];
    if !('a' <= first && first <= 'z') {
        assert(part[0] == first);
        return false;
    }
    let mut i: usize = from;
    while i < to
        invariant
            from <= i <= to <= chars@.len(),
            part == chars@.subrange(from as int, to as int),
            forall|k: int| 0 <= k < i - from ==> is_word_char(#[trigger] part[k]),
        decreases to - i,
    {
        let c = chars[i];
        if !(('a' <= c && c <= 'z') || ('0' <= c && c <= '9') || c == '_') {
            assert(!is_word_char(part[i - from]));
            return false;
        }
        i += 1;
    }
    true
}

/// Finds the colon of a well-formed name.
pub fn parse_name(input: &str) -> (r: Result<usize, NameFault>)
    ensures
        match r {
            Ok(at) => {
                &&& at < input@.len()
                &&& at == first_colon(input@)
                &&& split_name(input@) == Ok::<(Seq<char>, Seq<char>), NameFault>(
                    (input@.take(at as int), input@.skip(at + 1)),
                )
            },
            Err(fault) => split_name(input@) == Err::<(Seq<char>, Seq<char>), NameFault>(fault),
        },
{
    let chars = chars_of(input);
    let n = chars.len();
    let ghost s = chars@;
    let mut at: usize = 0;
    while at < n && chars[at] != ':'
        invariant
            at <= n == chars@.len(),
            s == chars@,
            forall|k: int| 0 <= k < at ==> s[k] != ':',
        decreases n - at,
    {
        at += 1;
    }
    proof {
        lemma_first_colon(s, at as int);
    }
    if at == n {
        return Err(NameFault::MissingSeparator);
    }
    let ghost name = s.skip(at + 1);
    let mut i: usize = at + 1;
    while i < n
        invariant
            at < i <= n == chars@.len(),
            s == chars@,
            s == input@,
            at == first_colon(s),
            name == s.skip(at + 1),
            forall|k: int| at < k < i ==> s[k] != ':',
        decreases n - i,
    {
        if chars[i] == ':' {
            assert(name[i - at - 1] == ':');
            return Err(NameFault::MultipleSeparators);
        }
        i += 1;
    }
    assert(!name.contains(':'));
    assert(s.take(at as int) =~= s.subrange(0, at as int));
    assert(name =~= s.subrange(at + 1, n as int));
    if at == 0 {
        return Err(NameFault::EmptyNamespace);
    }
    if at + 1 == n {
        return Err(NameFault::EmptyName);
    }
    if !is_valid_segment(&chars, 0, at) {
        return Err(NameFault::InvalidNamespace);
    }
    if !is_valid_segment(&chars, at + 1, n) {
        return Err(NameFault::InvalidName);
    }
    Ok(at)
}

} // verus!
