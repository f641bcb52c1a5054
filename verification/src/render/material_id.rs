//! `MaterialId`: the name of a material, `namespace:name`.

use crate::names::{
    first_colon, has_two, is_name, is_word, law_faults_are_told_in_order,
    law_names_are_pairs_of_words, parse_name, split_name, NameFault,
};
use crate::table::TableKey;
use vstd::prelude::*;

verus! {

/// A well-formed material id.
#[derive(Debug, PartialEq, Eq, Hash, PartialOrd, Ord)]
pub struct MaterialId {
    full: String,
    /// Where the colon stands in `full`, counted in characters.
    sep: usize,
}

/// Reasons for which `MaterialId::new` rejects an input.
#[derive(Debug, Clone, Copy, PartialEq, Eq, Structural)]
pub enum MaterialIdError {
    /// No `:` present.
    MissingSeparator,
    /// More than one `:` present.
    MultipleSeparators,
    /// Nothing before the `:`.
    EmptyNamespace,
    /// Nothing after the `:`.
    EmptyName,
    /// The namespace breaks the grammar.
    InvalidNamespace,
    /// The name breaks the grammar.
    InvalidName,
}

impl MaterialIdError {
    /// The error for a fault of the grammar.
    pub open spec fn spec_of(fault: NameFault) -> MaterialIdError {
        match fault {
            NameFault::MissingSeparator => MaterialIdError::MissingSeparator,
            NameFault::MultipleSeparators => MaterialIdError::MultipleSeparators,
            NameFault::EmptyNamespace => MaterialIdError::EmptyNamespace,
            NameFault::EmptyName => MaterialIdError::EmptyName,
            NameFault::InvalidNamespace => MaterialIdError::InvalidNamespace,
            NameFault::InvalidName => MaterialIdError::InvalidName,
        }
    }

    fn of(fault: NameFault) -> (r: MaterialIdError)
        ensures
            r == MaterialIdError::spec_of(fault),
    {
        match fault {
            NameFault::MissingSeparator => MaterialIdError::MissingSeparator,
            NameFault::MultipleSeparators => MaterialIdError::MultipleSeparators,
            NameFault::EmptyNamespace => MaterialIdError::EmptyNamespace,
            NameFault::EmptyName => MaterialIdError::EmptyName,
            NameFault::InvalidNamespace => MaterialIdError::InvalidNamespace,
            NameFault::InvalidName => MaterialIdError::InvalidName,
        }
    }

    /// What `message` says of each error.
    pub open spec fn spec_message(self) -> Seq<char> {
        match self {
            MaterialIdError::MissingSeparator => "material id is missing `:` separator"@,
            MaterialIdError::MultipleSeparators => "material id has more than one `:`"@,
            MaterialIdError::EmptyNamespace => "material id namespace is empty"@,
            MaterialIdError::EmptyName => "material id name is empty"@,
            MaterialIdError::InvalidNamespace => "material id namespace must match [a-z][a-z0-9_]*"@,
            MaterialIdError::InvalidName => "material id name must match [a-z][a-z0-9_]*"@,
        }
    }

    /// The error in words.
    pub fn message(&self) -> (r: &'static str)
        ensures
            r@ == self.spec_message(),
    {
        match self {
            MaterialIdError::MissingSeparator => "material id is missing `:` separator",
            MaterialIdError::MultipleSeparators => "material id has more than one `:`",
            MaterialIdError::EmptyNamespace => "material id namespace is empty",
            MaterialIdError::EmptyName => "material id name is empty",
            MaterialIdError::InvalidNamespace => "material id namespace must match [a-z][a-z0-9_]*",
            MaterialIdError::InvalidName => "material id name must match [a-z][a-z0-9_]*",
        }
    }
}

/// The error with which `MaterialId::new` rejects `input`, if it does.
pub open spec fn material_id_error(input: Seq<char>) -> Option<MaterialIdError> {
    match split_name(input) {
        Ok(_) => None,
        Err(fault) => Some(MaterialIdError::spec_of(fault)),
    }
}

impl View for MaterialId {
    type V = Seq<char>;

    closed spec fn view(&self) -> Seq<char> {
        self.full@
    }
}

impl Clone for MaterialId {
    fn clone(&self) -> (r: Self)
        ensures
            r == *self,
    {
        proof {
            use_type_invariant(self);
        }
        MaterialId { full: self.full.clone(), sep: self.sep }
    }
}

impl TableKey for MaterialId {
    type Id = Seq<char>;

    open spec fn key(&self) -> Seq<char> {
        self@
    }

    fn same_key(&self, other: &Self) -> (r: bool) {
        self.full == other.full
    }
}

impl MaterialId {
    #[verifier::type_invariant]
    closed spec fn wf(self) -> bool {
        &&& is_name(self.full@)
        &&& self.sep == first_colon(self.full@)
        &&& self.sep < self.full@.len()
    }

    /// Reads `namespace:name`.
    pub fn new(input: &str) -> (r: Result<MaterialId, MaterialIdError>)
        ensures
            match r {
                Ok(id) => material_id_error(input@) is None && id@ == input@,
                Err(e) => material_id_error(input@) == Some(e),
            },
    {
        match parse_name(input) {
            Ok(sep) => Ok(MaterialId { full: input.to_owned(), sep }),
            Err(fault) => Err(MaterialIdError::of(fault)),
        }
    }

    /// The whole id.
    pub fn as_str(&self) -> (r: &str)
        ensures
            r@ == self@,
            is_name(r@),
    {
        proof {
            use_type_invariant(self);
        }
        self.full.as_str()
    }

    /// The part before the colon.
    pub fn namespace(&self) -> (r: &str)
        ensures
            split_name(self@) matches Ok(halves) && r@ == halves.0,
    {
        proof {
            use_type_invariant(self);
        }
        assert(self.full@.subrange(0, self.sep as int) =~= self.full@.take(self.sep as int));
        self.full.as_str().substring_char(0, self.sep)
    }

    /// The part behind the colon.
    pub fn name(&self) -> (r: &str)
        ensures
            split_name(self@) matches Ok(halves) && r@ == halves.1,
    {
        proof {
            use_type_invariant(self);
        }
        let n = self.full.as_str().unicode_len();
        assert(self.full@.subrange(self.sep + 1, n as int) =~= self.full@.skip(self.sep + 1));
        self.full.as_str().substring_char(self.sep + 1, n)
    }
}

/// An id is its namespace, a colon and its name, and is the text that it was
/// made of.
pub proof fn law_ids_are_their_parts(
    input: &str,
    id: MaterialId,
    namespace: &str,
    name: &str,
    whole: &str,
)
    requires
        call_ensures(MaterialId::new, (input,), Ok::<MaterialId, MaterialIdError>(id)),
        call_ensures(MaterialId::namespace, (&id,), namespace),
        call_ensures(MaterialId::name, (&id,), name),
        call_ensures(MaterialId::as_str, (&id,), whole),
    ensures
        whole@ == input@,
        input@ == namespace@.push(':') + name@,
        is_word(namespace@),
        is_word(name@),
{
    law_names_are_pairs_of_words(input@, namespace@, name@);
}

/// A text is refused for want of a colon, for a second one, for a half that is
/// empty or for one that is no word, the namespace before the name; whatever is
/// not refused is two words around a colon.
pub proof fn law_ids_are_refused_for_their_fault(
    input: &str,
    r: Result<MaterialId, MaterialIdError>,
    at: int,
)
    requires
        call_ensures(MaterialId::new, (input,), r),
    ensures
        r is Err && r->Err_0 is MissingSeparator <==> !input@.contains(':'),
        r is Err && r->Err_0 is MultipleSeparators <==> has_two(input@, ':'),
        0 <= at < input@.len() && input@[at] == ':' && !has_two(input@, ':') ==> {
            let namespace = input@.take(at);
            let name = input@.skip(at + 1);
            match r {
                Ok(_) => is_word(namespace) && is_word(name),
                Err(MaterialIdError::EmptyNamespace) => namespace.len() == 0,
                Err(MaterialIdError::EmptyName) => namespace.len() > 0 && name.len() == 0,
                Err(MaterialIdError::InvalidNamespace) => namespace.len() > 0 && name.len() > 0
                    && !is_word(namespace),
                Err(MaterialIdError::InvalidName) => is_word(namespace) && name.len() > 0 && !is_word(
                    name,
                ),
                Err(_) => false,
            }
        },
{
    law_faults_are_told_in_order(input@, at);
}

/// Each error says what is wrong.
pub proof fn law_errors_say_what_is_wrong(error: MaterialIdError, text: &'static str)
    requires
        call_ensures(MaterialIdError::message, (&error,), text),
    ensures
        error is MissingSeparator ==> text@ == "material id is missing `:` separator"@,
        error is MultipleSeparators ==> text@ == "material id has more than one `:`"@,
        error is EmptyNamespace ==> text@ == "material id namespace is empty"@,
        error is EmptyName ==> text@ == "material id name is empty"@,
        error is InvalidNamespace ==> text@ == "material id namespace must match [a-z][a-z0-9_]*"@,
        error is InvalidName ==> text@ == "material id name must match [a-z][a-z0-9_]*"@,
{
}

} // verus!
