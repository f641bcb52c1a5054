//! `Definitions`: the registry of kinds that is filled before the simulation
//! starts.
//!
//! Each `.ron` file under a prefix of the virtual filesystem is one kind: a
//! RON struct whose `id` field names it. The first bad file stops the load.

use super::kind_id::{kind_id_error, KindId, KindIdError};
use super::path::{law_extensions_follow_a_dot, path_extension, within, VfsPath};
use super::ron_text::{
    error_words, map_entries, parse_ron, ron_entries, ron_error_words, ron_parse, ron_string,
    string_value, utf8_text,
};
use super::source::{AssetError, AssetSource};
use super::vfs::{ascending, can_list_each, can_resolve, is_union, lists, Vfs};
use crate::table::{as_map, lemma_as_map, Table, TableKey};
use crate::text::text_lt;
use vstd::prelude::*;
use vstd::utf8::{decode_utf8, valid_utf8};

verus! {

/// A kind: its id, the file that defines it, and the body of that file.
pub struct KindDef {
    pub id: KindId,
    /// The file that this kind was loaded from.
    pub source: VfsPath,
    /// The whole document, `id` included.
    pub value: ron::Value,
}

/// A `KindDef` by its texts.
pub struct KindDefView {
    pub id: Seq<char>,
    pub source: Seq<char>,
    pub value: ron::Value,
}

impl View for KindDef {
    type V = KindDefView;

    open spec fn view(&self) -> KindDefView {
        KindDefView { id: self.id@, source: self.source@, value: self.value }
    }
}

/// Errors of `Definitions::load`.
#[allow(inconsistent_fields)]
#[derive(Debug)]
pub enum DefError {
    /// A definition file could not be read.
    Read { path: VfsPath, error: AssetError },
    /// The filesystem could not be listed.
    Listing(AssetError),
    /// The file is not UTF-8.
    NotUtf8 { path: VfsPath },
    /// The file is not RON.
    Parse { path: VfsPath, error: ron::error::SpannedError },
    /// The document is not a struct or map.
    NotAStruct { path: VfsPath },
    /// The document has no `id` field.
    MissingId { path: VfsPath },
    /// The `id` field is not a string.
    IdNotAString { path: VfsPath },
    /// The `id` field is not a kind id.
    InvalidId { path: VfsPath, error: KindIdError },
    /// Two files define the same kind.
    Duplicate { id: KindId, first: VfsPath, second: VfsPath },
}

/// A `DefError` by its texts.
#[allow(inconsistent_fields)]
pub enum DefFault {
    Read { path: Seq<char>, error: AssetError },
    Listing(AssetError),
    NotUtf8 { path: Seq<char> },
    Parse { path: Seq<char>, error: ron::error::SpannedError },
    NotAStruct { path: Seq<char> },
    MissingId { path: Seq<char> },
    IdNotAString { path: Seq<char> },
    InvalidId { path: Seq<char>, error: KindIdError },
    Duplicate { id: Seq<char>, first: Seq<char>, second: Seq<char> },
}

impl View for DefError {
    type V = DefFault;

    open spec fn view(&self) -> DefFault {
        match *self {
            DefError::Read { path, error } => DefFault::Read { path: path@, error },
            DefError::Listing(error) => DefFault::Listing(error),
            DefError::NotUtf8 { path } => DefFault::NotUtf8 { path: path@ },
            DefError::Parse { path, error } => DefFault::Parse { path: path@, error },
            DefError::NotAStruct { path } => DefFault::NotAStruct { path: path@ },
            DefError::MissingId { path } => DefFault::MissingId { path: path@ },
            DefError::IdNotAString { path } => DefFault::IdNotAString { path: path@ },
            DefError::InvalidId { path, error } => DefFault::InvalidId { path: path@, error },
            DefError::Duplicate { id, first, second } => DefFault::Duplicate {
                id: id@,
                first: first@,
                second: second@,
            },
        }
    }
}

/// `a` followed by `b`.
fn joined(a: String, b: &str) -> (r: String)
    ensures
        r@ == a@ + b@,
{
    a.concat(b)
}

impl DefError {
    /// The error in words. What the operating system says of an I/O error is
    /// left open.
    pub fn message(&self) -> (r: String)
        ensures
            match self@ {
                DefFault::Read { path, error } => exists|detail: Seq<char>|
                    {
                        &&& #[trigger] error.can_say(detail)
                        &&& r@ == "reading "@ + path + ": "@ + detail
                    },
                DefFault::Listing(error) => exists|detail: Seq<char>|
                    {
                        &&& #[trigger] error.can_say(detail)
                        &&& r@ == "listing VFS: "@ + detail
                    },
                DefFault::NotUtf8 { path } => r@ == path + ": file is not UTF-8"@,
                DefFault::Parse { path, error } => r@ == "parsing "@ + path + ": "@
                    + ron_error_words(error),
                DefFault::NotAStruct { path } => r@ == path
                    + ": top-level RON must be a struct/map"@,
                DefFault::MissingId { path } => r@ == path + ": missing `id` field"@,
                DefFault::IdNotAString { path } => r@ == path + ": `id` field must be a string"@,
                DefFault::InvalidId { path, error } => r@ == path + ": invalid kind id ("@
                    + error.spec_message() + ")"@,
                DefFault::Duplicate { id, first, second } => r@ == "duplicate kind id `"@ + id
                    + "`: defined in "@ + first + " and again in "@ + second,
            },
    {
        match self {
            DefError::Read { path, error } => {
                let detail = error.message();
                let head = joined(joined("reading ".to_owned(), path.as_str()), ": ");
                let r = joined(head, detail.as_str());
                assert(r@ == "reading "@ + path@ + ": "@ + detail@);
                r
            },
            DefError::Listing(error) => {
                let detail = error.message();
                let r = joined("listing VFS: ".to_owned(), detail.as_str());
                assert(r@ == "listing VFS: "@ + detail@);
                r
            },
            DefError::NotUtf8 { path } => joined(path.as_str().to_owned(), ": file is not UTF-8"),
            DefError::Parse { path, error } => {
                let head = joined(joined("parsing ".to_owned(), path.as_str()), ": ");
                joined(head, error_words(error).as_str())
            },
            DefError::NotAStruct { path } => joined(
                path.as_str().to_owned(),
                ": top-level RON must be a struct/map",
            ),
            DefError::MissingId { path } => joined(
                path.as_str().to_owned(),
                ": missing `id` field",
            ),
            DefError::IdNotAString { path } => joined(
                path.as_str().to_owned(),
                ": `id` field must be a string",
            ),
            DefError::InvalidId { path, error } => {
                let head = joined(path.as_str().to_owned(), ": invalid kind id (");
                joined(joined(head, error.message()), ")")
            },
            DefError::Duplicate { id, first, second } => {
                let head = joined(joined("duplicate kind id `".to_owned(), id.as_str()), "`: defined in ");
                joined(joined(joined(head, first.as_str()), " and again in "), second.as_str())
            },
        }
    }
}

/// One field of a RON struct: its name and its value, where they are strings.
pub struct RonField {
    pub name: Option<String>,
    pub text: Option<String>,
}

/// A `RonField` by its texts.
pub type FieldTexts = (Option<Seq<char>>, Option<Seq<char>>);

/// A string, if there is one, as characters.
pub open spec fn text_of(s: Option<String>) -> Option<Seq<char>> {
    match s {
        Some(s) => Some(s@),
        None => None,
    }
}

impl View for RonField {
    type V = FieldTexts;

    open spec fn view(&self) -> FieldTexts {
        (text_of(self.name), text_of(self.text))
    }
}

/// What the fields of a struct say of the `id`.
pub enum IdField {
    /// There is no field of that name.
    Missing,
    /// Its value is not a string.
    NotAString,
    /// Its value.
    Text(String),
}

/// The value of the first field named `id`: nothing without such a field,
/// nothing inside if its value is not a string.
pub open spec fn id_text(fields: Seq<FieldTexts>) -> Option<Option<Seq<char>>>
    decreases fields.len(),
{
    if fields.len() == 0 {
        None
    } else if fields[0].0 == Some("id"@) {
        Some(fields[0].1)
    } else {
        id_text(fields.skip(1))
    }
}

/// The fields by their texts.
pub open spec fn field_texts(fields: Seq<RonField>) -> Seq<FieldTexts> {
    fields.map_values(|f: RonField| f@)
}

/// Looks the `id` up among the fields of a struct.
pub fn find_id(fields: &Vec<RonField>) -> (r: IdField)
    ensures
        match r {
            IdField::Missing => id_text(field_texts(fields@)) is None,
            IdField::NotAString => id_text(field_texts(fields@)) == Some(None::<Seq<char>>),
            IdField::Text(text) => id_text(field_texts(fields@)) == Some(Some(text@)),
        },
{
    let ghost texts = field_texts(fields@);
    let wanted = "id".to_owned();
    let mut i: usize = 0;
    assert(texts.skip(0) =~= texts);
    while i < fields.len()
        invariant
            i <= fields@.len(),
            texts == field_texts(fields@),
            wanted@ == "id"@,
            id_text(texts) == id_text(texts.skip(i as int)),
        decreases fields@.len() - i,
    {
        assert(texts.skip(i as int)[0] == fields@[i as int]@);
        assert(texts.skip(i as int).skip(1) =~= texts.skip(i + 1));
        let here = match &fields[i].name {
            Some(name) => *name == wanted,
            None => false,
        };
        if here {
            return match &fields[i].text {
                Some(text) => IdField::Text(text.clone()),
                None => IdField::NotAString,
            };
        }
        i += 1;
    }
    IdField::Missing
}

/// The entries of a RON map as fields.
pub open spec fn entry_texts(entries: Seq<(ron::Value, ron::Value)>) -> Seq<FieldTexts> {
    entries.map_values(|e: (ron::Value, ron::Value)| (ron_string(e.0), ron_string(e.1)))
}

/// What one document defines.
pub open spec fn kind_of(path: Seq<char>, value: ron::Value) -> Result<KindDefView, DefFault> {
    match ron_entries(value) {
        None => Err(DefFault::NotAStruct { path }),
        Some(entries) => kind_of_id(path, value, id_text(entry_texts(entries))),
    }
}

/// What a document defines whose `id` field is `id`.
pub open spec fn kind_of_id(
    path: Seq<char>,
    value: ron::Value,
    id: Option<Option<Seq<char>>>,
) -> Result<KindDefView, DefFault> {
    match id {
        None => Err(DefFault::MissingId { path }),
        Some(None) => Err(DefFault::IdNotAString { path }),
        Some(Some(id)) => match kind_id_error(id) {
            Some(error) => Err(DefFault::InvalidId { path, error }),
            None => Ok(KindDefView { id, source: path, value }),
        },
    }
}

/// The string keys and values among `entries`.
fn fields_of(entries: &Vec<(ron::Value, ron::Value)>) -> (r: Vec<RonField>)
    ensures
        field_texts(r@) == entry_texts(entries@),
{
    let mut out: Vec<RonField> = Vec::new();
    let mut i: usize = 0;
    while i < entries.len()
        invariant
            i <= entries@.len(),
            out@.len() == i,
            forall|k: int|
                0 <= k < i ==> (#[trigger] out@[k])@ == (
                    ron_string(entries@[k].0),
                    ron_string(entries@[k].1),
                ),
        decreases entries@.len() - i,
    {
        let name = string_value(&entries[i].0);
        let text = string_value(&entries[i].1);
        out.push(RonField { name, text });
        i += 1;
    }
    assert(field_texts(out@) =~= entry_texts(entries@));
    out
}

/// Reads the `id` of a parsed document and makes a kind of it.
pub fn parse_kind(path: VfsPath, value: ron::Value) -> (r: Result<KindDef, DefError>)
    ensures
        match r {
            Ok(def) => kind_of(path@, value) == Ok::<KindDefView, DefFault>(def@),
            Err(e) => kind_of(path@, value) == Err::<KindDefView, DefFault>(e@),
        },
{
    let entries = match map_entries(&value) {
        Some(entries) => entries,
        None => {
            return Err(DefError::NotAStruct { path });
        },
    };
    let fields = fields_of(&entries);
    match find_id(&fields) {
        IdField::Missing => Err(DefError::MissingId { path }),
        IdField::NotAString => Err(DefError::IdNotAString { path }),
        IdField::Text(text) => match KindId::new(text.as_str()) {
            Ok(id) => Ok(KindDef { id, source: path, value }),
            Err(error) => Err(DefError::InvalidId { path, error }),
        },
    }
}

/// What a read file defines.
pub open spec fn kind_of_file(
    path: Seq<char>,
    answer: Result<Vec<u8>, AssetError>,
) -> Result<KindDefView, DefFault> {
    match answer {
        Err(error) => Err(DefFault::Read { path, error }),
        Ok(bytes) => if !valid_utf8(bytes@) {
            Err(DefFault::NotUtf8 { path })
        } else {
            match ron_parse(decode_utf8(bytes@)) {
                Err(error) => Err(DefFault::Parse { path, error }),
                Ok(value) => kind_of(path, value),
            }
        },
    }
}

/// The kinds by their ids.
pub type Kinds = Map<Seq<char>, KindDefView>;

/// The kinds after one more file.
pub open spec fn after_file(
    kinds: Kinds,
    path: Seq<char>,
    answer: Result<Vec<u8>, AssetError>,
) -> Result<Kinds, DefFault> {
    match kind_of_file(path, answer) {
        Err(fault) => Err(fault),
        Ok(def) => after_kind(kinds, def),
    }
}

/// The kinds after one more kind: an id can be defined once.
pub open spec fn after_kind(kinds: Kinds, def: KindDefView) -> Result<Kinds, DefFault> {
    if kinds.contains_key(def.id) {
        Err(DefFault::Duplicate { id: def.id, first: kinds[def.id].source, second: def.source })
    } else {
        Ok(kinds.insert(def.id, def))
    }
}

/// The kinds after all of `paths`, read with `answers`; the first fault stops.
pub open spec fn after_files(
    paths: Seq<VfsPath>,
    answers: Seq<Result<Vec<u8>, AssetError>>,
) -> Result<Kinds, DefFault>
    decreases paths.len(),
{
    if paths.len() == 0 {
        Ok(Map::empty())
    } else {
        match after_files(paths.drop_last(), answers) {
            Err(fault) => Err(fault),
            Ok(kinds) => after_file(kinds, paths.last()@, answers[paths.len() - 1]),
        }
    }
}

/// A definition file under `prefix`.
pub open spec fn is_definition(path: Seq<char>, prefix: Seq<char>) -> bool {
    within(path, prefix) && path_extension(path) == Some("ron"@)
}

/// The definition files among `paths`, in order.
pub open spec fn definitions_in(paths: Seq<VfsPath>, prefix: Seq<char>) -> Seq<VfsPath>
    decreases paths.len(),
{
    if paths.len() == 0 {
        Seq::empty()
    } else if is_definition(paths.last()@, prefix) {
        definitions_in(paths.drop_last(), prefix).push(paths.last())
    } else {
        definitions_in(paths.drop_last(), prefix)
    }
}

/// `answers` are ones that reading `paths` can give, one each.
pub open spec fn can_read_each<L: AssetSource>(
    layers: Seq<L>,
    paths: Seq<VfsPath>,
    answers: Seq<Result<Vec<u8>, AssetError>>,
) -> bool {
    &&& answers.len() == paths.len()
    &&& forall|k: int|
        0 <= k < paths.len() ==> can_resolve(layers, (#[trigger] paths[k])@, answers[k])
}

/// The kinds that files define, in the order of the files.
pub open spec fn kinds_of_files(
    paths: Seq<VfsPath>,
    answers: Seq<Result<Vec<u8>, AssetError>>,
) -> Seq<KindDefView> {
    Seq::new(paths.len(), |k: int| kind_of_file(paths[k]@, answers[k])->Ok_0)
}

/// `outcome` is one that loading the definition files among `listing` can
/// have: all of them are read and make the kinds, in their order, or the first
/// bad one gives the fault and nothing behind it is read.
pub open spec fn can_load<L: AssetSource>(
    layers: Seq<L>,
    listing: Seq<VfsPath>,
    prefix: Seq<char>,
    outcome: Result<Definitions, DefFault>,
) -> bool {
    exists|n: int, answers: Seq<Result<Vec<u8>, AssetError>>|
        {
            &&& 0 <= n <= definitions_in(listing, prefix).len()
            &&& #[trigger] can_read_each(layers, definitions_in(listing, prefix).take(n), answers)
            &&& match outcome {
                Ok(defs) => {
                    &&& n == definitions_in(listing, prefix).len()
                    &&& after_files(definitions_in(listing, prefix), answers) == Ok::<
                        Kinds,
                        DefFault,
                    >(defs.kinds())
                    &&& defs.in_order() == kinds_of_files(
                        definitions_in(listing, prefix),
                        answers,
                    )
                },
                Err(fault) => after_files(definitions_in(listing, prefix).take(n), answers)
                    == Err::<Kinds, DefFault>(fault),
            }
        }
}

/// The registry of all kinds.
pub struct Definitions {
    kinds: Table<KindId, KindDef>,
}

impl Definitions {
    /// The kinds by their ids.
    pub closed spec fn kinds(&self) -> Kinds {
        self.kinds@.map_values(|def: KindDef| def@)
    }

    /// The kinds in the order in which they were registered.
    pub closed spec fn in_order(&self) -> Seq<KindDefView> {
        self.kinds.entries().map_values(|entry: (KindId, KindDef)| entry.1@)
    }

    #[verifier::type_invariant]
    closed spec fn wf(self) -> bool {
        forall|id: Seq<char>| self.kinds@.contains_key(id) ==> (#[trigger] self.kinds@[id])@.id == id
    }

    /// An empty registry.
    pub fn new() -> (r: Self)
        ensures
            r.kinds() == Map::<Seq<char>, KindDefView>::empty(),
            r.in_order() == Seq::<KindDefView>::empty(),
    {
        let r = Definitions { kinds: Table::new() };
        assert(r.kinds() =~= Map::<Seq<char>, KindDefView>::empty());
        assert(r.in_order() =~= Seq::<KindDefView>::empty());
        r
    }

    /// Registers a kind, unless its id is taken.
    pub fn add_kind(self, def: KindDef) -> (r: Result<Definitions, DefError>)
        ensures
            match r {
                Ok(defs) => {
                    &&& after_kind(self.kinds(), def@) == Ok::<Kinds, DefFault>(defs.kinds())
                    &&& defs.in_order() == self.in_order().push(def@)
                },
                Err(e) => after_kind(self.kinds(), def@) == Err::<Kinds, DefFault>(e@),
            },
    {
        proof {
            use_type_invariant(&self);
        }
        let ghost before = self.kinds();
        let ghost order = self.in_order();
        let mut kinds = self.kinds;
        match kinds.get(&def.id) {
            Some(existing) => {
                return Err(
                    DefError::Duplicate {
                        id: def.id.clone(),
                        first: existing.source.clone(),
                        second: def.source.clone(),
                    },
                );
            },
            None => {},
        }
        let ghost shown = def@;
        kinds.insert(def.id.clone(), def);
        let defs = Definitions { kinds };
        assert(defs.kinds() =~= before.insert(shown.id, shown));
        assert(defs.in_order() =~= order.push(shown));
        Ok(defs)
    }

    /// Registers what the file at `path` defines, given what reading it gave.
    pub fn add_file(self, path: VfsPath, answer: Result<Vec<u8>, AssetError>) -> (r: Result<
        Definitions,
        DefError,
    >)
        ensures
            match r {
                Ok(defs) => {
                    &&& after_file(self.kinds(), path@, answer) == Ok::<Kinds, DefFault>(
                        defs.kinds(),
                    )
                    &&& defs.in_order() == self.in_order().push(kind_of_file(path@, answer)->Ok_0)
                },
                Err(e) => after_file(self.kinds(), path@, answer) == Err::<Kinds, DefFault>(e@),
            },
    {
        let bytes = match answer {
            Ok(bytes) => bytes,
            Err(error) => {
                return Err(DefError::Read { path, error });
            },
        };
        let text = match utf8_text(&bytes) {
            Some(text) => text,
            None => {
                return Err(DefError::NotUtf8 { path });
            },
        };
        let value = match parse_ron(text) {
            Ok(value) => value,
            Err(error) => {
                return Err(DefError::Parse { path, error });
            },
        };
        match parse_kind(path, value) {
            Ok(def) => self.add_kind(def),
            Err(e) => Err(e),
        }
    }

    /// Loads every `.ron` file under `prefix`, in the order of the listing.
    pub fn load<L: AssetSource>(vfs: &Vfs<L>, prefix: &VfsPath) -> (r: Result<
        Definitions,
        DefError,
    >)
        ensures
            match r {
                Err(DefError::Listing(error)) => exists|listings: Seq<Vec<VfsPath>>|
                    {
                        &&& listings.len() < vfs.layers().len()
                        &&& #[trigger] can_list_each(
                            vfs.layers().take(listings.len() as int),
                            listings,
                        )
                        &&& vfs.layers()[listings.len() as int].can_list(
                            Err::<Vec<VfsPath>, AssetError>(error),
                        )
                    },
                _ => exists|listings: Seq<Vec<VfsPath>>, listing: Seq<VfsPath>|
                    {
                        &&& #[trigger] can_list_each(vfs.layers(), listings)
                        &&& #[trigger] is_union(listings, listing)
                        &&& can_load(
                            vfs.layers(),
                            listing,
                            prefix@,
                            match r {
                                Ok(defs) => Ok(defs),
                                Err(e) => Err(e@),
                            },
                        )
                    },
            },
    {
        let listing = match vfs.list() {
            Ok(listing) => listing,
            Err(error) => {
                return Err(DefError::Listing(error));
            },
        };
        let ghost layers = vfs.layers();
        let ghost chosen = definitions_in(listing@, prefix@);
        let ghost mut answers: Seq<Result<Vec<u8>, AssetError>> = Seq::empty();
        let mut defs = Definitions::new();
        let mut i: usize = 0;
        let ghost empty = chosen.take(0);
        assert(empty =~= Seq::<VfsPath>::empty());
        proof {
            assert(definitions_in(listing@.take(0), prefix@) =~= Seq::<VfsPath>::empty());
            assert(can_read_each(layers, definitions_in(listing@.take(0), prefix@), answers));
            assert(defs.in_order() =~= kinds_of_files(
                definitions_in(listing@.take(0), prefix@),
                answers,
            ));
        }
        while i < listing.len()
            invariant
                i <= listing@.len(),
                layers == vfs.layers(),
                can_read_each(layers, definitions_in(listing@.take(i as int), prefix@), answers),
                after_files(definitions_in(listing@.take(i as int), prefix@), answers) == Ok::<
                    Kinds,
                    DefFault,
                >(defs.kinds()),
                defs.in_order() == kinds_of_files(
                    definitions_in(listing@.take(i as int), prefix@),
                    answers,
                ),
                exists|listings: Seq<Vec<VfsPath>>|
                    {
                        &&& #[trigger] can_list_each(vfs.layers(), listings)
                        &&& is_union(listings, listing@)
                    },
            decreases listing@.len() - i,
        {
            let ghost now = definitions_in(listing@.take(i as int), prefix@);
            let path = &listing[i];
            proof {
                assert(listing@.take(i + 1).drop_last() =~= listing@.take(i as int));
            }
            let wanted = match path.extension() {
                Some(ext) => ext.to_owned() == "ron".to_owned(),
                None => false,
            };
            if path.is_within(prefix) && wanted {
                let answer = vfs.read(path);
                proof {
                    let more = answers.push(answer);
                    assert(now.push(*path).drop_last() =~= now);
                    lemma_after_files_prefix(now, answers, more);
                    assert forall|k: int| 0 <= k < now.push(*path).len() implies can_resolve(
                        layers,
                        (#[trigger] now.push(*path)[k])@,
                        more[k],
                    ) by {
                        if k < now.len() {
                            assert(can_resolve(layers, now[k]@, answers[k]));
                        }
                    }
                    answers = more;
                }
                match defs.add_file(path.clone(), answer) {
                    Ok(more) => {
                        defs = more;
                        assert(defs.in_order() =~= kinds_of_files(now.push(*path), answers));
                    },
                    Err(e) => {
                        proof {
                            lemma_definitions_prefix(listing@, prefix@, i + 1);
                            let n = now.push(*path).len() as int;
                            assert(definitions_in(listing@, prefix@).take(n) == now.push(*path));
                            assert(can_read_each(
                                layers,
                                definitions_in(listing@, prefix@).take(n),
                                answers,
                            ));
                            assert(can_load(layers, listing@, prefix@, Err(e@)));
                        }
                        return Err(e);
                    },
                }
            }
            i += 1;
        }
        proof {
            assert(listing@.take(i as int) =~= listing@);
            let n = definitions_in(listing@, prefix@).len() as int;
            assert(definitions_in(listing@, prefix@).take(n) =~= definitions_in(listing@, prefix@));
            assert(can_read_each(layers, definitions_in(listing@, prefix@).take(n), answers));
            assert(can_load(layers, listing@, prefix@, Ok(defs)));
        }
        Ok(defs)
    }

    /// The kind with the given id.
    pub fn get(&self, id: &KindId) -> (r: Option<&KindDef>)
        ensures
            match r {
                Some(def) => self.kinds().contains_key(id@) && def@ == self.kinds()[id@],
                None => !self.kinds().contains_key(id@),
            },
    {
        self.kinds.get(id)
    }

    /// How many kinds there are.
    pub fn len(&self) -> (r: usize)
        ensures
            r == self.kinds().dom().len(),
    {
        assert(self.kinds().dom() =~= self.kinds@.dom());
        self.kinds.len()
    }

    /// Whether there are none.
    pub fn is_empty(&self) -> (r: bool)
        ensures
            r == (self.kinds().dom().len() == 0),
    {
        self.len() == 0
    }

    /// Every kind with its id, each once, in the order in which they were
    /// registered.
    pub fn iter(&self) -> (r: Vec<(&KindId, &KindDef)>)
        ensures
            r@.len() == self.kinds().dom().len(),
            r@.map_values(|entry: (&KindId, &KindDef)| entry.1@) == self.in_order(),
            forall|i: int|
                0 <= i < r@.len() ==> self.kinds().contains_key((#[trigger] r@[i]).0@)
                    && self.kinds()[r@[i].0@] == r@[i].1@,
            forall|i: int, j: int|
                0 <= i < j < r@.len() ==> (#[trigger] r@[i]).0@ != (#[trigger] r@[j]).0@,
    {
        assert(self.kinds().dom() =~= self.kinds@.dom());
        let n = self.kinds.len();
        let ghost entries = self.kinds.entries();
        let mut out: Vec<(&KindId, &KindDef)> = Vec::new();
        let mut i: usize = 0;
        while i < n
            invariant
                i <= n == entries.len(),
                entries == self.kinds.entries(),
                out@.len() == i,
                forall|k: int|
                    0 <= k < i ==> *(#[trigger] out@[k]).0 == entries[k].0 && *out@[k].1
                        == entries[k].1,
            decreases n - i,
        {
            out.push(self.kinds.entry(i));
            i += 1;
        }
        proof {
            assert(out@.map_values(|entry: (&KindId, &KindDef)| entry.1@) =~= self.in_order());
            lemma_as_map(entries);
            assert forall|i: int, j: int| 0 <= i < j < out@.len() implies (
            #[trigger] out@[i]).0@ != (#[trigger] out@[j]).0@ by {
                assert(entries[i].0.key() != entries[j].0.key());
            }
            assert forall|i: int| 0 <= i < out@.len() implies self.kinds().contains_key(
                (#[trigger] out@[i]).0@,
            ) && self.kinds()[out@[i].0@] == out@[i].1@ by {
                assert(as_map(entries).contains_key(entries[i].0.key()));
            }
        }
        out
    }
}

impl Default for Definitions {
    fn default() -> (r: Self)
        ensures
            r.kinds() == Map::<Seq<char>, KindDefView>::empty(),
            r.in_order() == Seq::<KindDefView>::empty(),
    {
        Definitions::new()
    }
}

/// Later answers do not matter to earlier files.
proof fn lemma_after_files_prefix(
    paths: Seq<VfsPath>,
    answers: Seq<Result<Vec<u8>, AssetError>>,
    more: Seq<Result<Vec<u8>, AssetError>>,
)
    requires
        answers.len() >= paths.len(),
        more.len() >= paths.len(),
        forall|k: int| 0 <= k < paths.len() ==> answers[k] == more[k],
    ensures
        after_files(paths, answers) == after_files(paths, more),
    decreases paths.len(),
{
    if paths.len() > 0 {
        lemma_after_files_prefix(paths.drop_last(), answers, more);
    }
}

/// The definition files of the first `i` paths are the first definition files.
proof fn lemma_definitions_prefix(paths: Seq<VfsPath>, prefix: Seq<char>, i: int)
    requires
        0 <= i <= paths.len(),
    ensures
        definitions_in(paths.take(i), prefix).len() <= definitions_in(paths, prefix).len(),
        definitions_in(paths, prefix).take(
            definitions_in(paths.take(i), prefix).len() as int,
        ) == definitions_in(paths.take(i), prefix),
    decreases paths.len(),
{
    let some = definitions_in(paths.take(i), prefix);
    if i == paths.len() {
        assert(paths.take(i) =~= paths);
        assert(some.take(some.len() as int) =~= some);
    } else {
        let front = paths.drop_last();
        lemma_definitions_prefix(front, prefix, i);
        assert(front.take(i) =~= paths.take(i));
        let all = definitions_in(front, prefix);
        assert(all.push(paths.last()).take(some.len() as int) =~= all.take(some.len() as int));
    }
}

/// A load that succeeds has one kind for each definition file: the one that
/// the file defines, registered under its id and tagged with the file's path.
pub proof fn law_each_file_is_one_kind(
    paths: Seq<VfsPath>,
    answers: Seq<Result<Vec<u8>, AssetError>>,
)
    requires
        answers.len() >= paths.len(),
        after_files(paths, answers) is Ok,
    ensures
        after_files(paths, answers)->Ok_0.dom().finite(),
        after_files(paths, answers)->Ok_0.dom().len() == paths.len(),
        forall|k: int|
            #![trigger paths[k]]
            0 <= k < paths.len() ==> {
                &&& kind_of_file(paths[k]@, answers[k]) matches Ok(def)
                &&& def.source == paths[k]@
                &&& after_files(paths, answers)->Ok_0.contains_key(def.id)
                &&& after_files(paths, answers)->Ok_0[def.id] == def
            },
    decreases paths.len(),
{
    if paths.len() > 0 {
        let front = paths.drop_last();
        law_each_file_is_one_kind(front, answers);
        let before = after_files(front, answers)->Ok_0;
        let def = kind_of_file(paths.last()@, answers[paths.len() - 1])->Ok_0;
        assert(after_files(paths, answers)->Ok_0 == before.insert(def.id, def));
        assert(!before.contains_key(def.id));
        assert forall|k: int|
            #![trigger paths[k]]
            0 <= k < paths.len() implies {
                &&& kind_of_file(paths[k]@, answers[k]) matches Ok(d)
                &&& d.source == paths[k]@
                &&& after_files(paths, answers)->Ok_0.contains_key(d.id)
                &&& after_files(paths, answers)->Ok_0[d.id] == d
            } by {
            if k < front.len() {
                assert(front[k] == paths[k]);
            }
        }
    }
}

/// The definition files of an ascending listing ascend, and each is one of it.
proof fn lemma_definitions_ascend(paths: Seq<VfsPath>, prefix: Seq<char>)
    requires
        ascending(paths),
    ensures
        ascending(definitions_in(paths, prefix)),
        forall|k: int|
            0 <= k < definitions_in(paths, prefix).len() ==> paths.contains(
                #[trigger] definitions_in(paths, prefix)[k],
            ),
    decreases paths.len(),
{
    if paths.len() > 0 {
        let front = paths.drop_last();
        assert forall|i: int, j: int| 0 <= i < j < front.len() implies text_lt(
            (#[trigger] front[i])@,
            (#[trigger] front[j])@,
        ) by {
            assert(text_lt(paths[i]@, paths[j]@));
        }
        lemma_definitions_ascend(front, prefix);
        let some = definitions_in(front, prefix);
        assert forall|k: int| 0 <= k < some.len() implies paths.contains(#[trigger] some[k]) && (
        is_definition(paths.last()@, prefix) ==> text_lt(some[k]@, paths.last()@)) by {
            let i = choose|i: int| 0 <= i < front.len() && front[i] == some[k];
            assert(front.contains(some[k]));
            assert(paths[i] == some[k]);
            assert(text_lt(paths[i]@, paths[paths.len() - 1]@));
        }
        if is_definition(paths.last()@, prefix) {
            assert(paths[paths.len() - 1] == paths.last());
            assert forall|i: int, j: int|
                0 <= i < j < some.push(paths.last()).len() implies text_lt(
                (#[trigger] some.push(paths.last())[i])@,
                (#[trigger] some.push(paths.last())[j])@,
            ) by {
                if j < some.len() {
                    assert(text_lt(some[i]@, some[j]@));
                }
            }
        }
    }
}

/// The kinds of a load stand in ascending order of the files that define them.
pub proof fn law_kinds_stand_in_file_order<L: AssetSource>(
    layers: Seq<L>,
    listings: Seq<Vec<VfsPath>>,
    listing: Seq<VfsPath>,
    prefix: Seq<char>,
    defs: Definitions,
)
    requires
        is_union(listings, listing),
        can_load(layers, listing, prefix, Ok(defs)),
    ensures
        defs.in_order().len() == definitions_in(listing, prefix).len(),
        forall|k: int|
            0 <= k < defs.in_order().len() ==> (#[trigger] defs.in_order()[k]).source
                == definitions_in(listing, prefix)[k]@,
        forall|i: int, j: int|
            0 <= i < j < defs.in_order().len() ==> text_lt(
                (#[trigger] defs.in_order()[i]).source,
                (#[trigger] defs.in_order()[j]).source,
            ),
{
    let paths = definitions_in(listing, prefix);
    let answers = choose|answers: Seq<Result<Vec<u8>, AssetError>>|
        {
            &&& #[trigger] can_read_each(layers, paths.take(paths.len() as int), answers)
            &&& after_files(paths, answers) == Ok::<Kinds, DefFault>(defs.kinds())
            &&& defs.in_order() == kinds_of_files(paths, answers)
        };
    law_each_file_is_one_kind(paths, answers);
    lemma_definitions_ascend(listing, prefix);
    assert forall|k: int| 0 <= k < defs.in_order().len() implies (
    #[trigger] defs.in_order()[k]).source == paths[k]@ by {
        assert(kind_of_file(paths[k]@, answers[k]) is Ok);
    }
}

/// Loading the same files gives the same kinds in the same order: with equal
/// paths and equal bytes in them, there is one sequence of kinds.
pub proof fn law_loads_are_reproducible(
    paths: Seq<VfsPath>,
    answers: Seq<Result<Vec<u8>, AssetError>>,
    other_paths: Seq<VfsPath>,
    other_answers: Seq<Result<Vec<u8>, AssetError>>,
)
    requires
        paths.len() == other_paths.len(),
        forall|k: int|
            #![trigger paths[k]]
            0 <= k < paths.len() ==> paths[k]@ == other_paths[k]@ && (answers[k] matches Ok(bytes)
                && (other_answers[k] matches Ok(other_bytes) && bytes@ == other_bytes@)),
    ensures
        kinds_of_files(paths, answers) == kinds_of_files(other_paths, other_answers),
        after_files(paths, answers) == after_files(other_paths, other_answers),
    decreases paths.len(),
{
    assert forall|k: int| 0 <= k < paths.len() implies kind_of_file(paths[k]@, answers[k])
        == kind_of_file(other_paths[k]@, other_answers[k]) by {}
    assert(kinds_of_files(paths, answers) =~= kinds_of_files(other_paths, other_answers));
    if paths.len() > 0 {
        let front = paths.drop_last();
        assert forall|k: int|
            #![trigger front[k]]
            0 <= k < front.len() implies front[k]@ == other_paths.drop_last()[k]@ && (
        answers[k] matches Ok(bytes) && (other_answers[k] matches Ok(other_bytes) && bytes@
            == other_bytes@)) by {
            assert(front[k] == paths[k]);
        }
        law_loads_are_reproducible(front, answers, other_paths.drop_last(), other_answers);
        assert(paths[paths.len() - 1] == paths.last());
    }
}

/// Two definition files that define the same id cannot both be loaded.
pub proof fn law_duplicate_ids_stop_the_load(
    paths: Seq<VfsPath>,
    answers: Seq<Result<Vec<u8>, AssetError>>,
    i: int,
    j: int,
)
    requires
        answers.len() >= paths.len(),
        0 <= i < j < paths.len(),
        kind_of_file(paths[i]@, answers[i]) is Ok,
        kind_of_file(paths[j]@, answers[j]) is Ok,
        kind_of_file(paths[i]@, answers[i])->Ok_0.id == kind_of_file(paths[j]@, answers[j])->Ok_0.id,
        paths[i]@ != paths[j]@,
    ensures
        after_files(paths, answers) is Err,
{
    if after_files(paths, answers) is Ok {
        law_each_file_is_one_kind(paths, answers);
        assert(paths[i]@ == kind_of_file(paths[i]@, answers[i])->Ok_0.source);
        assert(paths[j]@ == kind_of_file(paths[j]@, answers[j])->Ok_0.source);
    }
}

/// The path is `prefix` or lies below it, and ends in `.ron`.
pub open spec fn is_ron_file_under(path: Seq<char>, prefix: Seq<char>) -> bool {
    &&& path.len() >= 4 && path.skip(path.len() - 4) == seq!['.', 'r', 'o', 'n']
    &&& path == prefix || (path.len() > prefix.len() && path.take(prefix.len() as int) == prefix
        && path[prefix.len() as int] == '/')
}

/// What is loaded of a listing are its files under the prefix whose names end
/// in `.ron`, all of them and no others.
pub proof fn law_ron_files_are_loaded(listing: Seq<VfsPath>, prefix: Seq<char>, text: Seq<char>)
    ensures
        lists(definitions_in(listing, prefix), text) <==> lists(listing, text)
            && is_ron_file_under(text, prefix),
{
    lemma_definition_files(listing, prefix, text);
    law_extensions_follow_a_dot(text, "ron"@);
    reveal_strlit("ron");
    assert("ron"@ =~= seq!['r', 'o', 'n']);
    let ext = "ron"@;
    assert(ext[0] == 'r' && ext[1] == 'o' && ext[2] == 'n');
    assert(!ext.contains('.') && !ext.contains('/'));
    let n = text.len() as int;
    if path_extension(text) == Some(ext) {
        let end = text.skip(n - 3);
        assert(end[0] == text[n - 3] && end[1] == text[n - 2] && end[2] == text[n - 1]);
        assert(text.skip(n - 4) =~= seq!['.', 'r', 'o', 'n']);
    }
    if n >= 4 && text.skip(n - 4) == seq!['.', 'r', 'o', 'n'] {
        let end = text.skip(n - 4);
        assert(end[0] == text[n - 4] && end[1] == text[n - 3] && end[2] == text[n - 2] && end[3]
            == text[n - 1]);
        assert(text.skip(n - 3) =~= ext);
        assert(path_extension(text) == Some(ext));
        assert(text[n - 1] == 'n');
        assert(within(text, prefix) <==> (text == prefix || (text.len() > prefix.len()
            && text.take(prefix.len() as int) == prefix && text[prefix.len() as int] == '/')));
    }
}

proof fn lemma_definition_files(listing: Seq<VfsPath>, prefix: Seq<char>, text: Seq<char>)
    ensures
        lists(definitions_in(listing, prefix), text) <==> lists(listing, text) && is_definition(
            text,
            prefix,
        ),
    decreases listing.len(),
{
    let some = definitions_in(listing, prefix);
    if listing.len() > 0 {
        let front = listing.drop_last();
        let before = definitions_in(front, prefix);
        lemma_definition_files(front, prefix, text);
        if lists(listing, text) {
            let i = choose|i: int| 0 <= i < listing.len() && (#[trigger] listing[i])@ == text;
            if i < front.len() {
                assert(front[i]@ == text);
            } else if is_definition(text, prefix) {
                assert(some[some.len() - 1]@ == text);
            }
        }
        if lists(front, text) {
            let i = choose|i: int| 0 <= i < front.len() && (#[trigger] front[i])@ == text;
            assert(listing[i]@ == text);
        }
        if lists(before, text) {
            let i = choose|i: int| 0 <= i < before.len() && (#[trigger] before[i])@ == text;
            assert(some[i]@ == text);
        }
        if lists(some, text) {
            let i = choose|i: int| 0 <= i < some.len() && (#[trigger] some[i])@ == text;
            if i < before.len() {
                assert(before[i]@ == text);
            } else {
                assert(listing[listing.len() - 1]@ == text);
            }
        }
    }
}

/// The field at `k` is the first one named `id`.
pub open spec fn is_id_field(fields: Seq<FieldTexts>, k: int) -> bool {
    &&& 0 <= k < fields.len()
    &&& fields[k].0 == Some("id"@)
    &&& forall|i: int| 0 <= i < k ==> (#[trigger] fields[i]).0 != Some("id"@)
}

/// The id is the value of the first field of that name; there is none if no
/// field has the name.
pub proof fn law_first_id_counts(fields: Seq<FieldTexts>)
    ensures
        match id_text(fields) {
            Some(value) => exists|k: int| #[trigger] is_id_field(fields, k) && fields[k].1 == value,
            None => forall|i: int| 0 <= i < fields.len() ==> (#[trigger] fields[i]).0 != Some("id"@),
        },
    decreases fields.len(),
{
    if fields.len() > 0 {
        if fields[0].0 == Some("id"@) {
            assert(is_id_field(fields, 0));
        } else {
            let rest = fields.skip(1);
            law_first_id_counts(rest);
            match id_text(rest) {
                Some(value) => {
                    let k = choose|k: int| #[trigger] is_id_field(rest, k) && rest[k].1 == value;
                    assert forall|i: int| 0 <= i < k + 1 implies (#[trigger] fields[i]).0 != Some(
                        "id"@,
                    ) by {
                        if i > 0 {
                            assert(rest[i - 1] == fields[i]);
                        }
                    }
                    assert(is_id_field(fields, k + 1));
                },
                None => {
                    assert forall|i: int| 0 <= i < fields.len() implies (#[trigger] fields[i]).0
                        != Some("id"@) by {
                        if i > 0 {
                            assert(rest[i - 1] == fields[i]);
                        }
                    }
                },
            }
        }
    }
}

/// A file defines a kind if and only if it was read, is UTF-8 and RON, is a
/// struct with a first field `id`, and that is a string and a kind id. The kind
/// has that id, the file's path and the whole document.
pub proof fn law_files_define_what_they_hold(
    path: Seq<char>,
    answer: Result<Vec<u8>, AssetError>,
    def: KindDefView,
)
    ensures
        kind_of_file(path, answer) == Ok::<KindDefView, DefFault>(def) <==> {
            &&& def.source == path
            &&& answer matches Ok(bytes) && valid_utf8(bytes@) && ron_parse(decode_utf8(bytes@))
                == Ok::<ron::Value, ron::error::SpannedError>(def.value)
            &&& kind_id_error(def.id) is None
            &&& ron_entries(def.value) matches Some(entries) && exists|k: int| #[trigger]
                is_id_field(entry_texts(entries), k) && ron_string(entries[k].1) == Some(def.id)
        },
        match kind_of_file(path, answer) {
            Ok(_) => true,
            Err(DefFault::Read { path: at, error }) => at == path && answer == Err::<
                Vec<u8>,
                AssetError,
            >(error),
            Err(DefFault::NotUtf8 { path: at }) => at == path && (answer matches Ok(bytes)
                && !valid_utf8(bytes@)),
            Err(DefFault::Parse { path: at, error }) => at == path && (answer matches Ok(bytes)
                && ron_parse(decode_utf8(bytes@)) == Err::<ron::Value, ron::error::SpannedError>(
                error,
            )),
            Err(DefFault::NotAStruct { path: at }) => at == path && (answer matches Ok(bytes) && (
            ron_parse(decode_utf8(bytes@)) matches Ok(value) && ron_entries(value) is None)),
            Err(DefFault::MissingId { path: at }) => at == path && (answer matches Ok(bytes) && (
            ron_parse(decode_utf8(bytes@)) matches Ok(value) && (ron_entries(value) matches Some(
                entries,
            ) && forall|i: int|
                0 <= i < entries.len() ==> ron_string((#[trigger] entries[i]).0) != Some("id"@)))),
            Err(DefFault::IdNotAString { path: at }) => at == path && (answer matches Ok(bytes) && (
            ron_parse(decode_utf8(bytes@)) matches Ok(value) && (ron_entries(value) matches Some(
                entries,
            ) && exists|k: int| #[trigger]
                is_id_field(entry_texts(entries), k) && ron_string(entries[k].1) is None))),
            Err(DefFault::InvalidId { path: at, error }) => at == path && (answer matches Ok(
                bytes,
            ) && (ron_parse(decode_utf8(bytes@)) matches Ok(value) && (ron_entries(
                value,
            ) matches Some(entries) && exists|k: int| #[trigger]
                is_id_field(entry_texts(entries), k) && (ron_string(entries[k].1) matches Some(id)
                    && kind_id_error(id) == Some(error))))),
            Err(_) => false,
        },
{
    if let Ok(bytes) = answer {
        if valid_utf8(bytes@) {
            if let Ok(value) = ron_parse(decode_utf8(bytes@)) {
                if let Some(entries) = ron_entries(value) {
                    let texts = entry_texts(entries);
                    law_first_id_counts(texts);
                    assert forall|k: int| 0 <= k < entries.len() implies #[trigger] texts[k] == (
                        ron_string(entries[k].0),
                        ron_string(entries[k].1),
                    ) by {}
                    assert forall|i: int| 0 <= i < entries.len() implies texts[i].0 == ron_string(
                        (#[trigger] entries[i]).0,
                    ) by {}
                    assert forall|k: int, m: int| #[trigger]
                        is_id_field(texts, k) && #[trigger] is_id_field(texts, m) implies k == m by {
                        if k < m {
                            assert(texts[k].0 != Some("id"@));
                        }
                        if m < k {
                            assert(texts[m].0 != Some("id"@));
                        }
                    }
                    match id_text(texts) {
                        Some(found) => {
                            let k = choose|k: int| #[trigger]
                                is_id_field(texts, k) && texts[k].1 == found;
                            assert(ron_string(entries[k].1) == found);
                        },
                        None => {
                            assert forall|k: int| !#[trigger] is_id_field(texts, k) by {
                                if 0 <= k < texts.len() {
                                    assert(texts[k].0 != Some("id"@));
                                }
                            }
                        },
                    }
                }
            }
        }
    }
}

/// A load that fails does so at the first file that defines nothing, with its
/// fault, or that defines the id of an earlier file, with the paths of both.
pub proof fn law_loads_stop_at_the_first_fault(
    paths: Seq<VfsPath>,
    answers: Seq<Result<Vec<u8>, AssetError>>,
    fault: DefFault,
) -> (at: (int, int))
    requires
        answers.len() >= paths.len(),
        after_files(paths, answers) == Err::<Kinds, DefFault>(fault),
    ensures
        0 <= at.1 < paths.len(),
        forall|i: int|
            0 <= i < at.1 ==> kind_of_file((#[trigger] paths[i])@, answers[i]) is Ok,
        forall|i: int, j: int|
            #![trigger paths[i], paths[j]]
            0 <= i < j < at.1 ==> kind_of_file(paths[i]@, answers[i])->Ok_0.id != kind_of_file(
                paths[j]@,
                answers[j],
            )->Ok_0.id,
        match kind_of_file(paths[at.1]@, answers[at.1]) {
            Err(f) => f == fault,
            Ok(def) => {
                &&& 0 <= at.0 < at.1
                &&& kind_of_file(paths[at.0]@, answers[at.0])->Ok_0.id == def.id
                &&& fault == DefFault::Duplicate {
                    id: def.id,
                    first: paths[at.0]@,
                    second: paths[at.1]@,
                }
            },
        },
    decreases paths.len(),
{
    let front = paths.drop_last();
    let last = paths.len() - 1;
    assert forall|i: int| 0 <= i < last implies front[i] == #[trigger] paths[i] by {}
    if after_files(front, answers) is Err {
        let at = law_loads_stop_at_the_first_fault(front, answers, fault);
        assert forall|i: int| 0 <= i < at.1 implies kind_of_file(
            (#[trigger] paths[i])@,
            answers[i],
        ) is Ok by {
            assert(front[i] == paths[i]);
        }
        assert forall|i: int, j: int|
            #![trigger paths[i], paths[j]]
            0 <= i < j < at.1 implies kind_of_file(paths[i]@, answers[i])->Ok_0.id != kind_of_file(
            paths[j]@,
            answers[j],
        )->Ok_0.id by {
            assert(front[i] == paths[i] && front[j] == paths[j]);
        }
        at
    } else {
        let kinds = after_files(front, answers)->Ok_0;
        law_each_file_is_one_kind(front, answers);
        assert forall|i: int| 0 <= i < last implies kind_of_file(
            (#[trigger] paths[i])@,
            answers[i],
        ) is Ok by {
            assert(front[i] == paths[i]);
        }
        lemma_ids_differ(front, answers);
        assert forall|i: int, j: int|
            #![trigger paths[i], paths[j]]
            0 <= i < j < last implies kind_of_file(paths[i]@, answers[i])->Ok_0.id != kind_of_file(
            paths[j]@,
            answers[j],
        )->Ok_0.id by {
            assert(front[i] == paths[i] && front[j] == paths[j]);
        }
        match kind_of_file(paths[last]@, answers[last]) {
            Err(_) => (0, last),
            Ok(def) => {
                let first = lemma_id_has_a_file(front, answers, def.id);
                assert(front[first] == paths[first]);
                lemma_sources(front, answers, first);
                (first, last)
            },
        }
    }
}

proof fn lemma_sources(
    paths: Seq<VfsPath>,
    answers: Seq<Result<Vec<u8>, AssetError>>,
    k: int,
)
    requires
        answers.len() >= paths.len(),
        after_files(paths, answers) is Ok,
        0 <= k < paths.len(),
    ensures
        kind_of_file(paths[k]@, answers[k]) is Ok,
        after_files(paths, answers)->Ok_0[kind_of_file(paths[k]@, answers[k])->Ok_0.id].source
            == paths[k]@,
{
    law_each_file_is_one_kind(paths, answers);
    let file = paths[k];
}

proof fn lemma_ids_differ(paths: Seq<VfsPath>, answers: Seq<Result<Vec<u8>, AssetError>>)
    requires
        answers.len() >= paths.len(),
        after_files(paths, answers) is Ok,
    ensures
        forall|i: int, j: int|
            #![trigger paths[i], paths[j]]
            0 <= i < j < paths.len() ==> kind_of_file(paths[i]@, answers[i])->Ok_0.id
                != kind_of_file(paths[j]@, answers[j])->Ok_0.id,
    decreases paths.len(),
{
    if paths.len() > 0 {
        let front = paths.drop_last();
        lemma_ids_differ(front, answers);
        law_each_file_is_one_kind(front, answers);
        assert forall|i: int, j: int|
            #![trigger paths[i], paths[j]]
            0 <= i < j < paths.len() implies kind_of_file(paths[i]@, answers[i])->Ok_0.id
            != kind_of_file(paths[j]@, answers[j])->Ok_0.id by {
            assert(front[i] == paths[i]);
            if j < front.len() {
                assert(front[j] == paths[j]);
            } else {
                assert(paths[j] == paths.last());
            }
        }
    }
}

proof fn lemma_id_has_a_file(
    paths: Seq<VfsPath>,
    answers: Seq<Result<Vec<u8>, AssetError>>,
    id: Seq<char>,
) -> (k: int)
    requires
        answers.len() >= paths.len(),
        after_files(paths, answers) is Ok,
        after_files(paths, answers)->Ok_0.contains_key(id),
    ensures
        0 <= k < paths.len(),
        kind_of_file(paths[k]@, answers[k]) is Ok,
        kind_of_file(paths[k]@, answers[k])->Ok_0.id == id,
    decreases paths.len(),
{
    let front = paths.drop_last();
    let last = paths.len() - 1;
    if paths.len() == 0 {
        0
    } else if after_files(front, answers)->Ok_0.contains_key(id) {
        let k = lemma_id_has_a_file(front, answers, id);
        assert(front[k] == paths[k]);
        k
    } else {
        assert(paths[last] == paths.last());
        last
    }
}

} // verus!
