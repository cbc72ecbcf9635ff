//! Documents of the knowledge base: how they are named, who may see them, and
//! what is read of them.
pub mod walking;

use vstd::prelude::*;
use vstd::utf8::{decode_utf8, valid_utf8};

use crate::auth::AccessScope;
use crate::config::{DirectoriesModel, ScopeDirectories};
use crate::order::{ascending, strictly_ascending, TextSet};
use crate::scan::{
    before_text, join_texts, joined_by, pieces, split_text, strip_text_prefix, text_before,
    text_contains_char, text_ends_with, without_prefix,
};
use crate::text::{
    byte_len, chars_of, is_lower, is_upper, lower, same_text, text_between, text_bytes_len,
    text_from_utf8, text_option, texts, upper,
};

verus! {

#[derive(Debug, Clone, Copy, PartialEq, Eq, Structural)]
pub enum StoreError {
    NotFound,
    InvalidDocumentId,
    InvalidUtf8,
    InvalidQuery,
    SafeOpenUnavailable,
    Io,
}

impl StoreError {
    pub fn message(&self) -> (r: &'static str)
        ensures
            r@ == (match *self {
                StoreError::NotFound => "document was not found"@,
                StoreError::InvalidDocumentId => "document id is invalid"@,
                StoreError::InvalidUtf8 => "document is not valid UTF-8"@,
                StoreError::InvalidQuery => "query is invalid"@,
                StoreError::SafeOpenUnavailable => "safe file access is unavailable on this platform"@,
                StoreError::Io => "failed to access knowledge base"@,
            }),
    {
        match self {
            StoreError::NotFound => "document was not found",
            StoreError::InvalidDocumentId => "document id is invalid",
            StoreError::InvalidUtf8 => "document is not valid UTF-8",
            StoreError::InvalidQuery => "query is invalid",
            StoreError::SafeOpenUnavailable => "safe file access is unavailable on this platform",
            StoreError::Io => "failed to access knowledge base",
        }
    }
}

/// Whether a piece of a path between slashes names something. Empty pieces and
/// single dots lead nowhere.
pub open spec fn names_something() -> spec_fn(Seq<char>) -> bool {
    |piece: Seq<char>| piece.len() > 0 && piece != seq!['.']
}

/// The names that a path goes through.
pub open spec fn path_names(path: Seq<char>) -> Seq<Seq<char>> {
    pieces(path, '/').filter(names_something())
}

/// Whether a name is hidden. The name of the parent directory is.
pub open spec fn is_hidden(name: Seq<char>) -> bool {
    name.len() > 0 && name[0] == '.'
}

/// Whether a path begins with a drive letter.
pub open spec fn has_drive(path: Seq<char>) -> bool {
    path.len() >= 2 && (is_lower(path[0]) || is_upper(path[0])) && path[1] == ':'
}

/// Whether a text is the identifier of a document: a relative path of at most
/// 512 bytes to a Markdown file, through names none of which is hidden.
pub open spec fn is_document_id(value: Seq<char>) -> bool {
    &&& value.len() > 0
    &&& byte_len(value) <= 512
    &&& !value.contains('\0')
    &&& !value.contains('\\')
    &&& value[0] != '/'
    &&& value[0] != '.'
    &&& !has_drive(value)
    &&& path_names(value).len() > 0
    &&& forall|i: int|
        0 <= i < path_names(value).len() ==> !is_hidden(#[trigger] path_names(value)[i])
    &&& ".md"@.is_suffix_of(path_names(value).last())
}

/// The parent directory is no part of an identifier: an identifier does not
/// lead out of the knowledge base.
pub proof fn lemma_identifiers_stay_inside(value: Seq<char>, i: int)
    requires
        is_document_id(value),
        0 <= i < pieces(value, '/').len(),
    ensures
        pieces(value, '/')[i] != seq!['.', '.'],
        value[0] != '/',
{
    let all = pieces(value, '/');
    let piece = all[i];
    if piece == seq!['.', '.'] {
        assert(piece.len() == 2);
        assert(names_something()(piece)) by {
            assert(seq!['.'].len() == 1);
        }
        broadcast use vstd::seq_lib::group_filter_ensures;

        assert(all.contains(piece));
        assert(path_names(value).contains(piece));
        let j = choose|j: int| 0 <= j < path_names(value).len() && path_names(value)[j] == piece;
        assert(!is_hidden(path_names(value)[j]));
    }
}

/// The identifier of a document.
pub struct DocumentId(String);

impl View for DocumentId {
    type V = Seq<char>;

    closed spec fn view(&self) -> Seq<char> {
        self.0@
    }
}

/// The names of a path.
pub fn split_path(path: &str) -> (r: Vec<String>)
    ensures
        texts(r@) == path_names(path@),
{
    let all = split_text(path, '/');
    let ghost raw = texts(all@);
    let ghost keep = names_something();
    let mut out: Vec<String> = Vec::new();
    let mut i: usize = 0;
    proof {
        reveal(Seq::filter);
        assert(raw.take(0) =~= Seq::empty());
        assert(texts(out@) =~= Seq::empty());
    }
    while i < all.len()
        invariant
            i <= all@.len(),
            raw == texts(all@),
            keep == names_something(),
            texts(out@) == raw.take(i as int).filter(keep),
        decreases all@.len() - i,
    {
        let ghost before = texts(out@);
        proof {
            assert(raw.take(i + 1) =~= raw.take(i as int).push(raw[i as int]));
            raw.take(i as int).lemma_filter_push(raw[i as int], keep);
            assert(raw[i as int] == all@[i as int]@);
            reveal_strlit(".");
            assert("."@ =~= seq!['.']);
        }
        if !all[i].as_str().is_empty() && !same_text(all[i].as_str(), ".") {
            out.push(all[i].clone());
            proof {
                assert(texts(out@) =~= before.push(raw[i as int]));
            }
        }
        i = i + 1;
    }
    proof {
        assert(raw.take(raw.len() as int) =~= raw);
    }
    out
}

impl DocumentId {
    #[verifier::type_invariant]
    closed spec fn is_identifier(&self) -> bool {
        is_document_id(self.0@)
    }

    pub fn parse(value: &str) -> (r: Result<DocumentId, StoreError>)
        ensures
            match r {
                Ok(id) => is_document_id(value@) && id@ == value@,
                Err(error) => error is InvalidDocumentId && !is_document_id(value@),
            },
    {
        let chars = chars_of(value);
        if chars.is_empty() || text_bytes_len(value) > 512 || text_contains_char(value, '\0')
            || text_contains_char(value, '\\') || chars[0] == '/' || chars[0] == '.' {
            return Err(StoreError::InvalidDocumentId);
        }
        if chars.len() >= 2 && (lower(chars[0]) || upper(chars[0])) && chars[1] == ':' {
            return Err(StoreError::InvalidDocumentId);
        }
        let names = split_path(value);
        let ghost all = texts(names@);
        if names.is_empty() {
            return Err(StoreError::InvalidDocumentId);
        }
        let mut i: usize = 0;
        while i < names.len()
            invariant
                i <= names@.len(),
                all == texts(names@),
                all == path_names(value@),
                forall|j: int| 0 <= j < i ==> !is_hidden(#[trigger] all[j]),
            decreases names@.len() - i,
        {
            let name = chars_of(names[i].as_str());
            proof {
                assert(all[i as int] == name@);
            }
            if name.len() > 0 && name[0] == '.' {
                return Err(StoreError::InvalidDocumentId);
            }
            i = i + 1;
        }
        proof {
            assert(all.last() == names@[names@.len() - 1]@);
        }
        if !text_ends_with(names[names.len() - 1].as_str(), ".md") {
            return Err(StoreError::InvalidDocumentId);
        }
        Ok(DocumentId(value.to_owned()))
    }

    pub fn as_str(&self) -> (r: &str)
        ensures
            r@ == self@,
            is_document_id(self@),
    {
        proof {
            use_type_invariant(self);
        }
        self.0.as_str()
    }

    /// The path below the root of the knowledge base.
    pub fn path(&self) -> (r: &str)
        ensures
            r@ == self@,
            is_document_id(self@),
    {
        self.as_str()
    }

    /// The first name of the path.
    pub fn top_level(&self) -> (r: Option<String>)
        ensures
            r matches Some(name) && name@ == path_names(self@)[0] && path_names(self@).len() > 0,
    {
        proof {
            use_type_invariant(self);
        }
        let mut names = split_path(self.0.as_str());
        proof {
            assert(texts(names@)[0] == names@[0]@);
        }
        Some(names.swap_remove(0))
    }

    /// The name of the file without its extension.
    fn file_stem(&self) -> (r: String)
        ensures
            r@ == stem_of(self@),
    {
        proof {
            use_type_invariant(self);
        }
        let names = split_path(self.0.as_str());
        let last = chars_of(names[names.len() - 1].as_str());
        proof {
            reveal_strlit(".md");
            assert(texts(names@).last() == names@[names@.len() - 1]@);
            assert(last@ == path_names(self@).last());
            assert(last@.len() >= 3);
            assert(last@.subrange(0, last@.len() - 3) =~= last@.take(last@.len() - 3));
        }
        text_between(&last, 0, last.len() - 3)
    }

    pub fn copy(&self) -> (r: DocumentId)
        ensures
            r@ == self@,
    {
        proof {
            use_type_invariant(self);
        }
        DocumentId(self.0.clone())
    }
}

/// The name of a document's file without its extension.
pub open spec fn stem_of(id: Seq<char>) -> Seq<char> {
    let name = path_names(id).last();
    name.take(name.len() - 3)
}

pub struct DocumentMetadata {
    pub title: String,
    pub description: String,
    pub updated: Option<String>,
}

/// Metadata as mathematical values.
pub struct MetadataModel {
    pub title: Seq<char>,
    pub description: Seq<char>,
    pub updated: Option<Seq<char>>,
}

impl View for DocumentMetadata {
    type V = MetadataModel;

    open spec fn view(&self) -> MetadataModel {
        MetadataModel {
            title: self.title@,
            description: self.description@,
            updated: text_option(self.updated),
        }
    }
}

pub struct FetchedDocument {
    pub id: DocumentId,
    pub text: String,
    pub metadata: DocumentMetadata,
    pub truncated: bool,
}

/// A document as mathematical values.
pub struct DocumentModel {
    pub id: Seq<char>,
    pub text: Seq<char>,
    pub metadata: MetadataModel,
    pub truncated: bool,
}

impl View for FetchedDocument {
    type V = DocumentModel;

    open spec fn view(&self) -> DocumentModel {
        DocumentModel {
            id: self.id@,
            text: self.text@,
            metadata: self.metadata@,
            truncated: self.truncated,
        }
    }
}

/// What the front matter of a document says.
pub struct FrontMatter {
    pub title: Option<String>,
    pub description: Option<String>,
    pub updated: Option<String>,
}

/// The front matter of a text: what stands between a line of three dashes at its
/// front and the next such line.
pub open spec fn front_matter_of(text: Seq<char>) -> Option<Seq<char>> {
    match without_prefix(text, "---\n"@) {
        Some(rest) => before_text(rest, "\n---\n"@),
        None => None,
    }
}

pub fn front_matter_block(text: &str) -> (r: Option<String>)
    ensures
        text_option(r) == front_matter_of(text@),
{
    match strip_text_prefix(text, "---\n") {
        Some(rest) => text_before(rest.as_str(), "\n---\n"),
        None => None,
    }
}

/// The metadata of a document by its front matter; by its name alone where
/// there is none that could be read.
pub open spec fn metadata_by(id: Seq<char>, front_matter: Option<FrontMatter>) -> MetadataModel {
    match front_matter {
        Some(said) => MetadataModel {
            title: match said.title {
                Some(title) => title@,
                None => stem_of(id),
            },
            description: match said.description {
                Some(description) => description@,
                None => Seq::empty(),
            },
            updated: text_option(said.updated),
        },
        None => MetadataModel { title: stem_of(id), description: Seq::empty(), updated: None },
    }
}

/// Whether metadata are those of a document with this text, given how its front
/// matter reads.
pub open spec fn is_metadata<P: Fn(&str) -> Option<FrontMatter>>(
    parse: P,
    id: Seq<char>,
    text: Seq<char>,
    metadata: MetadataModel,
) -> bool {
    match front_matter_of(text) {
        Some(block) => exists|said: Option<FrontMatter>, source: &str|
            #![trigger call_ensures(parse, (source,), said)]
            source@ == block && call_ensures(parse, (source,), said) && metadata == metadata_by(
                id,
                said,
            ),
        None => metadata == metadata_by(id, None),
    }
}

/// The metadata of a document. `parse` reads front matter, and gives nothing
/// where it is malformed.
pub fn parse_metadata<P: Fn(&str) -> Option<FrontMatter>>(
    text: &str,
    id: &DocumentId,
    parse: &P,
) -> (r: DocumentMetadata)
    requires
        forall|block: &str| call_requires(*parse, (block,)),
    ensures
        is_metadata(*parse, id@, text@, r@),
{
    let fallback_title = id.file_stem();
    let said = match front_matter_block(text) {
        Some(block) => parse(block.as_str()),
        None => None,
    };
    assemble_metadata(fallback_title, said)
}

/// Metadata by front matter, with a title for where it has none.
pub fn assemble_metadata(fallback_title: String, front_matter: Option<FrontMatter>) -> (r:
    DocumentMetadata)
    ensures
        r@ == (match front_matter {
            Some(said) => MetadataModel {
                title: match said.title {
                    Some(title) => title@,
                    None => fallback_title@,
                },
                description: match said.description {
                    Some(description) => description@,
                    None => Seq::empty(),
                },
                updated: text_option(said.updated),
            },
            None => MetadataModel {
                title: fallback_title@,
                description: Seq::empty(),
                updated: None,
            },
        }),
{
    match front_matter {
        Some(said) => DocumentMetadata {
            title: match said.title {
                Some(title) => title,
                None => fallback_title,
            },
            description: match said.description {
                Some(description) => description,
                None => String::new(),
            },
            updated: said.updated,
        },
        None => DocumentMetadata {
            title: fallback_title,
            description: String::new(),
            updated: None,
        },
    }
}

/// The longest part at the front of some bytes that is valid UTF-8.
pub open spec fn longest_text(bytes: Seq<u8>) -> Seq<u8>
    decreases bytes.len(),
{
    if bytes.len() == 0 || valid_utf8(bytes) {
        bytes
    } else {
        longest_text(bytes.drop_last())
    }
}

/// The text of a file of which at most `max_bytes` are wanted, given its first
/// bytes, one more than that where there are as many; and whether it goes on.
pub open spec fn limited_text(bytes: Seq<u8>, max_bytes: nat) -> Option<(Seq<char>, bool)> {
    if bytes.len() > max_bytes {
        Some((decode_utf8(longest_text(bytes.take(max_bytes as int))), true))
    } else if valid_utf8(bytes) {
        Some((decode_utf8(bytes), false))
    } else {
        None
    }
}

proof fn lemma_empty_is_valid()
    ensures
        valid_utf8(Seq::<u8>::empty()),
{
    vstd::utf8::encode_utf8_valid_utf8(Seq::<char>::empty());
    assert(vstd::utf8::encode_utf8(Seq::<char>::empty()) =~= Seq::<u8>::empty());
}

pub fn read_utf8_limited(bytes: Vec<u8>, max_bytes: usize) -> (r: Result<
    (String, bool),
    StoreError,
>)
    ensures
        match r {
            Ok((text, truncated)) => limited_text(bytes@, max_bytes as nat) == Some(
                (text@, truncated),
            ),
            Err(error) => error is InvalidUtf8 && limited_text(bytes@, max_bytes as nat) is None,
        },
{
    if bytes.len() <= max_bytes {
        return match text_from_utf8(bytes) {
            Some(text) => {
                proof {
                    vstd::utf8::encode_utf8_decode_utf8(text@);
                }
                Ok((text, false))
            },
            None => Err(StoreError::InvalidUtf8),
        };
    }
    let ghost all = bytes@;
    let mut kept = bytes;
    kept.truncate(max_bytes);
    proof {
        assert(kept@ =~= all.take(max_bytes as int));
        lemma_empty_is_valid();
    }
    loop
        invariant
            all == bytes@,
            all.len() > max_bytes,
            valid_utf8(Seq::<u8>::empty()),
            longest_text(kept@) == longest_text(all.take(max_bytes as int)),
        decreases kept@.len(),
    {
        let copy = kept.clone();
        proof {
            assert(copy@ =~= kept@);
        }
        match text_from_utf8(copy) {
            Some(text) => {
                proof {
                    vstd::utf8::encode_utf8_decode_utf8(text@);
                }
                return Ok((text, true));
            },
            None => {
                proof {
                    assert(kept@.len() > 0) by {
                        if kept@.len() == 0 {
                            assert(kept@ =~= Seq::<u8>::empty());
                        }
                    }
                    assert(kept@.drop_last() =~= kept@.take(kept@.len() - 1));
                }
                let n: usize = kept.len() - 1;
                kept.truncate(n);
            },
        }
    }
}

/// Why a file could not be opened.
#[derive(Debug, Clone, Copy, PartialEq, Eq, Structural)]
pub enum OpenError {
    /// There is no such file.
    NotFound,
    /// A directory on the way is none.
    NotADirectory,
    /// There is a symbolic link on the way.
    Loop,
    /// The way leads out of the knowledge base.
    CrossDevice,
    Other,
}

/// What became of opening a file beneath the root, without following links, and
/// reading its first bytes.
pub enum FileOutcome {
    /// Files cannot be opened safely here.
    Unavailable,
    OpenFailed(OpenError),
    /// It was opened, but could not be looked at or read.
    ReadFailed,
    /// It is no regular file.
    NotRegular,
    /// Its first bytes, one more than are wanted where there are as many.
    Contents(Vec<u8>),
}

/// The error of a file that could not be opened: what a link or a missing
/// directory hides is not told from what is not there.
pub open spec fn open_error(error: OpenError) -> StoreError {
    if error is Other {
        StoreError::Io
    } else {
        StoreError::NotFound
    }
}

pub fn map_open_error(error: OpenError) -> (r: StoreError)
    ensures
        r == open_error(error),
{
    match error {
        OpenError::NotFound | OpenError::NotADirectory | OpenError::Loop
        | OpenError::CrossDevice => StoreError::NotFound,
        OpenError::Other => StoreError::Io,
    }
}

/// What is read of a file.
pub open spec fn file_text(file: FileOutcome, max_bytes: nat) -> Result<
    (Seq<char>, bool),
    StoreError,
> {
    match file {
        FileOutcome::Unavailable => Err(StoreError::SafeOpenUnavailable),
        FileOutcome::OpenFailed(error) => Err(open_error(error)),
        FileOutcome::ReadFailed => Err(StoreError::Io),
        FileOutcome::NotRegular => Err(StoreError::NotFound),
        FileOutcome::Contents(bytes) => match limited_text(bytes@, max_bytes) {
            Some(read) => Ok(read),
            None => Err(StoreError::InvalidUtf8),
        },
    }
}

/// The document that everybody sees.
pub const INDEX_ID: &'static str = "INDEX.md";

/// Whether a scope sees a document.
pub open spec fn is_visible(
    directories: DirectoriesModel,
    scope: AccessScope,
    id: Seq<char>,
) -> bool {
    ||| id == INDEX_ID@
    ||| directories.public.contains(path_names(id)[0])
    ||| scope is Private && directories.private.contains(path_names(id)[0])
}

/// The private scope sees whatever the other sees.
pub proof fn lemma_private_sees_all(directories: DirectoriesModel, id: Seq<char>)
    requires
        is_visible(directories, AccessScope::Tech, id),
    ensures
        is_visible(directories, AccessScope::Private, id),
{
}

/// What stands in a directory that is neither public nor private is seen by
/// nobody.
pub proof fn lemma_other_directories_are_hidden(
    directories: DirectoriesModel,
    scope: AccessScope,
    id: Seq<char>,
)
    requires
        id != INDEX_ID@,
        !directories.public.contains(path_names(id)[0]),
        !directories.private.contains(path_names(id)[0]),
    ensures
        !is_visible(directories, scope, id),
{
}

proof fn lemma_two_pieces(a: Seq<char>, b: Seq<char>)
    requires
        forall|i: int| 0 <= i < a.len() ==> a[i] != '/',
        forall|i: int| 0 <= i < b.len() ==> b[i] != '/',
    ensures
        pieces(a + seq!['/'] + b, '/') =~= seq![a, b],
    decreases b.len(),
{
    let path = a + seq!['/'] + b;
    if b.len() == 0 {
        assert(b =~= Seq::empty());
        assert(path.drop_last() =~= a);
        lemma_one_piece(a);
        assert(pieces(path, '/') =~= seq![a].push(Seq::<char>::empty()));
    } else {
        let shorter = b.drop_last();
        lemma_two_pieces(a, shorter);
        assert(path.drop_last() =~= a + seq!['/'] + shorter);
        let before = pieces(path.drop_last(), '/');
        assert(before == seq![a, shorter]);
        assert(path.last() == b.last());
        assert(before.drop_last() =~= seq![a]);
        assert(shorter.push(b.last()) =~= b);
        assert(pieces(path, '/') =~= seq![a].push(b));
    }
}

/// The first name of a path through a directory is that of the directory.
pub proof fn lemma_path_through(directory: Seq<char>, name: Seq<char>)
    requires
        directory.len() > 1,
        forall|i: int| 0 <= i < directory.len() ==> directory[i] != '/',
        name.len() > 1,
        forall|i: int| 0 <= i < name.len() ==> name[i] != '/',
    ensures
        path_names(directory + seq!['/'] + name) =~= seq![directory, name],
{
    lemma_two_pieces(directory, name);
    let keep = names_something();
    let all = seq![directory, name];
    let one = seq![directory];
    let none = Seq::<Seq<char>>::empty();
    reveal(Seq::filter);
    assert(all.drop_last() =~= one);
    assert(one.drop_last() =~= none);
    assert(none.filter(keep) =~= none);
    assert(seq!['.'].len() == 1);
    assert(keep(directory) && keep(name));
    assert(one.filter(keep) =~= one);
    assert(all.filter(keep) =~= all);
}

/// What was found where the root of the knowledge base should be.
pub enum RootOutcome {
    /// It could not be looked at or opened.
    Unavailable,
    NotADirectory,
    /// Its canonical path.
    Ready(String),
}

/// One thing found below a directory.
pub enum WalkEntry {
    /// It could not be looked at.
    Failed,
    /// It is no regular file.
    NotAFile,
    /// A file: the extension of its name, and the names that lead to it from the
    /// root, where it lies below it.
    File { extension: Option<String>, names: Option<Vec<String>> },
}

/// The document that an entry is, if it is one.
pub open spec fn entry_document(entry: WalkEntry) -> Result<Option<Seq<char>>, StoreError> {
    match entry {
        WalkEntry::Failed => Err(StoreError::Io),
        WalkEntry::NotAFile => Ok(None),
        WalkEntry::File { extension, names } => if text_option(extension) != Some("md"@) {
            Ok(None)
        } else {
            match names {
                None => Err(StoreError::NotFound),
                Some(names) => if is_document_id(joined_by(texts(names@), "/"@)) {
                    Ok(Some(joined_by(texts(names@), "/"@)))
                } else {
                    Err(StoreError::InvalidDocumentId)
                },
            }
        },
    }
}

/// The documents among entries, besides those that are known already; or the
/// first error.
pub open spec fn entry_documents(known: Set<Seq<char>>, entries: Seq<WalkEntry>) -> Result<
    Set<Seq<char>>,
    StoreError,
>
    decreases entries.len(),
{
    if entries.len() == 0 {
        Ok(known)
    } else {
        match entry_documents(known, entries.drop_last()) {
            Err(error) => Err(error),
            Ok(found) => match entry_document(entries.last()) {
                Err(error) => Err(error),
                Ok(None) => Ok(found),
                Ok(Some(id)) => Ok(found.insert(id)),
            },
        }
    }
}

/// The directories to walk through for a scope: the public ones, and for the
/// private scope the private ones.
pub open spec fn scope_roots(directories: DirectoriesModel, scope: AccessScope) -> Seq<Seq<char>> {
    ascending(directories.public) + (if scope is Private {
        ascending(directories.private)
    } else {
        Seq::empty()
    })
}

/// The documents that are searched.
pub open spec fn candidates(index_is_file: bool, entries: Seq<WalkEntry>) -> Result<
    Set<Seq<char>>,
    StoreError,
> {
    entry_documents(
        if index_is_file {
            Set::<Seq<char>>::empty().insert(INDEX_ID@)
        } else {
            Set::<Seq<char>>::empty()
        },
        entries,
    )
}

/// What was found below directories, in one list.
pub open spec fn gathered(found: Seq<Seq<WalkEntry>>) -> Seq<WalkEntry>
    decreases found.len(),
{
    if found.len() == 0 {
        Seq::empty()
    } else {
        gathered(found.drop_last()) + found.last()
    }
}

/// Whether walking through a directory can find these entries.
pub open spec fn is_walk<W: Fn(&str) -> Vec<WalkEntry>>(
    walk: W,
    directory: Seq<char>,
    entries: Seq<WalkEntry>,
) -> bool {
    exists|d: &str, list: Vec<WalkEntry>|
        d@ == directory && list@ == entries && #[trigger] call_ensures(walk, (d,), list)
}

/// Whether walking through directories, one after the other, can find these
/// entries.
pub open spec fn are_walks<W: Fn(&str) -> Vec<WalkEntry>>(
    walk: W,
    directories: Seq<Seq<char>>,
    found: Seq<Seq<WalkEntry>>,
) -> bool {
    found.len() == directories.len() && forall|i: int|
        0 <= i < found.len() ==> is_walk(walk, directories[i], #[trigger] found[i])
}

/// The identifiers of documents.
pub open spec fn id_texts(ids: Seq<DocumentId>) -> Seq<Seq<char>> {
    ids.map_values(|id: DocumentId| id@)
}

proof fn lemma_index_is_document()
    ensures
        is_document_id(INDEX_ID@),
        path_names(INDEX_ID@) =~= seq![INDEX_ID@],
{
    let id = INDEX_ID@;
    reveal_strlit("INDEX.md");
    reveal_strlit(".md");
    assert(id.len() == 8);
    assert forall|i: int| 0 <= i < id.len() implies id[i] as nat <= 127 by {}
    assert(vstd::utf8::is_ascii_chars(id));
    vstd::utf8::is_ascii_chars_encode_utf8(id);
    lemma_one_piece(id);
    reveal(Seq::filter);
    let all = seq![id];
    assert(all.drop_last() =~= Seq::empty());
    assert(all.drop_last().filter(names_something()) =~= Seq::empty());
    assert(names_something()(id)) by {
        assert(seq!['.'].len() == 1);
    }
    assert(path_names(id) =~= seq![id]);
    assert(id.subrange(id.len() - 3, id.len() as int) =~= ".md"@);
}

pub(crate) proof fn lemma_one_piece(path: Seq<char>)
    requires
        forall|i: int| 0 <= i < path.len() ==> path[i] != '/',
    ensures
        pieces(path, '/') =~= seq![path],
    decreases path.len(),
{
    if path.len() > 0 {
        let rest = path.drop_last();
        lemma_one_piece(rest);
        assert(pieces(rest, '/') == seq![rest]);
        assert(pieces(path, '/') =~= seq![rest.push(path.last())]);
        assert(rest.push(path.last()) =~= path);
    } else {
        assert(path =~= Seq::empty());
    }
}

/// The documents of a knowledge base and who may see them.
pub struct DocumentStore {
    root: String,
    scope_directories: ScopeDirectories,
    max_read_bytes: usize,
    max_search_file_bytes: usize,
}

/// A store as mathematical values.
pub struct StoreModel {
    pub root: Seq<char>,
    pub directories: DirectoriesModel,
    pub max_read_bytes: usize,
    pub max_search_file_bytes: usize,
}

impl View for DocumentStore {
    type V = StoreModel;

    closed spec fn view(&self) -> StoreModel {
        StoreModel {
            root: self.root@,
            directories: self.scope_directories@,
            max_read_bytes: self.max_read_bytes,
            max_search_file_bytes: self.max_search_file_bytes,
        }
    }
}

/// Whether an answer to a request for a document is the right one.
pub open spec fn is_reading<P: Fn(&str) -> Option<FrontMatter>>(
    parse: P,
    directories: DirectoriesModel,
    scope: AccessScope,
    id: Seq<char>,
    file: FileOutcome,
    max_bytes: nat,
    answer: Result<FetchedDocument, StoreError>,
) -> bool {
    if !is_visible(directories, scope, id) {
        answer == Err::<FetchedDocument, _>(StoreError::NotFound)
    } else {
        match (file_text(file, max_bytes), answer) {
            (Ok((text, truncated)), Ok(document)) => {
                &&& document@.id == id
                &&& document@.text == text
                &&& document@.truncated == truncated
                &&& is_metadata(parse, id, text, document@.metadata)
            },
            (Err(error), Err(given)) => given == error,
            _ => false,
        }
    }
}

/// A document that a scope does not see is answered as one that is not there.
pub proof fn lemma_hidden_is_not_found<P: Fn(&str) -> Option<FrontMatter>>(
    parse: P,
    directories: DirectoriesModel,
    scope: AccessScope,
    id: Seq<char>,
    file: FileOutcome,
    max_bytes: nat,
    hidden: Result<FetchedDocument, StoreError>,
    absent: Result<FetchedDocument, StoreError>,
)
    requires
        !is_visible(directories, scope, id),
        is_reading(parse, directories, scope, id, file, max_bytes, hidden),
        is_reading(
            parse,
            directories,
            AccessScope::Private,
            id,
            FileOutcome::OpenFailed(OpenError::NotFound),
            max_bytes,
            absent,
        ),
    ensures
        hidden == absent,
{
}

impl DocumentStore {
    pub fn new(
        root: RootOutcome,
        max_read_bytes: usize,
        max_search_file_bytes: usize,
        scope_directories: ScopeDirectories,
    ) -> (r: Result<DocumentStore, StoreError>)
        ensures
            match root {
                RootOutcome::Unavailable => r == Err::<DocumentStore, _>(StoreError::Io),
                RootOutcome::NotADirectory => r == Err::<DocumentStore, _>(StoreError::NotFound),
                RootOutcome::Ready(path) => r matches Ok(store) && store@ == (StoreModel {
                    root: path@,
                    directories: scope_directories@,
                    max_read_bytes,
                    max_search_file_bytes,
                }),
            },
    {
        match root {
            RootOutcome::Unavailable => Err(StoreError::Io),
            RootOutcome::NotADirectory => Err(StoreError::NotFound),
            RootOutcome::Ready(root) => Ok(
                DocumentStore { root, scope_directories, max_read_bytes, max_search_file_bytes },
            ),
        }
    }

    pub fn root(&self) -> (r: &str)
        ensures
            r@ == self@.root,
    {
        self.root.as_str()
    }

    pub fn max_read_bytes(&self) -> (r: usize)
        ensures
            r == self@.max_read_bytes,
    {
        self.max_read_bytes
    }

    pub fn max_search_file_bytes(&self) -> (r: usize)
        ensures
            r == self@.max_search_file_bytes,
    {
        self.max_search_file_bytes
    }

    pub fn is_allowed(&self, scope: AccessScope, id: &DocumentId) -> (r: bool)
        ensures
            r == is_visible(self@.directories, scope, id@),
    {
        if same_text(id.as_str(), INDEX_ID) {
            return true;
        }
        match id.top_level() {
            Some(directory) => self.scope_directories.allows_public(directory.as_str()) || (
            scope.allows_private() && self.scope_directories.allows_private(directory.as_str())),
            None => false,
        }
    }

    /// Reads a document, given what became of opening its file. The file is
    /// opened only where `is_allowed` says so.
    pub fn read<P: Fn(&str) -> Option<FrontMatter>>(
        &self,
        scope: AccessScope,
        id: &DocumentId,
        file: FileOutcome,
        parse: &P,
    ) -> (r: Result<FetchedDocument, StoreError>)
        requires
            forall|block: &str| call_requires(*parse, (block,)),
        ensures
            is_reading(
                *parse,
                self@.directories,
                scope,
                id@,
                file,
                self@.max_read_bytes as nat,
                r,
            ),
    {
        self.read_limited(scope, id, file, self.max_read_bytes, parse)
    }

    /// Reads a document to search it.
    pub fn read_for_search<P: Fn(&str) -> Option<FrontMatter>>(
        &self,
        scope: AccessScope,
        id: &DocumentId,
        file: FileOutcome,
        parse: &P,
    ) -> (r: Result<FetchedDocument, StoreError>)
        requires
            forall|block: &str| call_requires(*parse, (block,)),
        ensures
            is_reading(
                *parse,
                self@.directories,
                scope,
                id@,
                file,
                self@.max_search_file_bytes as nat,
                r,
            ),
    {
        self.read_limited(scope, id, file, self.max_search_file_bytes, parse)
    }

    fn read_limited<P: Fn(&str) -> Option<FrontMatter>>(
        &self,
        scope: AccessScope,
        id: &DocumentId,
        file: FileOutcome,
        max_bytes: usize,
        parse: &P,
    ) -> (r: Result<FetchedDocument, StoreError>)
        requires
            forall|block: &str| call_requires(*parse, (block,)),
        ensures
            is_reading(*parse, self@.directories, scope, id@, file, max_bytes as nat, r),
    {
        if !self.is_allowed(scope, id) {
            return Err(StoreError::NotFound);
        }
        let bytes = match file {
            FileOutcome::Unavailable => {
                return Err(StoreError::SafeOpenUnavailable);
            },
            FileOutcome::OpenFailed(error) => {
                return Err(map_open_error(error));
            },
            FileOutcome::ReadFailed => {
                return Err(StoreError::Io);
            },
            FileOutcome::NotRegular => {
                return Err(StoreError::NotFound);
            },
            FileOutcome::Contents(bytes) => bytes,
        };
        let (text, truncated) = read_utf8_limited(bytes, max_bytes)?;
        let metadata = parse_metadata(text.as_str(), id, parse);
        Ok(FetchedDocument { id: id.copy(), text, metadata, truncated })
    }

    /// The directories to walk through for a scope.
    pub fn search_roots(&self, scope: AccessScope) -> (r: Vec<String>)
        ensures
            texts(r@) == scope_roots(self@.directories, scope),
            forall|i: int|
                0 <= i < r@.len() ==> self@.directories.public.contains((#[trigger] r@[i])@) || (
                scope is Private && self@.directories.private.contains(r@[i]@)),
    {
        let public = self.scope_directories.public_directories();
        let mut out = crate::text::clone_texts(public);
        proof {
            assert forall|i: int| 0 <= i < out@.len() implies self@.directories.public.contains(
                (#[trigger] out@[i])@,
            ) by {
                assert(texts(public@)[i] == out@[i]@);
                assert(texts(public@).to_set().contains(out@[i]@));
            }
        }
        if scope.allows_private() {
            let private = self.scope_directories.private_directories();
            let mut more = crate::text::clone_texts(private);
            let ghost before = out@;
            let ghost added = more@;
            out.append(&mut more);
            proof {
                assert(texts(out@) =~= texts(before) + texts(added));
                assert forall|i: int| 0 <= i < out@.len() implies self@.directories.public.contains(
                    (#[trigger] out@[i])@,
                ) || self@.directories.private.contains(out@[i]@) by {
                    if i >= before.len() {
                        assert(out@[i] == added[i - before.len()]);
                        assert(texts(private@)[i - before.len()] == out@[i]@);
                        assert(texts(private@).to_set().contains(out@[i]@));
                    } else {
                        assert(out@[i] == before[i]);
                    }
                }
            }
        } else {
            proof {
                assert(texts(out@) =~= ascending(self@.directories.public) + Seq::empty());
            }
        }
        out
    }

    /// The documents to search for a scope, in ascending order, given whether the
    /// index is a file and how the files below a directory are found.
    pub fn candidate_ids<W: Fn(&str) -> Vec<WalkEntry>>(
        &self,
        scope: AccessScope,
        index_is_file: bool,
        walk: &W,
    ) -> (r: Result<Vec<DocumentId>, StoreError>)
        requires
            forall|directory: &str| call_requires(*walk, (directory,)),
        ensures
            exists|found: Seq<Seq<WalkEntry>>|
                {
                    &&& #[trigger] are_walks(
                        *walk,
                        scope_roots(self@.directories, scope),
                        found,
                    )
                    &&& match r {
                        Ok(ids) => candidates(index_is_file, gathered(found)) matches Ok(all)
                            && id_texts(ids@) == ascending(all) && id_texts(ids@).to_set() == all
                            && strictly_ascending(id_texts(ids@)),
                        Err(error) => candidates(index_is_file, gathered(found)) == Err::<
                            Set<Seq<char>>,
                            _,
                        >(error),
                    }
                },
    {
        let roots = self.search_roots(scope);
        let mut entries: Vec<WalkEntry> = Vec::new();
        let ghost mut found: Seq<Seq<WalkEntry>> = Seq::empty();
        let ghost wanted = scope_roots(self@.directories, scope);
        let mut i: usize = 0;
        while i < roots.len()
            invariant
                i <= roots@.len(),
                wanted == texts(roots@),
                forall|directory: &str| call_requires(*walk, (directory,)),
                found.len() == i,
                forall|j: int| 0 <= j < i ==> is_walk(*walk, wanted[j], #[trigger] found[j]),
                entries@ == gathered(found),
            decreases roots@.len() - i,
        {
            let mut more = walk(roots[i].as_str());
            let ghost list = more;
            let ghost before = found;
            proof {
                assert(wanted[i as int] == roots@[i as int]@);
                assert(is_walk(*walk, wanted[i as int], list@));
                found = found.push(list@);
                assert(found.drop_last() =~= before);
                assert forall|j: int| 0 <= j < i + 1 implies is_walk(
                    *walk,
                    wanted[j],
                    #[trigger] found[j],
                ) by {
                    if j < i {
                        assert(found[j] == before[j]);
                    }
                }
            }
            entries.append(&mut more);
            i = i + 1;
        }
        proof {
            assert(are_walks(*walk, wanted, found));
        }
        self.candidates_among(index_is_file, &entries)
    }

    /// The documents among entries that were found, and the index where it is a
    /// file, in ascending order.
    pub fn candidates_among(&self, index_is_file: bool, entries: &Vec<WalkEntry>) -> (r: Result<
        Vec<DocumentId>,
        StoreError,
    >)
        ensures
            match r {
                Ok(ids) => candidates(index_is_file, entries@) matches Ok(found) && id_texts(ids@)
                    == ascending(found) && id_texts(ids@).to_set() == found
                    && strictly_ascending(id_texts(ids@)),
                Err(error) => candidates(index_is_file, entries@) == Err::<Set<Seq<char>>, _>(
                    error,
                ),
            },
    {
        let mut found = TextSet::new();
        proof {
            lemma_index_is_document();
        }
        if index_is_file {
            found = found.with(INDEX_ID.to_owned());
        }
        let ghost known = found@;
        let mut i: usize = 0;
        proof {
            assert(entries@.take(0) =~= Seq::empty());
        }
        while i < entries.len()
            invariant
                i <= entries@.len(),
                candidates(index_is_file, entries@) == entry_documents(known, entries@),
                entry_documents(known, entries@.take(i as int)) == Ok::<_, StoreError>(found@),
                forall|s: Seq<char>| #[trigger] found@.contains(s) ==> is_document_id(s),
            decreases entries@.len() - i,
        {
            proof {
                assert(entries@.take(i + 1).drop_last() =~= entries@.take(i as int));
                assert(entries@.take(i + 1).last() == entries@[i as int]);
            }
            match entry_id(&entries[i]) {
                Ok(Some(id)) => {
                    found = found.with(id);
                },
                Ok(None) => {},
                Err(error) => {
                    proof {
                        lemma_first_error(known, entries@, i as int, error);
                    }
                    return Err(error);
                },
            }
            i = i + 1;
        }
        proof {
            assert(entries@.take(entries@.len() as int) =~= entries@);
        }
        let list = found.items();
        let ghost all = texts(list@);
        let mut ids: Vec<DocumentId> = Vec::new();
        let mut k: usize = 0;
        while k < list.len()
            invariant
                k <= list@.len(),
                all == texts(list@),
                all.to_set() == found@,
                forall|s: Seq<char>| #[trigger] found@.contains(s) ==> is_document_id(s),
                id_texts(ids@) == all.take(k as int),
            decreases list@.len() - k,
        {
            let ghost before = id_texts(ids@);
            proof {
                assert(all[k as int] == list@[k as int]@);
                assert(all.to_set().contains(all[k as int]));
            }
            let id = DocumentId(list[k].clone());
            ids.push(id);
            proof {
                assert(id_texts(ids@) =~= before.push(all[k as int]));
                assert(all.take(k + 1) =~= all.take(k as int).push(all[k as int]));
            }
            k = k + 1;
        }
        proof {
            assert(all.take(all.len() as int) =~= all);
        }
        Ok(ids)
    }
}

/// The document that an entry is, if it is one.
fn entry_id(entry: &WalkEntry) -> (r: Result<Option<String>, StoreError>)
    ensures
        match r {
            Ok(id) => entry_document(*entry) == Ok::<_, StoreError>(text_option(id)) && (
            id matches Some(id) ==> is_document_id(id@)),
            Err(error) => entry_document(*entry) == Err::<Option<Seq<char>>, _>(error),
        },
{
    match entry {
        WalkEntry::Failed => Err(StoreError::Io),
        WalkEntry::NotAFile => Ok(None),
        WalkEntry::File { extension, names } => {
            let markdown = match extension {
                Some(extension) => same_text(extension.as_str(), "md"),
                None => false,
            };
            if !markdown {
                return Ok(None);
            }
            match names {
                None => Err(StoreError::NotFound),
                Some(names) => {
                    let path = join_texts(names, 0, names.len(), "/");
                    proof {
                        assert(texts(names@).subrange(0, names@.len() as int) =~= texts(names@));
                    }
                    match DocumentId::parse(path.as_str()) {
                        Ok(_) => Ok(Some(path)),
                        Err(error) => Err(error),
                    }
                },
            }
        },
    }
}

proof fn lemma_first_error(
    known: Set<Seq<char>>,
    entries: Seq<WalkEntry>,
    i: int,
    error: StoreError,
)
    requires
        0 <= i < entries.len(),
        entry_documents(known, entries.take(i)) is Ok,
        entry_document(entries[i]) == Err::<Option<Seq<char>>, _>(error),
    ensures
        entry_documents(known, entries) == Err::<Set<Seq<char>>, _>(error),
    decreases entries.len(),
{
    let rest = entries.drop_last();
    if i == entries.len() - 1 {
        assert(entries.take(i) =~= rest);
    } else {
        assert(rest.take(i) =~= entries.take(i));
        lemma_first_error(known, rest, i, error);
    }
}

} // verus!
