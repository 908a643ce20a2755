//! A document with front matter, and what is read from and written to it.

use crate::arrange::{
    arranged, insertion_index, lemma_arranged_dense, lemma_stable_sorted_len,
    lemma_values_of_swapped, lemma_values_of_with_values, renumbered_pages, sorts_before,
    stable_sorted, swapped_pages, toggled_pages, values_of,
};
use crate::front_matter::{
    emit, field_of, is_mapping, parse_front_matter, parsed_front_matter, remove_entry,
    scan_error_message, set_integer, yaml_document, yaml_entries, yaml_field, yaml_is_mapping,
    Field,
};
use crate::order::{
    dense, last_ordered_before, lemma_insertion_value_is_rank, lemma_rank_monotonic,
    lemma_swapped_dense, lemma_toggled_dense, rank, toggled,
};
use crate::text::{body_of, find_body_start, HYPHEN, LINE_FEED};
use vstd::prelude::*;
use vstd::string::StrSliceExecFns;
use vstd::string::StringSliceAdditionalSpecFns;

verus! {

/// A document: a file with a front-matter block.
///
/// The ordering value is changed first; `substitute_value` then carries it
/// into the front matter.
#[derive(Debug)]
pub struct Page {
    /// Where the file is.
    path: String,
    /// The name of the file, for display.
    file_name: String,
    /// The directory that holds the file, for display.
    directory: String,
    /// The front matter.
    yaml: yaml_rust::Yaml,
    /// The ordering value.
    value: Option<i64>,
    /// The ordering value that the file held when it was read.
    value_old: Option<i64>,
    /// The title that the front matter gives, for display.
    title: Option<String>,
}

/// What a `Page` stands for.
pub struct PageView {
    /// Where the file is.
    pub path: Seq<char>,
    /// The name of the file.
    pub file_name: Seq<char>,
    /// The directory that holds the file.
    pub directory: Seq<char>,
    /// The front matter.
    pub front: yaml_rust::Yaml,
    /// The ordering value: `None` for a document outside the ordered subset.
    pub value: Option<int>,
    /// The ordering value that the file held when it was read.
    pub stored: Option<int>,
    /// The title that the front matter gives.
    pub title: Option<Seq<char>>,
}

/// Why a document was not taken up.
#[derive(Debug, PartialEq, Eq)]
pub enum PageError {
    /// The document has no front matter. Holds the document's path.
    NoFrontMatter(String),
    /// The ordering key of the document holds something other than an
    /// integer. Holds the document's path.
    NoIntegerKey(String),
    /// The front matter of the document is not YAML. Holds the message of the
    /// YAML parser.
    Other(String),
    /// The front matter of the document could not be printed. Holds the
    /// document's path.
    SerializationFailure(String),
}

/// The key under which a front matter gives the document's title.
pub open spec fn title_key() -> Seq<char> {
    "title"@
}

/// The ordering value that a document with `field` under the ordering key is
/// read with: the integer, or none where the key is missing or null. `None`
/// where the document is refused.
pub open spec fn value_read(field: Field) -> Option<Option<int>> {
    match field {
        Field::Integer(v) => Some(Some(v as int)),
        Field::Absent => Some(None),
        Field::Null => Some(None),
        _ => None,
    }
}

/// The title that a document with `field` under the title key is read with.
pub open spec fn title_read(field: Field) -> Option<Seq<char>> {
    match field {
        Field::Text(s) => Some(s@),
        _ => None,
    }
}

/// The lines that stand between the printed front matter and the body: the
/// line break that ends the front matter, and the closing delimiter line.
pub open spec fn closing_delimiter() -> Seq<u8> {
    seq![LINE_FEED, HYPHEN, HYPHEN, HYPHEN, LINE_FEED]
}

impl View for Page {
    type V = PageView;

    closed spec fn view(&self) -> PageView {
        PageView {
            path: self.path@,
            file_name: self.file_name@,
            directory: self.directory@,
            front: self.yaml,
            value: as_int(self.value),
            stored: as_int(self.value_old),
            title: match self.title {
                Some(t) => Some(t@),
                None => None,
            },
        }
    }
}

impl PageView {
    /// The page as it is read from the front matter `front` of `file`, or
    /// `None` where the ordering key holds something other than an integer.
    pub open spec fn read(file: SourceFile, front: yaml_rust::Yaml, key: Seq<char>) -> Option<
        PageView,
    > {
        match value_read(field_of(front, key)) {
            Some(value) => Some(
                PageView {
                    path: file.path@,
                    file_name: file.file_name@,
                    directory: file.directory@,
                    front,
                    value,
                    stored: value,
                    title: title_read(field_of(front, title_key())),
                },
            ),
            None => None,
        }
    }

    /// Whether the front matter is a mapping, into which an ordering value can
    /// be written.
    pub open spec fn is_mapping(self) -> bool {
        yaml_is_mapping(self.front)
    }

    /// Whether the ordering value differs from the one that the file holds.
    pub open spec fn changed(self) -> bool {
        self.value != self.stored
    }

    /// Whether `self` is `other` with another front matter, whose entries are
    /// those of `other` but for the ordering key, which holds the ordering
    /// value, or nothing where there is none.
    pub open spec fn is_substituted(self, other: PageView, key: Seq<char>) -> bool {
        &&& self.path == other.path
        &&& self.file_name == other.file_name
        &&& self.directory == other.directory
        &&& self.value == other.value
        &&& self.stored == other.stored
        &&& self.title == other.title
        &&& yaml_is_mapping(self.front)
        &&& yaml_entries(self.front) == match other.value {
            Some(v) => yaml_entries(other.front).insert(key, Field::Integer(v as i64)),
            None => yaml_entries(other.front).remove(key),
        }
    }
}

impl Page {
    /// Reads a document from its text.
    ///
    /// The text is parsed for a front matter, and the ordering value is taken
    /// from the entry under `key`.
    pub fn try_new(file: &SourceFile, key: &str) -> (r: Result<Page, PageError>)
        ensures
            Self::taken_up(r, *file, parsed_front_matter(file.text@), key@),
    {
        let parsed = parse_front_matter(file.text.as_str());
        Self::from_front_matter(file, parsed, key)
    }

    /// Whether `r` is what becomes of `file`, whose text was parsed to
    /// `parsed`.
    ///
    /// A document without front matter is refused as such, so that a caller can
    /// pass over it. One whose ordering key holds an integer is taken up with
    /// that value, one whose key is missing or null without a value. Any other
    /// content of the key is refused, and so is a front matter that is not
    /// YAML.
    pub open spec fn taken_up(
        r: Result<Page, PageError>,
        file: SourceFile,
        parsed: Result<Option<yaml_rust::Yaml>, yaml_rust::ScanError>,
        key: Seq<char>,
    ) -> bool {
        match parsed {
            Err(_) => r matches Err(PageError::Other(_)),
            Ok(None) => r matches Err(PageError::NoFrontMatter(p)) && p@ == file.path@,
            Ok(Some(front)) => match PageView::read(file, front, key) {
                Some(view) => r matches Ok(page) && page@ == view,
                None => r matches Err(PageError::NoIntegerKey(p)) && p@ == file.path@,
            },
        }
    }

    /// Makes a document of the front matter that was parsed from its text.
    pub fn from_front_matter(
        file: &SourceFile,
        parsed: Result<Option<yaml_rust::Yaml>, yaml_rust::ScanError>,
        key: &str,
    ) -> (r: Result<Page, PageError>)
        ensures
            Self::taken_up(r, *file, parsed, key@),
    {
        match parsed {
            Err(error) => Err(PageError::Other(scan_error_message(&error))),
            Ok(None) => Err(PageError::NoFrontMatter(file.path.clone())),
            Ok(Some(yaml)) => {
                let ordering = yaml_field(&yaml, key);
                let title = yaml_field(&yaml, "title");
                Self::with_fields(file, yaml, ordering, title)
            },
        }
    }

    /// Makes a document of its front matter and of what the front matter
    /// holds under the ordering key and under the title key.
    ///
    /// An integer under the ordering key is the ordering value; a missing or
    /// null entry leaves the document unordered; anything else is refused. A
    /// string under the title key is the title.
    pub fn with_fields(file: &SourceFile, yaml: yaml_rust::Yaml, ordering: Field, title: Field) -> (r:
        Result<Page, PageError>)
        ensures
            match value_read(ordering) {
                Some(value) => r matches Ok(page) && page@ == (PageView {
                    path: file.path@,
                    file_name: file.file_name@,
                    directory: file.directory@,
                    front: yaml,
                    value,
                    stored: value,
                    title: title_read(title),
                }),
                None => r matches Err(PageError::NoIntegerKey(p)) && p@ == file.path@,
            },
    {
        let value = match ordering {
            Field::Integer(x) => Some(x),
            Field::Absent => None,
            Field::Null => None,
            _ => {
                return Err(PageError::NoIntegerKey(file.path.clone()));
            },
        };
        let title = match title {
            Field::Text(x) => Some(x),
            _ => None,
        };
        Ok(
            Page {
                path: file.path.clone(),
                file_name: file.file_name.clone(),
                directory: file.directory.clone(),
                yaml,
                value,
                value_old: value,
                title,
            },
        )
    }

    /// Where the file is.
    pub fn path(&self) -> (r: &String)
        ensures
            r@ == self@.path,
    {
        &self.path
    }

    /// The name of the file.
    pub fn file_name(&self) -> (r: &String)
        ensures
            r@ == self@.file_name,
    {
        &self.file_name
    }

    /// The directory that holds the file.
    pub fn directory(&self) -> (r: &String)
        ensures
            r@ == self@.directory,
    {
        &self.directory
    }

    /// The front matter.
    pub fn yaml(&self) -> (r: &yaml_rust::Yaml)
        ensures
            *r == self@.front,
    {
        &self.yaml
    }

    /// The ordering value.
    pub fn value(&self) -> (r: Option<i64>)
        ensures
            as_int(r) == self@.value,
    {
        self.value
    }

    /// The ordering value that the file held when it was read.
    pub fn value_old(&self) -> (r: Option<i64>)
        ensures
            as_int(r) == self@.stored,
    {
        self.value_old
    }

    /// The title that the front matter gives.
    pub fn title(&self) -> (r: &Option<String>)
        ensures
            match *r {
                Some(title) => self@.title == Some(title@),
                None => self@.title is None,
            },
    {
        &self.title
    }

    /// Tells whether the front matter is a mapping.
    pub fn has_mapping(&self) -> (r: bool)
        ensures
            r == self@.is_mapping(),
    {
        is_mapping(&self.yaml)
    }

    /// Writes the ordering value into the front matter: under `key` where
    /// there is a value, and no entry under `key` where there is none.
    pub fn substitute_value(&mut self, key: &str)
        requires
            old(self)@.is_mapping(),
        ensures
            final(self)@.is_substituted(old(self)@, key@),
    {
        match self.value {
            Some(value) => {
                set_integer(&mut self.yaml, key, value);
            },
            None => {
                remove_entry(&mut self.yaml, key);
            },
        }
    }

    /// Tells whether the file has to be written again: whether the ordering
    /// value differs from the one that the file holds.
    pub fn needs_rewrite(&self) -> (r: bool)
        ensures
            r == self@.changed(),
    {
        match (self.value, self.value_old) {
            (Some(a), Some(b)) => a != b,
            (None, None) => false,
            _ => true,
        }
    }

    /// What to write over the file, whose content is `existing`: nothing where
    /// the ordering value is the one that the file holds. Otherwise the front
    /// matter as it is printed, a line with the closing delimiter, and the body
    /// of `existing`, byte for byte.
    pub fn overwrite_frontmatter(&self, existing: &[u8]) -> (r: Result<Option<Vec<u8>>, PageError>)
        ensures
            Self::written_over(r, self@, yaml_document(self@.front), existing@),
    {
        if !self.needs_rewrite() {
            return Ok(None);
        }
        match emit(&self.yaml) {
            Ok(document) => Ok(Some(Self::new_file_content(document.as_str(), existing))),
            Err(_) => Err(PageError::SerializationFailure(self.path.clone())),
        }
    }

    /// Whether `r` is what is written over the file of `page`, where the
    /// front matter of `page` is printed as `document` and the file holds
    /// `existing`.
    pub open spec fn written_over(
        r: Result<Option<Vec<u8>>, PageError>,
        page: PageView,
        document: Option<Seq<char>>,
        existing: Seq<u8>,
    ) -> bool {
        if !page.changed() {
            r == Ok::<Option<Vec<u8>>, PageError>(None)
        } else {
            match document {
                Some(text) => r matches Ok(Some(content)) && content@ == Self::file_content(
                    text,
                    existing,
                ),
                None => r matches Err(PageError::SerializationFailure(p)) && p@ == page.path,
            }
        }
    }

    /// The content of a file whose front matter is printed as `document` and
    /// whose body is that of `existing`.
    pub open spec fn file_content(document: Seq<char>, existing: Seq<u8>) -> Seq<u8> {
        vstd::utf8::encode_utf8(document) + closing_delimiter() + body_of(existing)
    }

    /// Joins a printed front matter, the closing delimiter and the body of
    /// `existing`.
    pub fn new_file_content(document: &str, existing: &[u8]) -> (r: Vec<u8>)
        ensures
            r@ == Self::file_content(document@, existing@),
    {
        let mut content = document.as_bytes_vec();
        content.push(LINE_FEED);
        content.push(HYPHEN);
        content.push(HYPHEN);
        content.push(HYPHEN);
        content.push(LINE_FEED);
        let ghost head = content@;
        assert(head == document.spec_bytes() + closing_delimiter());
        let start = find_body_start(existing);
        let n = existing.len();
        let mut i = start;
        while i < n
            invariant
                start <= i <= n,
                n == existing.len(),
                content@ == head + existing@.subrange(start as int, i as int),
            decreases n - i,
        {
            content.push(existing[i]);
            i += 1;
        }
        assert(existing@.subrange(start as int, n as int) == existing@.skip(start as int));
        content
    }
}

/// A file as it was found: where it is, and what it holds.
#[derive(Debug, PartialEq, Eq)]
pub struct SourceFile {
    /// Where the file is.
    pub path: String,
    /// The name of the file, the last part of the path.
    pub file_name: String,
    /// The directory that holds the file, the path without the name.
    pub directory: String,
    /// The text of the file.
    pub text: String,
}

/// The direction of a swap: with the document before, or with the one behind.
#[derive(Clone, Copy, Debug, PartialEq, Eq)]
pub enum SwapDirection {
    Prev,
    Next,
}

/// Why an edit of the ordering was refused.
#[derive(Clone, Copy, Debug, PartialEq, Eq)]
pub enum OrderError {
    /// No document stands at the position. Holds the position.
    IndexOutOfRange(usize),
    /// The document has no neighbour in the direction.
    NoSuchNeighbor(SwapDirection),
}

/// What becomes of a file when a list is loaded.
pub enum Outcome {
    /// The file is taken up as a document.
    Loaded(PageView),
    /// The file has no front matter, and is passed over.
    Skipped,
    /// The file is refused, and with it the whole load.
    Refused,
}

/// What becomes of `file` in a list with the ordering key `key`.
pub open spec fn outcome_of(file: SourceFile, key: Seq<char>) -> Outcome {
    match parsed_front_matter(file.text@) {
        Err(_) => Outcome::Refused,
        Ok(None) => Outcome::Skipped,
        Ok(Some(front)) => match PageView::read(file, front, key) {
            Some(view) => Outcome::Loaded(view),
            None => Outcome::Refused,
        },
    }
}

/// The documents that `files` give, in the order of the files.
pub open spec fn loaded_pages(files: Seq<SourceFile>, key: Seq<char>) -> Seq<PageView>
    decreases files.len(),
{
    if files.len() == 0 {
        Seq::empty()
    } else {
        let rest = loaded_pages(files.drop_last(), key);
        match outcome_of(files.last(), key) {
            Outcome::Loaded(view) => rest.push(view),
            _ => rest,
        }
    }
}

/// Whether `i` is the first of `files` that is refused.
pub open spec fn is_first_refused(files: Seq<SourceFile>, key: Seq<char>, i: int) -> bool {
    &&& 0 <= i < files.len()
    &&& outcome_of(files[i], key) is Refused
    &&& forall|j: int| 0 <= j < i ==> !(outcome_of(#[trigger] files[j], key) is Refused)
}

/// Whether none of `files` is refused.
pub open spec fn all_accepted(files: Seq<SourceFile>, key: Seq<char>) -> bool {
    forall|i: int| 0 <= i < files.len() ==> !(outcome_of(#[trigger] files[i], key) is Refused)
}

/// Whether a load of `files` fails with `error`: with the error of the first
/// file that is refused.
pub open spec fn load_fails_with(files: Seq<SourceFile>, key: Seq<char>, error: PageError) -> bool {
    exists|i: int|
        is_first_refused(files, key, i) && Page::taken_up(
            Err(error),
            #[trigger] files[i],
            parsed_front_matter(files[i].text@),
            key,
        )
}

/// The neighbour with which the document at `idx` of a list of `len`
/// documents trades places, or why there is none.
pub open spec fn neighbor(len: int, idx: int, direction: SwapDirection) -> Result<
    int,
    OrderError,
> {
    if idx >= len {
        Err(OrderError::IndexOutOfRange(idx as usize))
    } else {
        match direction {
            SwapDirection::Prev => if idx == 0 {
                Err(OrderError::NoSuchNeighbor(SwapDirection::Prev))
            } else {
                Ok(idx - 1)
            },
            SwapDirection::Next => if idx == len - 1 {
                Err(OrderError::NoSuchNeighbor(SwapDirection::Next))
            } else {
                Ok(idx + 1)
            },
        }
    }
}

/// The positions of the documents whose files have to be written again, in
/// ascending order.
pub open spec fn pending(s: Seq<PageView>) -> Seq<int>
    decreases s.len(),
{
    if s.len() == 0 {
        Seq::empty()
    } else {
        let rest = pending(s.drop_last());
        if s.last().changed() {
            rest.push(s.len() - 1)
        } else {
            rest
        }
    }
}

/// The ordering value of a document as the model has it.
pub open spec fn as_int(value: Option<i64>) -> Option<int> {
    match value {
        Some(v) => Some(v as int),
        None => None,
    }
}

/// Tells whether a document with the ordering value `a` sorts before one with
/// `b`.
fn comes_before(a: Option<i64>, b: Option<i64>) -> (r: bool)
    ensures
        r == sorts_before(as_int(a), as_int(b)),
{
    match a {
        Some(x) => match b {
            Some(y) => x < y,
            None => true,
        },
        None => false,
    }
}

/// No more documents load than there are files.
pub proof fn lemma_loaded_pages_len(files: Seq<SourceFile>, key: Seq<char>)
    ensures
        loaded_pages(files, key).len() <= files.len(),
    decreases files.len(),
{
    if files.len() > 0 {
        lemma_loaded_pages_len(files.drop_last(), key);
    }
}

/// A file is written again if and only if the ordering value of its document
/// differs from the one that the file holds, whatever has become of the other
/// documents.
pub proof fn lemma_pending(s: Seq<PageView>)
    ensures
        forall|k: int|
            0 <= k < pending(s).len() ==> 0 <= (#[trigger] pending(s)[k]) < s.len()
                && s[pending(s)[k]].changed(),
        forall|i: int|
            0 <= i < s.len() && (#[trigger] s[i]).changed() ==> pending(s).contains(i),
        forall|k: int, l: int|
            0 <= k < l < pending(s).len() ==> (#[trigger] pending(s)[k]) < (#[trigger] pending(
                s,
            )[l]),
    decreases s.len(),
{
    if s.len() > 0 {
        let head = s.drop_last();
        let rest = pending(head);
        lemma_pending(head);
        assert forall|i: int| 0 <= i < s.len() && (#[trigger] s[i]).changed() implies pending(
            s,
        ).contains(i) by {
            if i < s.len() - 1 {
                assert(head[i].changed());
                let k = choose|k: int| 0 <= k < rest.len() && rest[k] == i;
                assert(pending(s)[k] == i);
            } else {
                assert(pending(s)[rest.len() as int] == i);
            }
        }
        assert forall|k: int| 0 <= k < pending(s).len() implies 0 <= (#[trigger] pending(s)[k])
            < s.len() && s[pending(s)[k]].changed() by {
            if k < rest.len() {
                assert(pending(s)[k] == rest[k]);
                assert(head[rest[k]] == s[rest[k]]);
            }
        }
    }
}

/// A swap in two steps: the two documents trade their ordering values where
/// both are ordered, and then one of them is taken out and put in behind the
/// other.
proof fn lemma_swap_in_steps(
    before: Seq<PageView>,
    traded: Seq<PageView>,
    after: Seq<PageView>,
    idx: int,
    other: int,
)
    requires
        0 <= idx < before.len(),
        0 <= other < before.len(),
        other == idx + 1 || other == idx - 1,
        traded.len() == before.len(),
        after.len() == before.len(),
        forall|m: int| 0 <= m < before.len() && m != idx && m != other ==> traded[m] == before[m],
        before[idx].value is Some && before[other].value is Some ==> traded[idx] == (PageView {
            value: before[other].value,
            ..before[idx]
        }) && traded[other] == (PageView { value: before[idx].value, ..before[other] }),
        !(before[idx].value is Some && before[other].value is Some) ==> traded[idx] == before[idx]
            && traded[other] == before[other],
        forall|m: int| 0 <= m < before.len() && m != idx && m != other ==> after[m] == traded[m],
        after[idx] == traded[other],
        after[other] == traded[idx],
    ensures
        after == swapped_pages(before, idx, other),
{
    assert(after =~= swapped_pages(before, idx, other));
}

/// A list of documents with front matter, and the key of the ordering.
///
/// After loading the documents stand in ascending order of their ordering
/// values, those without one last. Every edit keeps the ordering dense: the
/// ordered documents carry `0, 1, 2, ...` in the order of the list, and
/// unordered ones may stand among them.
#[derive(Debug)]
pub struct PageList {
    page_list: Vec<Page>,
    /// The key of the front matter under which the ordering value stands.
    key: String,
}

impl View for PageList {
    type V = Seq<PageView>;

    closed spec fn view(&self) -> Seq<PageView> {
        Seq::new(self.page_list@.len(), |i: int| self.page_list@[i]@)
    }
}

impl PageList {
    /// The key of the front matter under which the ordering value stands.
    pub closed spec fn ordering_key(&self) -> Seq<char> {
        self.key@
    }

    /// The ordering values, document by document.
    pub open spec fn values(&self) -> Seq<Option<int>> {
        values_of(self@)
    }

    /// The invariant of the list: the ordering is dense, and the number of
    /// documents is one that an ordering value can hold.
    pub open spec fn wf(&self) -> bool {
        &&& dense(self.values())
        &&& self@.len() <= i64::MAX
    }

    /// Whether the front matter of every document is a mapping.
    pub open spec fn all_mappings(&self) -> bool {
        forall|i: int| 0 <= i < self@.len() ==> (#[trigger] self@[i]).is_mapping()
    }

    /// Loads a list from the files found.
    ///
    /// Every file with a front matter becomes a document; the documents are
    /// sorted by their ordering values and renumbered. A file whose ordering
    /// key holds something other than an integer, or whose front matter is not
    /// YAML, fails the load.
    pub fn try_new(key: &str, files: &Vec<SourceFile>) -> (r: Result<PageList, PageError>)
        requires
            files@.len() <= i64::MAX,
        ensures
            match r {
                Ok(list) => {
                    &&& all_accepted(files@, key@)
                    &&& list@ == arranged(loaded_pages(files@, key@))
                    &&& list.ordering_key() == key@
                    &&& list.wf()
                },
                Err(error) => load_fails_with(files@, key@, error),
            },
    {
        let page_list = PageList { page_list: Vec::new(), key: key.to_owned() };
        assert(page_list@ =~= Seq::empty());
        match page_list.append_page_list(files) {
            Ok(mut page_list) => {
                proof {
                    lemma_loaded_pages_len(files@, key@);
                    assert(page_list@ =~= loaded_pages(files@, key@));
                }
                page_list.sort_and_fix();
                Ok(page_list)
            },
            Err(error) => Err(error),
        }
    }

    /// Appends the documents that `files` give, in the order of the files.
    ///
    /// A file without front matter is passed over. The first file that is
    /// refused fails the whole, with its error. The documents are appended as
    /// they are read: `sort_and_fix` then makes the ordering dense.
    pub fn append_page_list(self, files: &Vec<SourceFile>) -> (r: Result<PageList, PageError>)
        ensures
            match r {
                Ok(list) => {
                    &&& all_accepted(files@, self.ordering_key())
                    &&& list@ == self@ + loaded_pages(files@, self.ordering_key())
                    &&& list.ordering_key() == self.ordering_key()
                },
                Err(error) => load_fails_with(files@, self.ordering_key(), error),
            },
    {
        let ghost before = self@;
        let ghost key = self.ordering_key();
        let mut page_list = self;
        let n = files.len();
        let mut i: usize = 0;
        assert(files@.take(0) =~= Seq::empty());
        assert(page_list@ =~= before + loaded_pages(files@.take(0), key));
        while i < n
            invariant
                i <= n,
                n == files@.len(),
                key == self.ordering_key(),
                page_list.ordering_key() == key,
                page_list@ == before + loaded_pages(files@.take(i as int), key),
                forall|j: int| 0 <= j < i ==> !(outcome_of(#[trigger] files@[j], key) is Refused),
            decreases n - i,
        {
            let file = &files[i];
            let ghost view_before = page_list@;
            proof {
                assert(files@.take(i + 1).drop_last() =~= files@.take(i as int));
                assert(files@.take(i + 1).last() == files@[i as int]);
            }
            match Page::try_new(file, page_list.key.as_str()) {
                Ok(page) => {
                    page_list.page_list.push(page);
                    assert(page_list@ =~= view_before.push(page@));
                },
                Err(PageError::NoFrontMatter(_)) => {
                    assert(page_list@ =~= view_before);
                },
                Err(error) => {
                    assert(is_first_refused(files@, key, i as int));
                    return Err(error);
                },
            }
            i += 1;
        }
        assert(files@.take(n as int) =~= files@);
        Ok(page_list)
    }

    /// Sorts the documents by their ordering values, those without one last
    /// and equal ones in the order in which they stand, and numbers the
    /// ordered ones from 0.
    pub fn sort_and_fix(&mut self)
        requires
            old(self)@.len() <= i64::MAX,
        ensures
            final(self)@ == arranged(old(self)@),
            final(self).ordering_key() == old(self).ordering_key(),
            final(self).wf(),
    {
        let ghost before = self@;
        let n = self.page_list.len();
        let mut i: usize = 0;
        assert(self@.take(0) =~= stable_sorted(before.take(0)));
        while i < n
            invariant
                i <= n,
                n == self.page_list@.len(),
                n == before.len(),
                self.key == old(self).key,
                self@.take(i as int) == stable_sorted(before.take(i as int)),
                self@.skip(i as int) == before.skip(i as int),
            decreases n - i,
        {
            let ghost sorted = self@.take(i as int);
            let ghost rest = self@.skip(i + 1);
            proof {
                lemma_stable_sorted_len(before.take(i as int));
                assert(before.take(i + 1).drop_last() =~= before.take(i as int));
                assert(self@[i as int] == self@.skip(i as int)[0]);
                assert(before.take(i + 1).last() == self@[i as int]);
                assert(sorted.take(i as int) =~= sorted);
                assert forall|m: int| 0 <= m < rest.len() implies rest[m] == before.skip(i + 1)[m] by {
                    assert(self@.skip(i as int)[m + 1] == before.skip(i as int)[m + 1]);
                }
                assert(rest =~= before.skip(i + 1));
            }
            let page = self.page_list.remove(i);
            assert(self@ =~= sorted + rest);
            let mut j: usize = i;
            while j > 0 && comes_before(page.value, self.page_list[j - 1].value)
                invariant
                    j <= i,
                    i < n,
                    self.page_list@.len() == n - 1,
                    self@ == sorted + rest,
                    sorted.len() == i,
                    insertion_index(sorted, page@.value) == insertion_index(
                        sorted.take(j as int),
                        page@.value,
                    ),
                decreases j,
            {
                proof {
                    assert(sorted.take(j as int).last() == self@[j - 1]);
                    assert(sorted.take(j as int).drop_last() =~= sorted.take(j - 1));
                }
                j -= 1;
            }
            proof {
                if j > 0 {
                    assert(sorted.take(j as int).last() == self@[j - 1]);
                }
                assert(insertion_index(sorted, page@.value) == j);
            }
            self.page_list.insert(j, page);
            proof {
                assert(self@.take(i + 1) =~= sorted.insert(j as int, page@));
                assert(self@.skip(i + 1) =~= rest);
            }
            i += 1;
        }
        let ghost sorted = self@;
        proof {
            assert(before.take(n as int) =~= before);
            assert(self@.take(n as int) =~= self@);
        }
        let ghost values = values_of(sorted);
        let mut current_value: i64 = 0;
        let mut k: usize = 0;
        while k < n
            invariant
                k <= n,
                n == self.page_list@.len(),
                n == sorted.len(),
                n <= i64::MAX,
                values == values_of(sorted),
                self.key == old(self).key,
                current_value == rank(values, k as int),
                forall|m: int| 0 <= m < k ==> self@[m] == renumbered_pages(sorted)[m],
                forall|m: int| k <= m < n ==> self@[m] == sorted[m],
            decreases n - k,
        {
            proof {
                lemma_rank_monotonic(values, 0, k as int);
            }
            if self.page_list[k].value.is_some() {
                self.page_list[k].value = Some(current_value);
                current_value += 1;
            }
            k += 1;
        }
        proof {
            assert(self@ =~= renumbered_pages(sorted));
            lemma_arranged_dense(before);
        }
    }

    /// Tells whether the invariant of the list holds.
    pub fn is_well_formed(&self) -> (r: bool)
        ensures
            r == self.wf(),
    {
        let n = self.page_list.len();
        if n as u64 > i64::MAX as u64 {
            return false;
        }
        let ghost values = self.values();
        let mut ordered: i64 = 0;
        let mut i: usize = 0;
        while i < n
            invariant
                i <= n,
                n == self.page_list@.len(),
                n <= i64::MAX,
                values == self.values(),
                ordered == rank(values, i as int),
                forall|m: int|
                    0 <= m < i && (#[trigger] values[m]) is Some ==> values[m] == Some(
                        rank(values, m),
                    ),
            decreases n - i,
        {
            proof {
                lemma_rank_monotonic(values, 0, i as int);
            }
            if let Some(value) = self.page_list[i].value {
                if value != ordered {
                    assert(values[i as int] is Some && values[i as int] != Some(
                        rank(values, i as int),
                    ));
                    return false;
                }
                ordered += 1;
            }
            i += 1;
        }
        true
    }

    /// The key of the front matter under which the ordering value stands.
    pub fn key(&self) -> (r: &String)
        ensures
            r@ == self.ordering_key(),
    {
        &self.key
    }

    /// The number of documents.
    pub fn len(&self) -> (r: usize)
        ensures
            r == self@.len(),
    {
        self.page_list.len()
    }

    /// The document at `idx`, if there is one.
    pub fn get(&self, idx: usize) -> (r: Option<&Page>)
        ensures
            idx < self@.len() ==> r is Some && r->0@ == self@[idx as int],
            idx >= self@.len() ==> r is None,
    {
        if idx < self.page_list.len() {
            Some(&self.page_list[idx])
        } else {
            None
        }
    }

    /// The document at `idx`.
    pub fn page(&self, idx: usize) -> (r: &Page)
        requires
            idx < self@.len(),
        ensures
            r@ == self@[idx as int],
    {
        &self.page_list[idx]
    }

    /// Flips the membership of the document at `idx` in the ordered subset.
    ///
    /// An ordered document leaves the subset, and the ordering value of every
    /// ordered document behind it drops by one. An unordered document enters
    /// with the value after that of the last ordered document before it, or 0,
    /// and the value of every ordered document behind it rises by one.
    ///
    /// No document changes place. None has to: in a dense ordering the value
    /// that an entering document receives is the number of ordered documents
    /// before it, so the ordered documents still stand in ascending order.
    pub fn toggle_value(&mut self, idx: usize) -> (r: Result<(), OrderError>)
        requires
            old(self).wf(),
        ensures
            final(self).wf(),
            final(self).ordering_key() == old(self).ordering_key(),
            idx < old(self)@.len() ==> r is Ok && final(self)@ == toggled_pages(
                old(self)@,
                idx as int,
            ),
            idx >= old(self)@.len() ==> r == Err::<(), OrderError>(
                OrderError::IndexOutOfRange(idx),
            ) && final(self)@ == old(self)@,
    {
        let n = self.page_list.len();
        if idx >= n {
            return Err(OrderError::IndexOutOfRange(idx));
        }
        let ghost before = self@;
        let ghost values = values_of(before);
        let ghost after = toggled_pages(before, idx as int);
        let unset = self.page_list[idx].value.is_some();
        if unset {
            self.page_list[idx].value = None;
        } else {
            let mut pre_value: Option<i64> = None;
            let mut k: usize = 0;
            while k < idx
                invariant
                    k <= idx < n,
                    n == self.page_list@.len(),
                    self@ == before,
                    values == values_of(before),
                    as_int(pre_value) == last_ordered_before(values, k as int),
                decreases idx - k,
            {
                if let Some(x) = self.page_list[k].value {
                    pre_value = Some(x);
                }
                k += 1;
            }
            proof {
                lemma_insertion_value_is_rank(values, idx as int);
                lemma_rank_monotonic(values, 0, idx as int);
            }
            let value = match pre_value {
                Some(x) => x + 1,
                None => 0,
            };
            self.page_list[idx].value = Some(value);
        }
        assert(self@[idx as int] == after[idx as int]);
        let mut j: usize = idx + 1;
        while j < n
            invariant
                idx < j <= n,
                n == self.page_list@.len(),
                n == before.len(),
                n <= i64::MAX,
                self.key == old(self).key,
                dense(values),
                values == values_of(before),
                after == toggled_pages(before, idx as int),
                unset == before[idx as int].value is Some,
                forall|m: int| 0 <= m < j ==> self@[m] == after[m],
                forall|m: int| j <= m < n ==> self@[m] == before[m],
            decreases n - j,
        {
            if let Some(value) = self.page_list[j].value {
                proof {
                    assert(values[j as int] is Some);
                    lemma_rank_monotonic(values, 0, j as int);
                    lemma_rank_monotonic(values, idx + 1, j as int);
                }
                if unset {
                    self.page_list[j].value = Some(value - 1);
                } else {
                    self.page_list[j].value = Some(value + 1);
                }
            }
            j += 1;
        }
        proof {
            assert(self@ =~= after);
            lemma_toggled_dense(values, idx as int);
            lemma_values_of_with_values(before, toggled(values, idx as int));
        }
        Ok(())
    }

    /// Swaps the document at `idx` with its neighbour in `swap_direction`.
    ///
    /// Where both are ordered they trade their ordering values first, so that
    /// each position keeps its value. The documents then trade places, ordered
    /// or not.
    pub fn swap_with_value(&mut self, idx: usize, swap_direction: SwapDirection) -> (r: Result<
        (),
        OrderError,
    >)
        requires
            old(self).wf(),
        ensures
            final(self).wf(),
            final(self).ordering_key() == old(self).ordering_key(),
            match neighbor(old(self)@.len() as int, idx as int, swap_direction) {
                Ok(other) => r is Ok && final(self)@ == swapped_pages(old(self)@, idx as int, other),
                Err(error) => r == Err::<(), OrderError>(error) && final(self)@ == old(self)@,
            },
    {
        let n = self.page_list.len();
        if idx >= n {
            return Err(OrderError::IndexOutOfRange(idx));
        }
        let idx_neighbor = match swap_direction {
            SwapDirection::Prev => {
                if idx == 0 {
                    return Err(OrderError::NoSuchNeighbor(SwapDirection::Prev));
                }
                idx - 1
            },
            SwapDirection::Next => {
                if idx == n - 1 {
                    return Err(OrderError::NoSuchNeighbor(SwapDirection::Next));
                }
                idx + 1
            },
        };
        let ghost before = self@;
        let both = self.page_list[idx].value.is_some() && self.page_list[idx_neighbor].value.is_some();
        if both {
            self.exchange_values(idx, idx_neighbor);
        }
        let ghost traded = self@;
        let lower = if idx < idx_neighbor {
            idx
        } else {
            idx_neighbor
        };
        self.exchange_places(lower);
        proof {
            lemma_swap_in_steps(before, traded, self@, idx as int, idx_neighbor as int);
            lemma_values_of_swapped(before, idx as int, idx_neighbor as int);
            lemma_swapped_dense(values_of(before), lower as int);
        }
        Ok(())
    }

    /// Gives the document at `idx` the ordering value of the one at `other`,
    /// and the other way round.
    fn exchange_values(&mut self, idx: usize, other: usize)
        requires
            idx < old(self)@.len(),
            other < old(self)@.len(),
            idx != other,
        ensures
            final(self)@.len() == old(self)@.len(),
            final(self).ordering_key() == old(self).ordering_key(),
            final(self)@[idx as int] == (PageView {
                value: old(self)@[other as int].value,
                ..old(self)@[idx as int]
            }),
            final(self)@[other as int] == (PageView {
                value: old(self)@[idx as int].value,
                ..old(self)@[other as int]
            }),
            forall|m: int|
                0 <= m < old(self)@.len() && m != idx && m != other ==> final(self)@[m] == old(
                    self,
                )@[m],
    {
        let value = self.page_list[idx].value;
        let value_other = self.page_list[other].value;
        self.page_list[idx].value = value_other;
        self.page_list[other].value = value;
    }

    /// Lets the documents at `lower` and behind it trade places.
    fn exchange_places(&mut self, lower: usize)
        requires
            lower + 1 < old(self)@.len(),
        ensures
            final(self)@.len() == old(self)@.len(),
            final(self).ordering_key() == old(self).ordering_key(),
            final(self)@[lower as int] == old(self)@[lower + 1],
            final(self)@[lower + 1] == old(self)@[lower as int],
            forall|m: int|
                0 <= m < old(self)@.len() && m != lower && m != lower + 1 ==> final(self)@[m]
                    == old(self)@[m],
    {
        let n = self.page_list.len();
        assert(lower + 1 < n);
        let page = self.page_list.remove(lower);
        self.page_list.insert(lower + 1, page);
    }

    /// Writes the ordering value of every document into its front matter.
    pub fn substitute_value(&mut self)
        requires
            old(self).all_mappings(),
        ensures
            final(self)@.len() == old(self)@.len(),
            forall|i: int|
                0 <= i < old(self)@.len() ==> (#[trigger] final(self)@[i]).is_substituted(
                    old(self)@[i],
                    old(self).ordering_key(),
                ),
            final(self).ordering_key() == old(self).ordering_key(),
            final(self).values() == old(self).values(),
            final(self).all_mappings(),
    {
        let key = self.key.clone();
        let ghost before = self@;
        let n = self.page_list.len();
        let mut i: usize = 0;
        while i < n
            invariant
                i <= n,
                n == self.page_list@.len(),
                n == before.len(),
                key@ == old(self).key@,
                self.key == old(self).key,
                forall|m: int| 0 <= m < i ==> (#[trigger] self@[m]).is_substituted(before[m], key@),
                forall|m: int| i <= m < n ==> self@[m] == before[m],
                forall|m: int| i <= m < n ==> (#[trigger] before[m]).is_mapping(),
            decreases n - i,
        {
            assert(before[i as int].is_mapping());
            let ghost mid = self@;
            self.page_list[i].substitute_value(key.as_str());
            assert forall|m: int| 0 <= m < i implies (#[trigger] self@[m]).is_substituted(
                before[m],
                key@,
            ) by {
                assert(self@[m] == mid[m]);
            }
            i += 1;
        }
        assert(self.values() =~= values_of(before));
    }

    /// Tells whether the front matter of every document is a mapping.
    pub fn has_all_mappings(&self) -> (r: bool)
        ensures
            r == self.all_mappings(),
    {
        let n = self.page_list.len();
        let mut i: usize = 0;
        while i < n
            invariant
                i <= n,
                n == self.page_list@.len(),
                forall|m: int| 0 <= m < i ==> (#[trigger] self@[m]).is_mapping(),
            decreases n - i,
        {
            if !self.page_list[i].has_mapping() {
                assert(!self@[i as int].is_mapping());
                return false;
            }
            i += 1;
        }
        true
    }

    /// Writes the ordering value of every document into its front matter,
    /// where every front matter is a mapping, and says whether it did. Where
    /// one is not, nothing is changed.
    pub fn try_substitute_value(&mut self) -> (r: bool)
        ensures
            r == old(self).all_mappings(),
            final(self)@.len() == old(self)@.len(),
            final(self).ordering_key() == old(self).ordering_key(),
            final(self).values() == old(self).values(),
            r ==> forall|i: int|
                0 <= i < old(self)@.len() ==> (#[trigger] final(self)@[i]).is_substituted(
                    old(self)@[i],
                    old(self).ordering_key(),
                ),
            !r ==> final(self)@ == old(self)@,
    {
        if self.has_all_mappings() {
            self.substitute_value();
            true
        } else {
            false
        }
    }

    /// The positions of the documents whose files have to be written again, in
    /// ascending order: those whose ordering value differs from the one that
    /// the file holds. No other file is touched.
    pub fn overwrite_frontmatter(&self) -> (r: Vec<usize>)
        ensures
            r@.len() == pending(self@).len(),
            forall|k: int| 0 <= k < r@.len() ==> (#[trigger] r@[k]) as int == pending(self@)[k],
    {
        let n = self.page_list.len();
        let mut positions: Vec<usize> = Vec::new();
        let mut i: usize = 0;
        assert(self@.take(0) =~= Seq::empty());
        while i < n
            invariant
                i <= n,
                n == self.page_list@.len(),
                positions@.len() == pending(self@.take(i as int)).len(),
                forall|k: int|
                    0 <= k < positions@.len() ==> (#[trigger] positions@[k]) as int == pending(
                        self@.take(i as int),
                    )[k],
            decreases n - i,
        {
            proof {
                assert(self@.take(i + 1).drop_last() =~= self@.take(i as int));
                assert(self@.take(i + 1).last() == self@[i as int]);
            }
            if self.page_list[i].needs_rewrite() {
                positions.push(i);
            }
            i += 1;
        }
        assert(self@.take(n as int) =~= self@);
        positions
    }
}

} // verus!
