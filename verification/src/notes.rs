//! Notes: which entries of a walked directory are notes, how the notes of a
//! directory are gathered, and how a note becomes a row.

use crate::errors::{ErrorView, VtabError};
use crate::properties::lemma_base_names_differ;
use crate::property_map::Properties;
use crate::text::same_text;
use vstd::prelude::*;
use vstd::std_specs::cmp::PartialEqSpecImpl;

verus! {

/// A note: the path of its file as text, what the file holds, and the
/// properties that were drawn from it, if any were.
#[derive(Debug)]
pub struct ObsidianNote {
    pub file_path: String,
    pub file_contents: String,
    pub properties: Option<Properties>,
}

/// A note over plain text.
pub struct NoteView {
    pub file_path: Seq<char>,
    pub file_contents: Seq<char>,
    pub properties: Option<Map<Seq<char>, Seq<char>>>,
}

impl View for ObsidianNote {
    type V = NoteView;

    open spec fn view(&self) -> NoteView {
        NoteView {
            file_path: self.file_path@,
            file_contents: self.file_contents@,
            properties: match self.properties {
                Some(properties) => Some(properties@),
                None => None,
            },
        }
    }
}

impl PartialEq for ObsidianNote {
    /// Two notes are equal when path, contents and properties are.
    fn eq(&self, other: &Self) -> (same: bool) {
        let same_properties = match (&self.properties, &other.properties) {
            (None, None) => true,
            (Some(mine), Some(theirs)) => mine.eq(theirs),
            _ => false,
        };
        same_properties && same_text(self.file_path.as_str(), other.file_path.as_str())
            && same_text(self.file_contents.as_str(), other.file_contents.as_str())
    }
}

impl PartialEqSpecImpl for ObsidianNote {
    open spec fn obeys_eq_spec() -> bool {
        true
    }

    open spec fn eq_spec(&self, other: &Self) -> bool {
        self@ == other@
    }
}

/// The notes of a scan, in the order in which the walk met them.
pub type Records = Vec<ObsidianNote>;

/// The views of a sequence of notes.
pub open spec fn note_views(notes: Seq<ObsidianNote>) -> Seq<NoteView> {
    notes.map_values(|note: ObsidianNote| note@)
}

/// The extension that marks a file as a note.
pub open spec fn note_extension() -> Seq<char> {
    "md"@
}

/// One entry that the walk of the directory tree met.
#[derive(Debug)]
pub struct ScannedEntry {
    /// The path of the entry, as text.
    pub path: String,
    /// The extension of the entry's file name, where it has one.
    pub extension: Option<String>,
    /// Whether the entry is a regular file.
    pub is_file: bool,
    /// What reading the file gave, or why it could not be read. It is
    /// looked at for a note only.
    pub contents: Result<String, String>,
}

/// What reading a file gave, over plain text.
pub open spec fn read_view(contents: Result<String, String>) -> Result<Seq<char>, Seq<char>> {
    match contents {
        Ok(text) => Ok(text@),
        Err(reason) => Err(reason@),
    }
}

/// An entry over plain text.
pub struct EntryView {
    pub path: Seq<char>,
    pub extension: Option<Seq<char>>,
    pub is_file: bool,
    pub contents: Result<Seq<char>, Seq<char>>,
}

impl View for ScannedEntry {
    type V = EntryView;

    open spec fn view(&self) -> EntryView {
        EntryView {
            path: self.path@,
            extension: match self.extension {
                Some(extension) => Some(extension@),
                None => None,
            },
            is_file: self.is_file,
            contents: read_view(self.contents),
        }
    }
}

/// The views of a sequence of entries.
pub open spec fn entry_views(entries: Seq<ScannedEntry>) -> Seq<EntryView> {
    entries.map_values(|entry: ScannedEntry| entry@)
}

/// Whether an entry is a note: a regular file with the note extension.
pub open spec fn is_note(entry: EntryView) -> bool {
    entry.is_file && entry.extension == Some(note_extension())
}

/// What reading one note gives: the note, without properties, or the
/// failure with the path of the file.
pub open spec fn note_read(path: Seq<char>, contents: Result<Seq<char>, Seq<char>>) -> Result<
    NoteView,
    ErrorView,
> {
    match contents {
        Ok(text) => Ok(NoteView { file_path: path, file_contents: text, properties: None }),
        Err(reason) => Err(ErrorView::IoFailure { path, reason }),
    }
}

/// What a scan gives for the entries of a walk: the notes among them in
/// their order, or the failure of the first note that could not be read.
pub open spec fn scan_outcome(entries: Seq<EntryView>) -> Result<Seq<NoteView>, ErrorView>
    decreases entries.len(),
{
    if entries.len() == 0 {
        Ok(Seq::empty())
    } else {
        match scan_outcome(entries.drop_last()) {
            Err(error) => Err(error),
            Ok(notes) => if is_note(entries.last()) {
                match note_read(entries.last().path, entries.last().contents) {
                    Ok(note) => Ok(notes.push(note)),
                    Err(error) => Err(error),
                }
            } else {
                Ok(notes)
            },
        }
    }
}

/// The row of a note: its properties, with the path under `file_path` and
/// the contents under `file_contents`, whatever the properties held there.
pub open spec fn row_of(note: NoteView) -> Map<Seq<char>, Seq<char>> {
    let properties = match note.properties {
        Some(properties) => properties,
        None => Map::empty(),
    };
    properties.insert("file_path"@, note.file_path).insert("file_contents"@, note.file_contents)
}

/// The extension that marks a file as a note: `md`.
pub fn wanted_extension() -> (extension: &'static str)
    ensures
        extension@ == note_extension(),
{
    "md"
}

impl ScannedEntry {
    /// Whether the entry is a note: a regular file with the wanted
    /// extension.
    pub fn is_note(&self) -> (note: bool)
        ensures
            note == is_note(self@),
    {
        match &self.extension {
            Some(extension) => self.is_file && same_text(extension.as_str(), wanted_extension()),
            None => false,
        }
    }
}

/// The note of the file at `file_path`, from what reading the file gave:
/// the note has no properties; where the file could not be read, the
/// failure names the path.
pub fn read_note(file_path: String, contents: Result<String, String>) -> (result: Result<
    ObsidianNote,
    VtabError,
>)
    ensures
        match result {
            Ok(note) => note_read(file_path@, read_view(contents)) == Ok::<NoteView, ErrorView>(
                note@,
            ),
            Err(error) => note_read(file_path@, read_view(contents)) == Err::<
                NoteView,
                ErrorView,
            >(error@),
        },
{
    match contents {
        Ok(file_contents) => Ok(ObsidianNote { file_path, file_contents, properties: None }),
        Err(reason) => Err(VtabError::IoFailure { path: file_path, reason }),
    }
}

/// A scan that has failed on some of the entries fails in the same way on
/// all of them.
proof fn lemma_failure_stays(entries: Seq<EntryView>, k: int)
    requires
        0 <= k <= entries.len(),
        scan_outcome(entries.take(k)) is Err,
    ensures
        scan_outcome(entries) == scan_outcome(entries.take(k)),
    decreases entries.len() - k,
{
    if k == entries.len() {
        assert(entries.take(k) =~= entries);
    } else {
        assert(entries.take(k + 1).drop_last() =~= entries.take(k));
        lemma_failure_stays(entries, k + 1);
    }
}

/// The notes of a directory, from the entries that its walk met: every
/// regular file with the note extension gives one note, in the order of the
/// walk; the first note that could not be read fails the whole scan.
pub fn read_notes_in_dir(entries: Vec<ScannedEntry>) -> (result: Result<Records, VtabError>)
    ensures
        match result {
            Ok(records) => scan_outcome(entry_views(entries@)) == Ok::<Seq<NoteView>, ErrorView>(
                note_views(records@),
            ),
            Err(error) => scan_outcome(entry_views(entries@)) == Err::<Seq<NoteView>, ErrorView>(
                error@,
            ),
        },
{
    let ghost walked = entry_views(entries@);
    let mut records: Records = Vec::new();
    assert(note_views(records@) =~= Seq::<NoteView>::empty());
    for entry in it: entries
        invariant
            walked == entry_views(it.seq()),
            scan_outcome(walked.take(it.index() as int)) == Ok::<Seq<NoteView>, ErrorView>(
                note_views(records@),
            ),
    {
        let ghost i = it.index() as int;
        proof {
            assert(walked.take(i + 1).drop_last() =~= walked.take(i));
            assert(walked.take(i + 1).last() == entry@);
        }
        if entry.is_note() {
            match read_note(entry.path, entry.contents) {
                Ok(note) => {
                    let ghost gathered = note_views(records@);
                    records.push(note);
                    assert(note_views(records@) =~= gathered.push(note@));
                },
                Err(error) => {
                    proof {
                        lemma_failure_stays(walked, i + 1);
                    }
                    return Err(error);
                },
            }
        }
    }
    assert(walked.take(walked.len() as int) =~= walked);
    Ok(records)
}

/// The row of a note: its properties, then the path under `file_path` and
/// the contents under `file_contents`.
pub fn flatten_note(note: &ObsidianNote) -> (flattened: Properties)
    ensures
        flattened@ == row_of(note@),
{
    let mut flattened = match &note.properties {
        Some(properties) => properties.clone(),
        None => Properties::new(),
    };
    flattened.insert("file_path".to_owned(), note.file_path.clone());
    flattened.insert("file_contents".to_owned(), note.file_contents.clone());
    flattened
}

/// The row of a note holds the note's own path under `file_path` and its own
/// contents under `file_contents`, also where a property of the note goes
/// by one of these names.
pub proof fn lemma_base_columns_win(note: NoteView)
    ensures
        row_of(note).contains_pair("file_path"@, note.file_path),
        row_of(note).contains_pair("file_contents"@, note.file_contents),
{
    lemma_base_names_differ();
}

/// Apart from the two base columns the row of a note holds its properties
/// as they are.
pub proof fn lemma_row_keeps_properties(note: NoteView, name: Seq<char>)
    requires
        name != "file_path"@,
        name != "file_contents"@,
    ensures
        match note.properties {
            Some(properties) => row_of(note).contains_key(name) == properties.contains_key(name)
                && (properties.contains_key(name) ==> row_of(note)[name] == properties[name]),
            None => !row_of(note).contains_key(name),
        },
{
}

/// A scan of `entries` gives no more notes than there are entries.
pub proof fn lemma_scan_len(entries: Seq<EntryView>)
    ensures
        scan_outcome(entries) matches Ok(notes) ==> notes.len() <= entries.len(),
    decreases entries.len(),
{
    if entries.len() > 0 {
        lemma_scan_len(entries.drop_last());
    }
}

/// Whether the entry is a note that could not be read.
pub open spec fn is_failed_note(entry: EntryView) -> bool {
    is_note(entry) && entry.contents is Err
}

/// The note of an entry that could be read: its path and its contents,
/// without properties.
pub open spec fn note_of(entry: EntryView) -> NoteView {
    NoteView { file_path: entry.path, file_contents: entry.contents->Ok_0, properties: None }
}

/// The notes of the note entries among `entries`, in their order.
pub open spec fn notes_among(entries: Seq<EntryView>) -> Seq<NoteView> {
    entries.filter(|entry: EntryView| is_note(entry)).map_values(|entry: EntryView| note_of(entry))
}

/// Where every note could be read the scan succeeds, and gives the notes of
/// the note entries in their order and nothing else.
pub proof fn lemma_scan_complete(entries: Seq<EntryView>)
    requires
        forall|i: int| 0 <= i < entries.len() ==> !is_failed_note(#[trigger] entries[i]),
    ensures
        scan_outcome(entries) == Ok::<Seq<NoteView>, ErrorView>(notes_among(entries)),
    decreases entries.len(),
{
    let wanted = |entry: EntryView| is_note(entry);
    reveal(Seq::filter);
    if entries.len() == 0 {
        assert(notes_among(entries) =~= Seq::<NoteView>::empty());
    } else {
        let front = entries.drop_last();
        let last = entries.last();
        assert forall|i: int| 0 <= i < front.len() implies !is_failed_note(
            #[trigger] front[i],
        ) by {
            assert(front[i] == entries[i]);
        }
        lemma_scan_complete(front);
        assert(entries[entries.len() - 1] == last);
        if is_note(last) {
            assert(entries.filter(wanted) == front.filter(wanted).push(last));
            assert(notes_among(entries) =~= notes_among(front).push(note_of(last)));
        } else {
            assert(entries.filter(wanted) == front.filter(wanted));
        }
    }
}

/// Where a note could not be read the scan fails with the first such note:
/// the failure holds its path and the reason.
pub proof fn lemma_scan_fails_first(entries: Seq<EntryView>, first: int)
    requires
        0 <= first < entries.len(),
        is_failed_note(entries[first]),
        forall|i: int| 0 <= i < first ==> !is_failed_note(#[trigger] entries[i]),
    ensures
        scan_outcome(entries) == Err::<Seq<NoteView>, ErrorView>(
            ErrorView::IoFailure {
                path: entries[first].path,
                reason: entries[first].contents->Err_0,
            },
        ),
{
    let upto = entries.take(first);
    assert forall|i: int| 0 <= i < upto.len() implies !is_failed_note(#[trigger] upto[i]) by {
        assert(upto[i] == entries[i]);
    }
    lemma_scan_complete(upto);
    assert(entries.take(first + 1).drop_last() =~= upto);
    assert(entries.take(first + 1).last() == entries[first]);
    lemma_failure_stays(entries, first + 1);
}

} // verus!
