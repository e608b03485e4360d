//! The database files of the store: the app map and search index split in
//! files of at most a hundred thousand entries, and the texts and paths
//! written for each application.
use vstd::prelude::*;
use crate::outside::{debug_escaped, debug_text};
use crate::text::{concat_all, decimal, text_of, to_decimal};

verus! {

/// Most entries in one map file.
pub const FILE_ENTRIES: usize = 100_000;

/// How many entries the current map file holds and how many map files
/// there are.
pub struct MapCounter {
    pub entries: usize,
    pub files: usize,
}

/// What adding an entry takes: first closing the current map file and
/// opening a new one, then writing a separator before the entry.
pub struct MapStep {
    pub new_file: bool,
    pub separator: bool,
}

impl MapCounter {
    /// A file never holds more than the limit, and there is a file.
    pub open spec fn wf(&self) -> bool {
        self.entries <= FILE_ENTRIES && self.files >= 1
    }

    /// The count of a new database: one empty file.
    pub fn new() -> (c: MapCounter)
        ensures
            c.wf(),
            c.entries == 0,
            c.files == 1,
    {
        MapCounter { entries: 0, files: 1 }
    }

    /// Counts one more entry. A full file is closed and a new one opened
    /// first; an entry that is not the first of its file is preceded by a
    /// separator.
    pub fn add(&mut self) -> (step: MapStep)
        requires
            old(self).wf(),
            old(self).files < usize::MAX,
        ensures
            final(self).wf(),
            step.new_file == (old(self).entries >= FILE_ENTRIES),
            final(self).files == old(self).files + if step.new_file { 1int } else { 0int },
            step.separator == (!step.new_file && old(self).entries > 0),
            final(self).entries == if step.new_file { 1 } else { old(self).entries + 1 },
            *final(self) == after_adds(*old(self), 1),
    {
        let new_file = self.entries >= FILE_ENTRIES;
        if new_file {
            self.files = self.files + 1;
            self.entries = 0;
        }
        let separator = self.entries > 0;
        self.entries = self.entries + 1;
        proof {
            reveal_with_fuel(after_adds, 2);
        }
        MapStep { new_file, separator }
    }
}

/// However many entries are added, no map file holds more than the limit:
/// after `n` additions to a well-formed count, the count is well formed,
/// the current file holds at least one entry, and the number of files has
/// grown by at most one per addition.
pub proof fn lemma_adds_keep_files_bounded(c: MapCounter, n: nat)
    requires
        c.wf(),
        c.files + n <= usize::MAX,
    ensures
        after_adds(c, n).entries <= FILE_ENTRIES,
        after_adds(c, n).files >= c.files,
        after_adds(c, n).files <= c.files + n,
        n > 0 ==> after_adds(c, n).entries >= 1,
    decreases n,
{
    if n > 0 {
        lemma_adds_keep_files_bounded(c, (n - 1) as nat);
    }
}

/// The count after `n` additions, as `add` makes it.
pub open spec fn after_adds(c: MapCounter, n: nat) -> MapCounter
    decreases n,
{
    if n == 0 {
        c
    } else {
        let p = after_adds(c, (n - 1) as nat);
        if p.entries >= FILE_ENTRIES {
            MapCounter { entries: 1, files: (p.files + 1) as usize }
        } else {
            MapCounter { entries: (p.entries + 1) as usize, files: p.files }
        }
    }
}

/// The map entry of an application: `"<display name>":"l:<id>"`.
pub open spec fn map_entry_of(display_name: Seq<char>, app_id: Seq<char>) -> Seq<char> {
    "\""@ + display_name + "\":\"l:"@ + app_id + "\""@
}

/// Writes the map entry of an application.
pub fn map_entry(display_name: &str, app_id: &str) -> (out: String)
    ensures
        out@ == map_entry_of(display_name@, app_id@),
{
    let out = text_of(&["\"", display_name, "\":\"l:", app_id, "\""]);
    proof {
        reveal_with_fuel(concat_all, 6);
    }
    out
}

/// The search entry of an application: its display name, shortcut name
/// and `l:`-prefixed id, each in its `Debug` form, as a JSON object.
pub open spec fn search_entry_of(display_name: Seq<char>, title: Seq<char>, app_id: Seq<char>) -> Seq<
    char,
> {
    "{\"name\": "@ + debug_escaped(display_name) + ", \"title\": "@ + debug_escaped(title)
        + ", \"id\": "@ + debug_escaped("l:"@ + app_id) + "}"@
}

/// Writes the search entry of an application.
pub fn search_entry(display_name: &str, title: &str, app_id: &str) -> (out: String)
    ensures
        out@ == search_entry_of(display_name@, title@, app_id@),
{
    let id = text_of(&["l:", app_id]);
    let name_text = debug_text(display_name);
    let title_text = debug_text(title);
    let id_text = debug_text(id.as_str());
    let out = text_of(
        &[
            "{\"name\": ",
            name_text.as_str(),
            ", \"title\": ",
            title_text.as_str(),
            ", \"id\": ",
            id_text.as_str(),
            "}",
        ],
    );
    proof {
        reveal_with_fuel(concat_all, 8);
    }
    out
}

/// The file that lists the applications of an author.
pub open spec fn author_file_of(author_id: Seq<char>) -> Seq<char> {
    "./db/dev/"@ + author_id
}

pub fn author_file(author_id: &str) -> (out: String)
    ensures
        out@ == author_file_of(author_id@),
{
    let out = text_of(&["./db/dev/", author_id]);
    proof {
        reveal_with_fuel(concat_all, 3);
    }
    out
}

/// The line that an application adds to its author's list.
pub open spec fn author_line_of(app_id: Seq<char>) -> Seq<char> {
    "l:"@ + app_id + "\n"@
}

pub fn author_line(app_id: &str) -> (out: String)
    ensures
        out@ == author_line_of(app_id@),
{
    let out = text_of(&["l:", app_id, "\n"]);
    proof {
        reveal_with_fuel(concat_all, 4);
    }
    out
}

/// The file of an application's record.
pub open spec fn app_file_of(app_id: Seq<char>) -> Seq<char> {
    "./db/apps/"@ + app_id + ".json"@
}

pub fn app_file(app_id: &str) -> (out: String)
    ensures
        out@ == app_file_of(app_id@),
{
    let out = text_of(&["./db/apps/", app_id, ".json"]);
    proof {
        reveal_with_fuel(concat_all, 4);
    }
    out
}

/// The directory of an application's images.
pub open spec fn resource_dir_of(app_id: Seq<char>) -> Seq<char> {
    "./db/res/"@ + app_id
}

pub fn resource_dir(app_id: &str) -> (out: String)
    ensures
        out@ == resource_dir_of(app_id@),
{
    let out = text_of(&["./db/res/", app_id]);
    proof {
        reveal_with_fuel(concat_all, 3);
    }
    out
}

/// The file of one image of an application, named by its id in decimal.
pub open spec fn resource_file_of(app_id: Seq<char>, id: u8) -> Seq<char> {
    resource_dir_of(app_id) + "/"@ + decimal(id as nat)
}

pub fn resource_file(app_id: &str, id: u8) -> (out: String)
    ensures
        out@ == resource_file_of(app_id@, id),
{
    let number = to_decimal(id as u64);
    let out = text_of(&["./db/res/", app_id, "/", number.as_str()]);
    proof {
        reveal_with_fuel(concat_all, 5);
    }
    out
}

/// The texts written for an application, character by character: its map
/// entry is its display name in quotes, a colon, and `l:` with its id in
/// quotes; its author line is `l:`, its id and a line break; its record,
/// image directory and image files lie under `./db/apps/`, `./db/res/`.
pub proof fn lemma_entry_texts(display_name: Seq<char>, app_id: Seq<char>, author_id: Seq<char>, id: u8)
    ensures
        map_entry_of(display_name, app_id) == seq!['"'] + display_name + seq!['"', ':', '"', 'l', ':']
            + app_id + seq!['"'],
        author_line_of(app_id) == seq!['l', ':'] + app_id + seq!['\n'],
        author_file_of(author_id) == seq!['.', '/', 'd', 'b', '/', 'd', 'e', 'v', '/'] + author_id,
        app_file_of(app_id) == seq!['.', '/', 'd', 'b', '/', 'a', 'p', 'p', 's', '/'] + app_id + seq![
            '.',
            'j',
            's',
            'o',
            'n',
        ],
        resource_dir_of(app_id) == seq!['.', '/', 'd', 'b', '/', 'r', 'e', 's', '/'] + app_id,
        resource_file_of(app_id, id) == seq!['.', '/', 'd', 'b', '/', 'r', 'e', 's', '/'] + app_id
            + seq!['/'] + decimal(id as nat),
{
    reveal_strlit("\"");
    reveal_strlit("\":\"l:");
    reveal_strlit("l:");
    reveal_strlit("\n");
    reveal_strlit("./db/dev/");
    reveal_strlit("./db/apps/");
    reveal_strlit(".json");
    reveal_strlit("./db/res/");
    reveal_strlit("/");
    assert(map_entry_of(display_name, app_id) =~= seq!['"'] + display_name + seq!['"', ':', '"', 'l', ':']
        + app_id + seq!['"']);
    assert(author_line_of(app_id) =~= seq!['l', ':'] + app_id + seq!['\n']);
    assert(author_file_of(author_id) =~= seq!['.', '/', 'd', 'b', '/', 'd', 'e', 'v', '/'] + author_id);
    assert(app_file_of(app_id) =~= seq!['.', '/', 'd', 'b', '/', 'a', 'p', 'p', 's', '/'] + app_id + seq![
        '.',
        'j',
        's',
        'o',
        'n',
    ]);
    assert(resource_dir_of(app_id) =~= seq!['.', '/', 'd', 'b', '/', 'r', 'e', 's', '/'] + app_id);
    assert(resource_file_of(app_id, id) =~= seq!['.', '/', 'd', 'b', '/', 'r', 'e', 's', '/'] + app_id
        + seq!['/'] + decimal(id as nat));
}

/// The text of the total number of map files.
pub fn total_text(files: usize) -> (out: String)
    ensures
        out@ == decimal(files as nat),
{
    to_decimal(files as u64)
}

/// The store id of an application whose record has been written:
/// `f:<id>`.
pub fn filed_id(app_id: &str) -> (out: String)
    ensures
        out@ == "f:"@ + app_id@,
{
    let out = text_of(&["f:", app_id]);
    proof {
        reveal_with_fuel(concat_all, 3);
    }
    out
}

} // verus!
