use vstd::prelude::*;

verus! {

/// A project of the registry; blocks refer to it by id.
pub struct Project {
    pub project_id: i64,
    pub name: String,
    pub archived: bool,
    pub color: Option<i64>,
}

/// A color of the registry, as a hex value.
pub struct Color {
    pub color_id: i64,
    pub hex_value: String,
}

/// A tag of the registry; blocks and entries are linked to tags by id.
pub struct Tag {
    pub tag_id: i64,
    pub name: String,
    pub archived: bool,
}

/// The id that a store assigned to a newly inserted row.
#[derive(Debug, Clone, Copy, PartialEq, Eq, Structural)]
pub struct InsertResult {
    pub id: i64,
}

/// The answer of a backward cursor query: the start of the nearest earlier item.
#[derive(Debug, Clone, Copy, PartialEq, Eq, Structural)]
pub struct NextDataResponse {
    pub block_timestamp: i64,
}

/// A block as the store holds it. Timestamps are seconds since the Unix epoch, UTC.
pub struct BlockRow {
    pub block_id: i64,
    pub text: String,
    pub project: Option<i64>,
    pub start: i64,
    pub end: Option<i64>,
    pub duration: i64,
}

/// A block as it is handed out: its row joined with its project's name and
/// the distinct names of its tags.
pub struct Block {
    pub block_id: i64,
    pub text: String,
    pub project: Option<i64>,
    pub project_name: Option<String>,
    pub start: i64,
    pub end: Option<i64>,
    pub duration: i64,
    pub tags: Vec<String>,
}

/// An entry as the store holds it. `path` lists the ids of its ancestors,
/// outermost first; its text form is `/` followed by each id and a `/`.
pub struct EntryRow {
    pub entry_id: i64,
    pub parent: Option<i64>,
    pub path: Vec<i64>,
    pub nesting: i64,
    pub start_timestamp: i64,
    pub end_timestamp: Option<i64>,
    pub text: String,
    pub show_todo: bool,
    pub is_done: bool,
    pub estimated_duration: Option<i64>,
}

/// An entry as it is handed out: its row with the distinct names of its tags.
pub struct Entry {
    pub entry_id: i64,
    pub parent: Option<i64>,
    pub path: Vec<i64>,
    pub nesting: i64,
    pub start_timestamp: i64,
    pub end_timestamp: Option<i64>,
    pub text: String,
    pub show_todo: bool,
    pub is_done: bool,
    pub estimated_duration: Option<i64>,
    pub tags: Vec<String>,
}

/// The character views of a sequence of strings.
pub open spec fn views(v: Seq<String>) -> Seq<Seq<char>> {
    v.map_values(|s: String| s@)
}

/// The character view of an optional string.
pub open spec fn opt_view(s: Option<String>) -> Option<Seq<char>> {
    match s {
        Some(x) => Some(x@),
        None => None,
    }
}

impl BlockRow {
    /// A field-by-field copy of this row.
    pub fn copy(&self) -> (r: BlockRow)
        ensures
            r == *self,
    {
        BlockRow {
            block_id: self.block_id,
            text: self.text.clone(),
            project: self.project,
            start: self.start,
            end: self.end,
            duration: self.duration,
        }
    }
}

/// A copy of a sequence of ids.
pub fn copy_ids(v: &Vec<i64>) -> (r: Vec<i64>)
    ensures
        r@ == v@,
{
    let mut r: Vec<i64> = Vec::new();
    let mut i: usize = 0;
    while i < v.len()
        invariant
            i <= v.len(),
            r@ == v@.take(i as int),
        decreases v.len() - i,
    {
        r.push(v[i]);
        i = i + 1;
        assert(r@ =~= v@.take(i as int));
    }
    assert(v@.take(v.len() as int) =~= v@);
    r
}

/// Two entry rows that agree in every field, the ancestor path by its contents.
pub open spec fn same_entry_row(a: EntryRow, b: EntryRow) -> bool {
    &&& a.entry_id == b.entry_id
    &&& a.parent == b.parent
    &&& a.path@ == b.path@
    &&& a.nesting == b.nesting
    &&& a.start_timestamp == b.start_timestamp
    &&& a.end_timestamp == b.end_timestamp
    &&& a.text@ == b.text@
    &&& a.show_todo == b.show_todo
    &&& a.is_done == b.is_done
    &&& a.estimated_duration == b.estimated_duration
}

impl EntryRow {
    /// A field-by-field copy of this row.
    pub fn copy(&self) -> (r: EntryRow)
        ensures
            same_entry_row(r, *self),
    {
        EntryRow {
            entry_id: self.entry_id,
            parent: self.parent,
            path: copy_ids(&self.path),
            nesting: self.nesting,
            start_timestamp: self.start_timestamp,
            end_timestamp: self.end_timestamp,
            text: self.text.clone(),
            show_todo: self.show_todo,
            is_done: self.is_done,
            estimated_duration: self.estimated_duration,
        }
    }
}

} // verus!
