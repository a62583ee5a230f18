use vstd::prelude::*;
use crate::clock::{valid_timestamp, valid_opt_timestamp};
use crate::models::{BlockRow, Color, EntryRow, Project, Tag};

verus! {

/// The tables of the engine: blocks, entries, the registry and the links
/// between tags and the items they label. Every operation keeps `wf`.
pub struct Database {
    pub blocks: Vec<BlockRow>,
    pub entries: Vec<EntryRow>,
    pub projects: Vec<Project>,
    pub colors: Vec<Color>,
    pub tags: Vec<Tag>,
    /// Pairs of a block id and a tag id.
    pub tagged_blocks: Vec<(i64, i64)>,
    /// Pairs of an entry id and a tag id.
    pub tagged_entries: Vec<(i64, i64)>,
    pub next_block_id: i64,
    pub next_entry_id: i64,
    pub next_project_id: i64,
    pub next_color_id: i64,
    pub next_tag_id: i64,
}

/// The duration that a block's bounds give: zero while it is open.
pub open spec fn duration_of(start: i64, end: Option<i64>) -> int {
    match end {
        Some(e) => e - start,
        None => 0,
    }
}

/// A block row whose fields agree with one another.
pub open spec fn block_row_ok(r: BlockRow) -> bool {
    &&& valid_timestamp(r.start)
    &&& valid_opt_timestamp(r.end)
    &&& r.duration == duration_of(r.start, r.end)
}

/// An entry row whose fields agree with one another.
pub open spec fn entry_row_ok(r: EntryRow) -> bool {
    &&& valid_timestamp(r.start_timestamp)
    &&& valid_opt_timestamp(r.end_timestamp)
    &&& r.nesting == r.path@.len()
    &&& (r.parent is None <==> r.path@.len() == 0)
    &&& (r.parent matches Some(p) ==> r.path@.last() == p)
}

/// The ancestor path that a child of `parent` gets: the parent's path and id.
pub open spec fn child_path(parent: EntryRow) -> Seq<i64> {
    parent.path@.push(parent.entry_id)
}

/// Whether `path` lies inside the subtree of `e`.
pub open spec fn in_subtree_of(e: EntryRow, path: Seq<i64>) -> bool {
    child_path(e).is_prefix_of(path)
}

impl Database {
    /// The invariant of the block timeline: ids unique and below the next id,
    /// rows consistent, and at most one block open.
    pub open spec fn blocks_wf(&self) -> bool {
        &&& 1 <= self.next_block_id
        &&& forall|i: int| 0 <= i < self.blocks@.len() ==> {
            &&& block_row_ok(#[trigger] self.blocks@[i])
            &&& 1 <= self.blocks@[i].block_id < self.next_block_id
        }
        &&& forall|i: int, j: int|
            0 <= i < self.blocks@.len() && 0 <= j < self.blocks@.len()
                && #[trigger] self.blocks@[i].block_id == #[trigger] self.blocks@[j].block_id ==> i == j
        &&& forall|i: int, j: int|
            0 <= i < self.blocks@.len() && 0 <= j < self.blocks@.len()
                && (#[trigger] self.blocks@[i]).end is None && (#[trigger] self.blocks@[j]).end is None
                ==> i == j
    }

    /// The invariant of the entry tree: ids unique and below the next id, rows
    /// consistent, and no two open entries at one nesting level.
    pub open spec fn entries_wf(&self) -> bool {
        &&& 1 <= self.next_entry_id
        &&& forall|i: int| 0 <= i < self.entries@.len() ==> {
            &&& entry_row_ok(#[trigger] self.entries@[i])
            &&& 1 <= self.entries@[i].entry_id < self.next_entry_id
        }
        &&& forall|i: int, j: int|
            0 <= i < self.entries@.len() && 0 <= j < self.entries@.len()
                && #[trigger] self.entries@[i].entry_id == #[trigger] self.entries@[j].entry_id ==> i == j
        &&& forall|i: int, j: int|
            0 <= i < self.entries@.len() && 0 <= j < self.entries@.len()
                && (#[trigger] self.entries@[i]).end_timestamp is None
                && (#[trigger] self.entries@[j]).end_timestamp is None
                && self.entries@[i].nesting == self.entries@[j].nesting ==> i == j
    }

    /// The invariant of the registry: ids unique and below the next id.
    pub open spec fn registry_wf(&self) -> bool {
        &&& 1 <= self.next_project_id
        &&& 1 <= self.next_color_id
        &&& 1 <= self.next_tag_id
        &&& forall|i: int| 0 <= i < self.projects@.len() ==>
            1 <= #[trigger] self.projects@[i].project_id < self.next_project_id
        &&& forall|i: int, j: int|
            0 <= i < self.projects@.len() && 0 <= j < self.projects@.len()
                && #[trigger] self.projects@[i].project_id == #[trigger] self.projects@[j].project_id ==> i == j
        &&& forall|i: int| 0 <= i < self.colors@.len() ==>
            1 <= #[trigger] self.colors@[i].color_id < self.next_color_id
        &&& forall|i: int, j: int|
            0 <= i < self.colors@.len() && 0 <= j < self.colors@.len()
                && #[trigger] self.colors@[i].color_id == #[trigger] self.colors@[j].color_id ==> i == j
        &&& forall|i: int| 0 <= i < self.tags@.len() ==>
            1 <= #[trigger] self.tags@[i].tag_id < self.next_tag_id
        &&& forall|i: int, j: int|
            0 <= i < self.tags@.len() && 0 <= j < self.tags@.len()
                && #[trigger] self.tags@[i].tag_id == #[trigger] self.tags@[j].tag_id ==> i == j
    }

    /// The invariant of the whole store.
    pub open spec fn wf(&self) -> bool {
        &&& self.blocks_wf()
        &&& self.entries_wf()
        &&& self.registry_wf()
    }

    /// An empty store.
    pub fn new() -> (r: Database)
        ensures
            r.wf(),
            r.blocks@.len() == 0,
            r.entries@.len() == 0,
            r.projects@.len() == 0,
            r.colors@.len() == 0,
            r.tags@.len() == 0,
            r.tagged_blocks@.len() == 0,
            r.tagged_entries@.len() == 0,
            r.next_block_id == 1,
            r.next_entry_id == 1,
            r.next_project_id == 1,
            r.next_color_id == 1,
            r.next_tag_id == 1,
    {
        Database {
            blocks: Vec::new(),
            entries: Vec::new(),
            projects: Vec::new(),
            colors: Vec::new(),
            tags: Vec::new(),
            tagged_blocks: Vec::new(),
            tagged_entries: Vec::new(),
            next_block_id: 1,
            next_entry_id: 1,
            next_project_id: 1,
            next_color_id: 1,
            next_tag_id: 1,
        }
    }
}

} // verus!
