use vstd::prelude::*;
use crate::clock::{valid_timestamp, valid_opt_timestamp, MIN_TIMESTAMP, MAX_TIMESTAMP};
use crate::database::{Database, child_path, entry_row_ok, in_subtree_of};
use crate::errors::AppError;
use crate::models::{Entry, EntryRow, NextDataResponse, copy_ids, views};
use crate::registry::has_tag;
use crate::tags::{is_linked, linked_names, other_link, remove_link, tag_names};

verus! {

/// A row as starting a new entry at nesting `n` and instant `at` leaves it: an
/// open row at nesting `n` or deeper ends at `at`; any other row stays as it is.
pub open spec fn entry_closed_at(r: EntryRow, at: i64, n: i64) -> EntryRow {
    if r.end_timestamp is None && r.nesting >= n {
        EntryRow {
            entry_id: r.entry_id,
            parent: r.parent,
            path: r.path,
            nesting: r.nesting,
            start_timestamp: r.start_timestamp,
            end_timestamp: Some(at),
            text: r.text,
            show_todo: r.show_todo,
            is_done: r.is_done,
            estimated_duration: r.estimated_duration,
        }
    } else {
        r
    }
}

/// Whether deleting the entry `target` removes the row `r`: the target itself,
/// and with `with_children` every row inside its subtree.
pub open spec fn removed_with(target: EntryRow, with_children: bool, r: EntryRow) -> bool {
    r.entry_id == target.entry_id || (with_children && in_subtree_of(target, r.path@))
}

/// The rows that deleting `target` keeps.
pub open spec fn kept_by(target: EntryRow, with_children: bool) -> spec_fn(EntryRow) -> bool {
    |r: EntryRow| !removed_with(target, with_children, r)
}

/// The rows that survive deleting `target`, in their order.
pub open spec fn surviving(rows: Seq<EntryRow>, target: EntryRow, with_children: bool) -> Seq<EntryRow> {
    rows.filter(kept_by(target, with_children))
}

/// The row that an update leaves: the stored id, parent, path and nesting,
/// the other fields from `e`.
pub open spec fn updated_entry_row(r: EntryRow, e: Entry) -> EntryRow {
    EntryRow {
        entry_id: r.entry_id,
        parent: r.parent,
        path: r.path,
        nesting: r.nesting,
        start_timestamp: e.start_timestamp,
        end_timestamp: e.end_timestamp,
        text: e.text,
        show_todo: e.show_todo,
        is_done: e.is_done,
        estimated_duration: e.estimated_duration,
    }
}

fn is_prefix(prefix: &Vec<i64>, path: &Vec<i64>) -> (r: bool)
    ensures
        r == prefix@.is_prefix_of(path@),
{
    if prefix.len() > path.len() {
        return false;
    }
    let mut i: usize = 0;
    while i < prefix.len()
        invariant
            prefix@.len() <= path@.len(),
            i <= prefix@.len(),
            forall|j: int| 0 <= j < i ==> prefix@[j] == path@[j],
        decreases prefix@.len() - i,
    {
        if prefix[i] != path[i] {
            assert(prefix@[i as int] != path@.subrange(0, prefix@.len() as int)[i as int]);
            return false;
        }
        i = i + 1;
    }
    assert(prefix@ =~= path@.subrange(0, prefix@.len() as int));
    true
}

impl Database {
    /// Whether an entry with id `id` is stored.
    pub open spec fn has_entry(&self, id: i64) -> bool {
        exists|i: int| 0 <= i < self.entries@.len() && self.entries@[i].entry_id == id
    }

    /// The position of the stored entry with id `id`.
    pub open spec fn entry_index(&self, id: i64) -> int {
        choose|i: int| 0 <= i < self.entries@.len() && self.entries@[i].entry_id == id
    }

    /// The stored row of the entry with id `id`.
    pub open spec fn entry_row(&self, id: i64) -> EntryRow {
        self.entries@[self.entry_index(id)]
    }

    /// The ancestor path that a new entry under `parent` gets: empty for a
    /// root, else the parent's path followed by the parent's id.
    pub open spec fn new_entry_path(&self, parent: Option<i64>) -> Seq<i64> {
        match parent {
            Some(p) => child_path(self.entry_row(p)),
            None => seq![],
        }
    }

    /// Whether `e` is `row` with the distinct names of its tags.
    pub open spec fn entry_shows(&self, e: Entry, row: EntryRow) -> bool {
        &&& e.entry_id == row.entry_id
        &&& e.parent == row.parent
        &&& e.path@ == row.path@
        &&& e.nesting == row.nesting
        &&& e.start_timestamp == row.start_timestamp
        &&& e.end_timestamp == row.end_timestamp
        &&& e.text@ == row.text@
        &&& e.show_todo == row.show_todo
        &&& e.is_done == row.is_done
        &&& e.estimated_duration == row.estimated_duration
        &&& views(e.tags@) == linked_names(self.tags@, self.tagged_entries@, row.entry_id)
    }

    /// The failure, if any, of inserting an entry under `parent` at `start`: a
    /// missing or invalid start, an unknown parent, a parent at the deepest
    /// nesting, or a start earlier than a stored entry's are `BadRequest`; an
    /// exhausted id space is `InternalServer`.
    pub open spec fn insert_entry_error(&self, parent: Option<i64>, start: Option<i64>) -> Option<AppError> {
        match start {
            None => Some(AppError::BadRequest),
            Some(s) => if !valid_timestamp(s)
                || (parent matches Some(p) && (!self.has_entry(p) || self.entry_row(p).nesting == i64::MAX))
                || exists|i: int| 0 <= i < self.entries@.len() && self.entries@[i].start_timestamp > s {
                Some(AppError::BadRequest)
            } else if self.next_entry_id == i64::MAX {
                Some(AppError::InternalServer)
            } else {
                None
            },
        }
    }

    /// The failure, if any, of replacing the entry `entry_id` by `entry`: an
    /// id mismatch, a changed parent, an invalid bound, or reopening it beside
    /// another open entry at its nesting are `BadRequest`; an unknown id is `NotFound`.
    pub open spec fn update_entry_error(&self, entry_id: i64, entry: Entry) -> Option<AppError> {
        if entry_id != entry.entry_id {
            Some(AppError::BadRequest)
        } else if !self.has_entry(entry_id) {
            Some(AppError::NotFound)
        } else if entry.parent != self.entry_row(entry_id).parent || !valid_timestamp(entry.start_timestamp)
            || !valid_opt_timestamp(entry.end_timestamp)
            || (entry.end_timestamp is None && exists|i: int|
                0 <= i < self.entries@.len() && self.entries@[i].end_timestamp is None
                    && self.entries@[i].entry_id != entry_id
                    && self.entries@[i].nesting == self.entry_row(entry_id).nesting) {
            Some(AppError::BadRequest)
        } else {
            None
        }
    }

    fn find_entry(&self, id: i64) -> (r: Option<usize>)
        requires
            self.entries_wf(),
        ensures
            r matches Some(i) ==> i < self.entries@.len() && self.entries@[i as int].entry_id == id
                && i == self.entry_index(id),
            r is None <==> !self.has_entry(id),
    {
        let mut i: usize = 0;
        while i < self.entries.len()
            invariant
                self.entries_wf(),
                i <= self.entries.len(),
                forall|j: int| 0 <= j < i ==> self.entries@[j].entry_id != id,
            decreases self.entries.len() - i,
        {
            if self.entries[i].entry_id == id {
                let ghost c = self.entry_index(id);
                assert(self.entries@[c].entry_id == self.entries@[i as int].entry_id);
                return Some(i);
            }
            i = i + 1;
        }
        None
    }

    fn starts_after_entry(&self, s: i64) -> (r: bool)
        ensures
            r == exists|i: int| 0 <= i < self.entries@.len() && self.entries@[i].start_timestamp > s,
    {
        let mut i: usize = 0;
        while i < self.entries.len()
            invariant
                i <= self.entries@.len(),
                forall|j: int| 0 <= j < i ==> #[trigger] self.entries@[j].start_timestamp <= s,
            decreases self.entries@.len() - i,
        {
            if self.entries[i].start_timestamp > s {
                return true;
            }
            i = i + 1;
        }
        false
    }

    fn other_open_entry(&self, entry_id: i64, nesting: i64) -> (r: bool)
        ensures
            r == exists|i: int|
                0 <= i < self.entries@.len() && self.entries@[i].end_timestamp is None
                    && self.entries@[i].entry_id != entry_id && self.entries@[i].nesting == nesting,
    {
        let mut i: usize = 0;
        while i < self.entries.len()
            invariant
                i <= self.entries@.len(),
                forall|j: int| 0 <= j < i ==> !(#[trigger] self.entries@[j].end_timestamp is None
                    && self.entries@[j].entry_id != entry_id && self.entries@[j].nesting == nesting),
            decreases self.entries@.len() - i,
        {
            if self.entries[i].end_timestamp.is_none() && self.entries[i].entry_id != entry_id
                && self.entries[i].nesting == nesting {
                return true;
            }
            i = i + 1;
        }
        false
    }

    fn join_entry(&self, row: &EntryRow) -> (r: Entry)
        ensures
            self.entry_shows(r, *row),
    {
        Entry {
            entry_id: row.entry_id,
            parent: row.parent,
            path: copy_ids(&row.path),
            nesting: row.nesting,
            start_timestamp: row.start_timestamp,
            end_timestamp: row.end_timestamp,
            text: row.text.clone(),
            show_todo: row.show_todo,
            is_done: row.is_done,
            estimated_duration: row.estimated_duration,
            tags: tag_names(&self.tags, &self.tagged_entries, row.entry_id),
        }
    }

    /// The entry with id `entry_id`, with its tags; `NotFound` where none is stored.
    pub fn select_entry(&self, entry_id: i64) -> (r: Result<Entry, AppError>)
        requires
            self.wf(),
        ensures
            r is Err <==> !self.has_entry(entry_id),
            r matches Err(e) ==> e == AppError::NotFound,
            r matches Ok(e) ==> self.entry_shows(e, self.entry_row(entry_id)),
    {
        match self.find_entry(entry_id) {
            Some(i) => Ok(self.join_entry(&self.entries[i])),
            None => Err(AppError::NotFound),
        }
    }

    /// Closes at `at` every open entry at nesting `n` or deeper; every other
    /// entry is left as it is.
    pub fn close_open_entries(&mut self, at: i64, n: i64)
        requires
            old(self).wf(),
            valid_timestamp(at),
        ensures
            final(self).wf(),
            final(self).entries@ == old(self).entries@.map_values(|r: EntryRow| entry_closed_at(r, at, n)),
            final(self).blocks == old(self).blocks,
            final(self).projects == old(self).projects,
            final(self).colors == old(self).colors,
            final(self).tags == old(self).tags,
            final(self).tagged_blocks == old(self).tagged_blocks,
            final(self).tagged_entries == old(self).tagged_entries,
            final(self).next_block_id == old(self).next_block_id,
            final(self).next_entry_id == old(self).next_entry_id,
            final(self).next_project_id == old(self).next_project_id,
            final(self).next_color_id == old(self).next_color_id,
            final(self).next_tag_id == old(self).next_tag_id,
    {
        let ghost old_entries = self.entries@;
        let mut i: usize = 0;
        while i < self.entries.len()
            invariant
                i <= self.entries@.len(),
                self.entries@.len() == old_entries.len(),
                forall|j: int| 0 <= j < i ==> #[trigger] self.entries@[j] == entry_closed_at(old_entries[j], at, n),
                forall|j: int| i <= j < self.entries@.len() ==> #[trigger] self.entries@[j] == old_entries[j],
                self.blocks == old(self).blocks,
                self.projects == old(self).projects,
                self.colors == old(self).colors,
                self.tags == old(self).tags,
                self.tagged_blocks == old(self).tagged_blocks,
                self.tagged_entries == old(self).tagged_entries,
                self.next_block_id == old(self).next_block_id,
                self.next_entry_id == old(self).next_entry_id,
                self.next_project_id == old(self).next_project_id,
                self.next_color_id == old(self).next_color_id,
                self.next_tag_id == old(self).next_tag_id,
            decreases self.entries@.len() - i,
        {
            if self.entries[i].end_timestamp.is_none() && self.entries[i].nesting >= n {
                let ghost before = self.entries@;
                let mut row = self.entries.remove(i);
                row.end_timestamp = Some(at);
                self.entries.insert(i, row);
                proof {
                    assert forall|j: int| 0 <= j < self.entries@.len() && j != i implies
                        #[trigger] self.entries@[j] == before[j] by {
                        if j < i {
                            assert(self.entries@[j] == before.remove(i as int)[j]);
                        } else {
                            assert(self.entries@[j] == before.remove(i as int)[j - 1]);
                        }
                    }
                }
            }
            i = i + 1;
        }
        assert(self.entries@ =~= old_entries.map_values(|r: EntryRow| entry_closed_at(r, at, n)));
        proof {
            assert forall|i: int| 0 <= i < self.entries@.len() implies {
                &&& entry_row_ok(#[trigger] self.entries@[i])
                &&& 1 <= self.entries@[i].entry_id < self.next_entry_id
            } by {
                assert(entry_row_ok(old_entries[i]));
            }
            assert forall|i: int, j: int|
                0 <= i < self.entries@.len() && 0 <= j < self.entries@.len()
                    && #[trigger] self.entries@[i].entry_id == #[trigger] self.entries@[j].entry_id implies i == j by {
                assert(old_entries[i].entry_id == old_entries[j].entry_id);
            }
            assert forall|i: int, j: int|
                0 <= i < self.entries@.len() && 0 <= j < self.entries@.len()
                    && (#[trigger] self.entries@[i]).end_timestamp is None
                    && (#[trigger] self.entries@[j]).end_timestamp is None
                    && self.entries@[i].nesting == self.entries@[j].nesting implies i == j by {
                assert(old_entries[i].end_timestamp is None && old_entries[j].end_timestamp is None);
            }
        }
    }

    /// Starts an entry at `start` under `parent` (a root where there is none).
    /// Its path is the parent's path followed by the parent's id (empty for a
    /// root) and its nesting is the length of that path. Every open entry at
    /// that nesting or deeper is closed at `start` first; shallower entries are
    /// left as they are. The new entry is stored open under a fresh id and
    /// handed back with its tags. Fails as `insert_entry_error` says, leaving
    /// the store unchanged.
    pub fn insert_entry(
        &mut self,
        parent: Option<i64>,
        start: Option<i64>,
        text: String,
        show_todo: bool,
        is_done: bool,
        estimated_duration: Option<i64>,
    ) -> (r: Result<Entry, AppError>)
        requires
            old(self).wf(),
        ensures
            final(self).wf(),
            r is Err <==> old(self).insert_entry_error(parent, start) is Some,
            r matches Err(e) ==> old(self).insert_entry_error(parent, start) == Some(e),
            r is Err ==> *final(self) == *old(self),
            r matches Ok(e) ==> {
                let s = start->Some_0;
                let path = old(self).new_entry_path(parent);
                let n = path.len() as i64;
                let row = final(self).entries@.last();
                &&& final(self).entries@.len() == old(self).entries@.len() + 1
                &&& forall|i: int| 0 <= i < old(self).entries@.len() ==>
                    #[trigger] final(self).entries@[i] == entry_closed_at(old(self).entries@[i], s, n)
                &&& row.entry_id == old(self).next_entry_id
                &&& row.parent == parent
                &&& row.path@ == path
                &&& row.nesting == n
                &&& row.start_timestamp == s
                &&& row.end_timestamp is None
                &&& row.text == text
                &&& row.show_todo == show_todo
                &&& row.is_done == is_done
                &&& row.estimated_duration == estimated_duration
                &&& final(self).entry_shows(e, row)
                &&& final(self).next_entry_id == old(self).next_entry_id + 1
                &&& final(self).blocks == old(self).blocks
                &&& final(self).projects == old(self).projects
                &&& final(self).colors == old(self).colors
                &&& final(self).tags == old(self).tags
                &&& final(self).tagged_blocks == old(self).tagged_blocks
                &&& final(self).tagged_entries == old(self).tagged_entries
            },
            r matches Ok(e) ==> match parent {
                Some(p) => e.path@ == old(self).entry_row(p).path@.push(p)
                    && e.nesting == old(self).entry_row(p).nesting + 1,
                None => e.path@ == Seq::<i64>::empty() && e.nesting == 0,
            },
            r matches Ok(e) ==> forall|i: int| 0 <= i < old(self).entries@.len() ==> {
                &&& (old(self).entries@[i].end_timestamp is None && old(self).entries@[i].nesting >= e.nesting
                    ==> #[trigger] final(self).entries@[i].end_timestamp == Some(start->Some_0))
                &&& (old(self).entries@[i].nesting < e.nesting ==> final(self).entries@[i] == old(self).entries@[i])
            },
    {
        let s = match start {
            Some(s) => s,
            None => return Err(AppError::BadRequest),
        };
        if s < MIN_TIMESTAMP || s > MAX_TIMESTAMP {
            return Err(AppError::BadRequest);
        }
        let (path, nesting) = match parent {
            Some(p) => match self.find_entry(p) {
                Some(i) => {
                    if self.entries[i].nesting == i64::MAX {
                        return Err(AppError::BadRequest);
                    }
                    let mut path = copy_ids(&self.entries[i].path);
                    path.push(p);
                    (path, self.entries[i].nesting + 1)
                },
                None => return Err(AppError::BadRequest),
            },
            None => (Vec::new(), 0),
        };
        if self.starts_after_entry(s) {
            return Err(AppError::BadRequest);
        }
        if self.next_entry_id == i64::MAX {
            return Err(AppError::InternalServer);
        }
        assert(path@ == self.new_entry_path(parent));
        let ghost old_entries = self.entries@;
        self.close_open_entries(s, nesting);
        let id = self.next_entry_id;
        let row = EntryRow {
            entry_id: id,
            parent,
            path,
            nesting,
            start_timestamp: s,
            end_timestamp: None,
            text,
            show_todo,
            is_done,
            estimated_duration,
        };
        self.entries.push(row);
        self.next_entry_id = id + 1;
        proof {
            let n_old = old_entries.len() as int;
            assert forall|i: int| 0 <= i < n_old implies #[trigger] self.entries@[i] == entry_closed_at(old_entries[i], s, nesting) by {
                assert(self.entries@[i] == old_entries.map_values(|r: EntryRow| entry_closed_at(r, s, nesting))[i]);
            }
            assert forall|i: int| 0 <= i < self.entries@.len() implies {
                &&& entry_row_ok(#[trigger] self.entries@[i])
                &&& 1 <= self.entries@[i].entry_id < self.next_entry_id
            } by {
                if i < n_old {
                    assert(entry_row_ok(old_entries[i]));
                }
            }
            assert forall|i: int, j: int|
                0 <= i < self.entries@.len() && 0 <= j < self.entries@.len()
                    && #[trigger] self.entries@[i].entry_id == #[trigger] self.entries@[j].entry_id implies i == j by {
                if i < n_old && j < n_old {
                    assert(old_entries[i].entry_id == old_entries[j].entry_id);
                } else if i < n_old {
                    assert(old_entries[i].entry_id < id);
                } else if j < n_old {
                    assert(old_entries[j].entry_id < id);
                }
            }
            assert forall|i: int, j: int|
                0 <= i < self.entries@.len() && 0 <= j < self.entries@.len()
                    && (#[trigger] self.entries@[i]).end_timestamp is None
                    && (#[trigger] self.entries@[j]).end_timestamp is None
                    && self.entries@[i].nesting == self.entries@[j].nesting implies i == j by {
                if i < n_old && j < n_old {
                    assert(old_entries[i].end_timestamp is None && old_entries[j].end_timestamp is None);
                }
            }
        }
        let last = self.entries.len() - 1;
        Ok(self.join_entry(&self.entries[last]))
    }

    /// Replaces the bounds, text, flags and estimate of the entry `entry_id`
    /// by those of `entry`, and hands it back with its tags. Its parent, path
    /// and nesting stay: an entry cannot move. No other entry is closed. Fails
    /// as `update_entry_error` says, leaving the store unchanged.
    pub fn update_entry(&mut self, entry_id: i64, entry: Entry) -> (r: Result<Entry, AppError>)
        requires
            old(self).wf(),
        ensures
            final(self).wf(),
            r is Err <==> old(self).update_entry_error(entry_id, entry) is Some,
            r matches Err(e) ==> old(self).update_entry_error(entry_id, entry) == Some(e),
            r is Err ==> *final(self) == *old(self),
            r matches Ok(e) ==> {
                let idx = old(self).entry_index(entry_id);
                let row = updated_entry_row(old(self).entry_row(entry_id), entry);
                &&& final(self).entries@ == old(self).entries@.update(idx, row)
                &&& final(self).entry_shows(e, row)
                &&& final(self).next_entry_id == old(self).next_entry_id
                &&& final(self).blocks == old(self).blocks
                &&& final(self).projects == old(self).projects
                &&& final(self).colors == old(self).colors
                &&& final(self).tags == old(self).tags
                &&& final(self).tagged_blocks == old(self).tagged_blocks
                &&& final(self).tagged_entries == old(self).tagged_entries
            },
    {
        if entry_id != entry.entry_id {
            return Err(AppError::BadRequest);
        }
        let idx = match self.find_entry(entry_id) {
            Some(i) => i,
            None => return Err(AppError::NotFound),
        };
        if entry.parent != self.entries[idx].parent {
            return Err(AppError::BadRequest);
        }
        if entry.start_timestamp < MIN_TIMESTAMP || entry.start_timestamp > MAX_TIMESTAMP {
            return Err(AppError::BadRequest);
        }
        if let Some(e) = entry.end_timestamp {
            if e < MIN_TIMESTAMP || e > MAX_TIMESTAMP {
                return Err(AppError::BadRequest);
            }
        }
        if entry.end_timestamp.is_none() && self.other_open_entry(entry_id, self.entries[idx].nesting) {
            return Err(AppError::BadRequest);
        }
        let ghost before = self.entries@;
        let old_row = self.entries.remove(idx);
        let row = EntryRow {
            entry_id: old_row.entry_id,
            parent: old_row.parent,
            path: old_row.path,
            nesting: old_row.nesting,
            start_timestamp: entry.start_timestamp,
            end_timestamp: entry.end_timestamp,
            text: entry.text,
            show_todo: entry.show_todo,
            is_done: entry.is_done,
            estimated_duration: entry.estimated_duration,
        };
        self.entries.insert(idx, row);
        proof {
            assert(self.entries@ =~= before.update(idx as int, updated_entry_row(before[idx as int], entry)));
            assert forall|i: int| 0 <= i < self.entries@.len() implies {
                &&& entry_row_ok(#[trigger] self.entries@[i])
                &&& 1 <= self.entries@[i].entry_id < self.next_entry_id
            } by {
                assert(entry_row_ok(before[i]));
            }
            assert forall|i: int, j: int|
                0 <= i < self.entries@.len() && 0 <= j < self.entries@.len()
                    && #[trigger] self.entries@[i].entry_id == #[trigger] self.entries@[j].entry_id implies i == j by {
                assert(before[i].entry_id == before[j].entry_id);
            }
            assert forall|i: int, j: int|
                0 <= i < self.entries@.len() && 0 <= j < self.entries@.len()
                    && (#[trigger] self.entries@[i]).end_timestamp is None
                    && (#[trigger] self.entries@[j]).end_timestamp is None
                    && self.entries@[i].nesting == self.entries@[j].nesting implies i == j by {
                if i != idx && j != idx {
                    assert(before[i].end_timestamp is None && before[j].end_timestamp is None);
                } else if i == idx && j != idx {
                    assert(before[j].entry_id != entry_id);
                } else if j == idx && i != idx {
                    assert(before[i].entry_id != entry_id);
                }
            }
        }
        Ok(self.join_entry(&self.entries[idx]))
    }

    /// Links the entry `entry_id` to the tag `tag_id`. `BadRequest` where
    /// either is not stored; then nothing changes.
    pub fn tag_entry(&mut self, entry_id: i64, tag_id: i64) -> (r: Result<(), AppError>)
        requires
            old(self).wf(),
        ensures
            final(self).wf(),
            r is Err <==> !(old(self).has_entry(entry_id) && has_tag(old(self).tags@, tag_id)),
            r matches Err(e) ==> e == AppError::BadRequest,
            r is Err ==> *final(self) == *old(self),
            r is Ok ==> final(self).tagged_entries@ == old(self).tagged_entries@.push((entry_id, tag_id)),
            final(self).blocks == old(self).blocks,
            final(self).entries == old(self).entries,
            final(self).projects == old(self).projects,
            final(self).colors == old(self).colors,
            final(self).tags == old(self).tags,
            final(self).tagged_blocks == old(self).tagged_blocks,
    {
        if self.find_entry(entry_id).is_none() || !self.find_tag(tag_id) {
            return Err(AppError::BadRequest);
        }
        self.tagged_entries.push((entry_id, tag_id));
        Ok(())
    }

    /// Unlinks the entry `entry_id` from the tag `tag_id`, and says whether
    /// they were linked. Nothing else changes.
    pub fn untag_entry(&mut self, entry_id: i64, tag_id: i64) -> (r: bool)
        requires
            old(self).wf(),
        ensures
            final(self).wf(),
            r == is_linked(old(self).tagged_entries@, entry_id, tag_id),
            final(self).tagged_entries@ == old(self).tagged_entries@.filter(other_link(entry_id, tag_id)),
            final(self).blocks == old(self).blocks,
            final(self).entries == old(self).entries,
            final(self).projects == old(self).projects,
            final(self).colors == old(self).colors,
            final(self).tags == old(self).tags,
            final(self).tagged_blocks == old(self).tagged_blocks,
    {
        remove_link(&mut self.tagged_entries, entry_id, tag_id)
    }

    fn removes(target: &EntryRow, prefix: &Vec<i64>, with_children: bool, r: &EntryRow) -> (b: bool)
        requires
            prefix@ == child_path(*target),
        ensures
            b == removed_with(*target, with_children, *r),
    {
        r.entry_id == target.entry_id || (with_children && is_prefix(prefix, &r.path))
    }

    /// Deletes the entry `entry_id` and says whether it was stored. With
    /// `with_children`, every row whose path begins with the entry's path and
    /// id goes too; without, only the one row goes and its descendants stay as
    /// they are. Nothing else changes.
    pub fn delete_entry(&mut self, entry_id: i64, with_children: bool) -> (r: bool)
        requires
            old(self).wf(),
        ensures
            final(self).wf(),
            r == old(self).has_entry(entry_id),
            !r ==> *final(self) == *old(self),
            r ==> final(self).entries@ == surviving(old(self).entries@, old(self).entry_row(entry_id), with_children),
            final(self).blocks == old(self).blocks,
            final(self).projects == old(self).projects,
            final(self).colors == old(self).colors,
            final(self).tags == old(self).tags,
            final(self).tagged_blocks == old(self).tagged_blocks,
            final(self).tagged_entries == old(self).tagged_entries,
            final(self).next_entry_id == old(self).next_entry_id,
    {
        let idx = match self.find_entry(entry_id) {
            Some(i) => i,
            None => return false,
        };
        let target = self.entries[idx].copy();
        let mut prefix = copy_ids(&target.path);
        prefix.push(target.entry_id);
        let ghost t = self.entries@[idx as int];
        let ghost old_entries = self.entries@;
        let ghost keep = kept_by(t, with_children);
        assert(prefix@ == child_path(target));
        let mut i: usize = self.entries.len();
        assert(old_entries.skip(i as int) =~= Seq::<EntryRow>::empty());
        assert(old_entries.take(i as int) =~= old_entries);
        proof {
            reveal(Seq::filter);
        }
        while i > 0
            invariant
                i <= old_entries.len(),
                prefix@ == child_path(target),
                target.entry_id == t.entry_id,
                target.path@ == t.path@,
                keep == kept_by(t, with_children),
                self.entries@ == old_entries.take(i as int) + old_entries.skip(i as int).filter(keep),
                self.blocks == old(self).blocks,
                self.projects == old(self).projects,
                self.colors == old(self).colors,
                self.tags == old(self).tags,
                self.tagged_blocks == old(self).tagged_blocks,
                self.tagged_entries == old(self).tagged_entries,
                self.next_block_id == old(self).next_block_id,
                self.next_entry_id == old(self).next_entry_id,
                self.next_project_id == old(self).next_project_id,
                self.next_color_id == old(self).next_color_id,
                self.next_tag_id == old(self).next_tag_id,
            decreases i,
        {
            i = i - 1;
            let ghost x = old_entries[i as int];
            let ghost rest = old_entries.skip(i + 1);
            proof {
                assert(old_entries.skip(i as int) =~= seq![x] + rest);
                Seq::filter_distributes_over_add(seq![x], rest, keep);
                reveal_with_fuel(Seq::filter, 2);
                assert(seq![x].drop_last() =~= Seq::<EntryRow>::empty());
                assert(old_entries.take(i + 1) =~= old_entries.take(i as int).push(x));
                assert(self.entries@[i as int] == x);
            }
            if Self::removes(&target, &prefix, with_children, &self.entries[i]) {
                self.entries.remove(i);
                assert(self.entries@ =~= old_entries.take(i as int) + rest.filter(keep));
            } else {
                assert(self.entries@ =~= old_entries.take(i as int) + (seq![x] + rest).filter(keep));
            }
        }
        proof {
            assert(old_entries.take(0) =~= Seq::<EntryRow>::empty());
            assert(old_entries.skip(0) =~= old_entries);
            assert(self.entries@ =~= surviving(old_entries, t, with_children));
            let kept = self.entries@;
            assert forall|a: int| 0 <= a < kept.len() implies exists|k: int|
                0 <= k < old_entries.len() && old_entries[k] == #[trigger] kept[a] by {
                lemma_filter_from(old_entries, keep, a);
            }
            assert forall|a: int| 0 <= a < kept.len() implies {
                &&& entry_row_ok(#[trigger] kept[a])
                &&& 1 <= kept[a].entry_id < self.next_entry_id
            } by {
                let k = choose|k: int| 0 <= k < old_entries.len() && old_entries[k] == kept[a];
                assert(entry_row_ok(old_entries[k]));
            }
            assert forall|a: int, b: int|
                0 <= a < kept.len() && 0 <= b < kept.len()
                    && #[trigger] kept[a].entry_id == #[trigger] kept[b].entry_id implies a == b by {
                lemma_filter_no_dup_ids(old_entries, keep, a, b);
            }
            assert forall|a: int, b: int|
                0 <= a < kept.len() && 0 <= b < kept.len()
                    && (#[trigger] kept[a]).end_timestamp is None
                    && (#[trigger] kept[b]).end_timestamp is None
                    && kept[a].nesting == kept[b].nesting implies a == b by {
                let ka = choose|k: int| 0 <= k < old_entries.len() && old_entries[k] == kept[a];
                let kb = choose|k: int| 0 <= k < old_entries.len() && old_entries[k] == kept[b];
                assert(old_entries[ka].end_timestamp is None && old_entries[kb].end_timestamp is None);
                assert(ka == kb);
                lemma_filter_no_dup_ids(old_entries, keep, a, b);
            }
        }
        true
    }

    /// The start of the latest entry that starts strictly before `t`: the
    /// backward cursor. `NotFound` where no entry starts before `t`.
    pub fn nearest_entry_before(&self, t: i64) -> (r: Result<NextDataResponse, AppError>)
        ensures
            r is Err <==> forall|i: int| 0 <= i < self.entries@.len() ==> #[trigger] self.entries@[i].start_timestamp >= t,
            r matches Err(e) ==> e == AppError::NotFound,
            r matches Ok(n) ==> {
                &&& n.block_timestamp < t
                &&& exists|i: int| 0 <= i < self.entries@.len() && #[trigger] self.entries@[i].start_timestamp == n.block_timestamp
                &&& forall|i: int| 0 <= i < self.entries@.len() && #[trigger] self.entries@[i].start_timestamp < t
                    ==> self.entries@[i].start_timestamp <= n.block_timestamp
            },
    {
        let mut best: Option<i64> = None;
        let mut i: usize = 0;
        while i < self.entries.len()
            invariant
                i <= self.entries@.len(),
                best is None <==> forall|j: int| 0 <= j < i ==> #[trigger] self.entries@[j].start_timestamp >= t,
                best matches Some(b) ==> {
                    &&& b < t
                    &&& exists|j: int| 0 <= j < i && #[trigger] self.entries@[j].start_timestamp == b
                    &&& forall|j: int| 0 <= j < i && #[trigger] self.entries@[j].start_timestamp < t
                        ==> self.entries@[j].start_timestamp <= b
                },
            decreases self.entries@.len() - i,
        {
            let s = self.entries[i].start_timestamp;
            if s < t {
                match best {
                    Some(b) => {
                        if s > b {
                            best = Some(s);
                        }
                    },
                    None => {
                        best = Some(s);
                    },
                }
            }
            i = i + 1;
        }
        match best {
            Some(b) => Ok(NextDataResponse { block_timestamp: b }),
            None => Err(AppError::NotFound),
        }
    }
}

/// Each row that a filter keeps is a row of the input.
proof fn lemma_filter_from(rows: Seq<EntryRow>, keep: spec_fn(EntryRow) -> bool, a: int)
    requires
        0 <= a < rows.filter(keep).len(),
    ensures
        exists|k: int| 0 <= k < rows.len() && rows[k] == rows.filter(keep)[a],
    decreases rows.len(),
{
    reveal(Seq::filter);
    let sub = rows.drop_last().filter(keep);
    if keep(rows.last()) && a == sub.len() {
        assert(rows[rows.len() - 1] == rows.filter(keep)[a]);
    } else {
        lemma_filter_from(rows.drop_last(), keep, a);
        let k = choose|k: int| 0 <= k < rows.drop_last().len() && rows.drop_last()[k] == sub[a];
        assert(rows[k] == rows.filter(keep)[a]);
    }
}

/// Filtering rows with unique ids leaves rows with unique ids.
proof fn lemma_filter_no_dup_ids(rows: Seq<EntryRow>, keep: spec_fn(EntryRow) -> bool, a: int, b: int)
    requires
        forall|i: int, j: int|
            0 <= i < rows.len() && 0 <= j < rows.len() && #[trigger] rows[i].entry_id == #[trigger] rows[j].entry_id
                ==> i == j,
        0 <= a < rows.filter(keep).len(),
        0 <= b < rows.filter(keep).len(),
        rows.filter(keep)[a].entry_id == rows.filter(keep)[b].entry_id,
    ensures
        a == b,
    decreases rows.len(),
{
    reveal(Seq::filter);
    let sub = rows.drop_last().filter(keep);
    assert forall|i: int, j: int|
        0 <= i < rows.drop_last().len() && 0 <= j < rows.drop_last().len()
            && #[trigger] rows.drop_last()[i].entry_id == #[trigger] rows.drop_last()[j].entry_id implies i == j by {
        assert(rows[i].entry_id == rows[j].entry_id);
    }
    if keep(rows.last()) {
        let f = sub.push(rows.last());
        assert(rows.filter(keep) == f);
        if a < sub.len() && b < sub.len() {
            lemma_filter_no_dup_ids(rows.drop_last(), keep, a, b);
        } else if a < sub.len() || b < sub.len() {
            let k = if a < sub.len() { a } else { b };
            lemma_filter_from(rows.drop_last(), keep, k);
            let m = choose|m: int| 0 <= m < rows.drop_last().len() && rows.drop_last()[m] == sub[k];
            assert(rows[m].entry_id == rows[rows.len() - 1].entry_id);
        }
    } else {
        lemma_filter_no_dup_ids(rows.drop_last(), keep, a, b);
    }
}

/// Lexicographic order on ancestor paths: `a` comes no later than `b`.
pub open spec fn path_le(a: Seq<i64>, b: Seq<i64>) -> bool
    decreases a.len(),
{
    if a.len() == 0 {
        true
    } else if b.len() == 0 {
        false
    } else if a[0] != b[0] {
        a[0] < b[0]
    } else {
        path_le(a.drop_first(), b.drop_first())
    }
}

/// The order in which entries are listed: by ancestor path, then by id.
pub open spec fn entry_le(a: Entry, b: Entry) -> bool {
    if a.path@ == b.path@ {
        a.entry_id <= b.entry_id
    } else {
        path_le(a.path@, b.path@)
    }
}

/// Entries in listing order.
pub open spec fn sorted_by_path(r: Seq<Entry>) -> bool {
    forall|k: int, l: int| #![trigger r[k], r[l]] 0 <= k < l < r.len() ==> entry_le(r[k], r[l])
}

/// Whether a row starts strictly inside the window `(lo, hi)`.
pub open spec fn entry_in_window(r: EntryRow, lo: i64, hi: i64) -> bool {
    lo < r.start_timestamp < hi
}

proof fn lemma_path_le_total(a: Seq<i64>, b: Seq<i64>)
    ensures
        path_le(a, b) || path_le(b, a),
    decreases a.len(),
{
    if a.len() > 0 && b.len() > 0 && a[0] == b[0] {
        lemma_path_le_total(a.drop_first(), b.drop_first());
    }
}

proof fn lemma_path_le_antisym(a: Seq<i64>, b: Seq<i64>)
    requires
        path_le(a, b),
        path_le(b, a),
    ensures
        a == b,
    decreases a.len(),
{
    if a.len() > 0 && b.len() > 0 {
        lemma_path_le_antisym(a.drop_first(), b.drop_first());
        assert(a =~= seq![a[0]] + a.drop_first());
        assert(b =~= seq![b[0]] + b.drop_first());
    } else {
        assert(a =~= b);
    }
}

proof fn lemma_path_le_trans(a: Seq<i64>, b: Seq<i64>, c: Seq<i64>)
    requires
        path_le(a, b),
        path_le(b, c),
    ensures
        path_le(a, c),
    decreases a.len(),
{
    if a.len() > 0 && b.len() > 0 && c.len() > 0 && a[0] == b[0] && b[0] == c[0] {
        lemma_path_le_trans(a.drop_first(), b.drop_first(), c.drop_first());
    }
}

proof fn lemma_entry_le_total(a: Entry, b: Entry)
    ensures
        entry_le(a, b) || entry_le(b, a),
{
    lemma_path_le_total(a.path@, b.path@);
}

proof fn lemma_entry_le_trans(a: Entry, b: Entry, c: Entry)
    requires
        entry_le(a, b),
        entry_le(b, c),
    ensures
        entry_le(a, c),
{
    if a.path@ == b.path@ && b.path@ == c.path@ {
    } else if a.path@ == b.path@ {
    } else if b.path@ == c.path@ {
    } else {
        lemma_path_le_trans(a.path@, b.path@, c.path@);
        if a.path@ == c.path@ {
            lemma_path_le_antisym(a.path@, b.path@);
        }
    }
}

fn path_le_exec(a: &Vec<i64>, b: &Vec<i64>) -> (r: bool)
    ensures
        r == path_le(a@, b@),
{
    let mut i: usize = 0;
    assert(a@.skip(0) =~= a@);
    assert(b@.skip(0) =~= b@);
    while i < a.len() && i < b.len()
        invariant
            i <= a@.len(),
            i <= b@.len(),
            path_le(a@, b@) == path_le(a@.skip(i as int), b@.skip(i as int)),
        decreases a@.len() - i,
    {
        assert(a@.skip(i as int).drop_first() =~= a@.skip(i + 1));
        assert(b@.skip(i as int).drop_first() =~= b@.skip(i + 1));
        if a[i] != b[i] {
            return a[i] < b[i];
        }
        i = i + 1;
    }
    a.len() <= b.len()
}

fn same_path(a: &Vec<i64>, b: &Vec<i64>) -> (r: bool)
    ensures
        r == (a@ == b@),
{
    if a.len() != b.len() {
        return false;
    }
    let mut i: usize = 0;
    while i < a.len()
        invariant
            a@.len() == b@.len(),
            i <= a@.len(),
            forall|j: int| 0 <= j < i ==> a@[j] == b@[j],
        decreases a@.len() - i,
    {
        if a[i] != b[i] {
            return false;
        }
        i = i + 1;
    }
    assert(a@ =~= b@);
    true
}

fn entry_le_exec(a: &Entry, b: &Entry) -> (r: bool)
    ensures
        r == entry_le(*a, *b),
{
    if same_path(&a.path, &b.path) {
        a.entry_id <= b.entry_id
    } else {
        path_le_exec(&a.path, &b.path)
    }
}

fn entry_position(out: &Vec<Entry>, e: &Entry) -> (p: usize)
    requires
        sorted_by_path(out@),
    ensures
        p <= out@.len(),
        forall|m: int| 0 <= m < p ==> entry_le(#[trigger] out@[m], *e),
        forall|m: int| p <= m < out@.len() ==> entry_le(*e, #[trigger] out@[m]),
{
    let mut p: usize = 0;
    while p < out.len()
        invariant
            sorted_by_path(out@),
            p <= out@.len(),
            forall|m: int| 0 <= m < p ==> entry_le(#[trigger] out@[m], *e),
        decreases out@.len() - p,
    {
        if !entry_le_exec(&out[p], e) {
            assert forall|m: int| p <= m < out@.len() implies entry_le(*e, #[trigger] out@[m]) by {
                if entry_le(out@[m], *e) {
                    lemma_entry_le_trans(out@[p as int], out@[m], *e);
                }
                lemma_entry_le_total(out@[m], *e);
            }
            return p;
        }
        p = p + 1;
    }
    p
}

impl Database {
    /// Whether `e` is a stored entry that starts inside `(lo, hi)`, with its tags.
    pub open spec fn shows_entry_in_window(&self, e: Entry, lo: i64, hi: i64) -> bool {
        exists|j: int|
            0 <= j < self.entries@.len() && entry_in_window(self.entries@[j], lo, hi)
                && #[trigger] self.entry_shows(e, self.entries@[j])
    }

    /// Whether `r` lists exactly the stored entries that start inside
    /// `(lo, hi)`, each once and with its tags, ordered by path and then id.
    pub open spec fn lists_entries(&self, r: Seq<Entry>, lo: i64, hi: i64) -> bool {
        &&& sorted_by_path(r)
        &&& forall|k: int, l: int| 0 <= k < l < r.len() ==> #[trigger] r[k].entry_id != #[trigger] r[l].entry_id
        &&& forall|k: int| 0 <= k < r.len() ==> self.shows_entry_in_window(#[trigger] r[k], lo, hi)
        &&& forall|j: int| 0 <= j < self.entries@.len() && #[trigger] entry_in_window(self.entries@[j], lo, hi)
            ==> exists|k: int| 0 <= k < r.len() && r[k].entry_id == self.entries@[j].entry_id
    }

    /// The entries that start strictly inside `(start, end)`, ordered by
    /// ancestor path and then id, each with the distinct names of its tags
    /// (none where it has none).
    pub fn list_entries(&self, start: i64, end: i64) -> (r: Vec<Entry>)
        requires
            self.wf(),
        ensures
            self.lists_entries(r@, start, end),
    {
        let mut out: Vec<Entry> = Vec::new();
        let ghost mut src: Seq<int> = seq![];
        let mut i: usize = 0;
        while i < self.entries.len()
            invariant
                self.wf(),
                i <= self.entries@.len(),
                sorted_by_path(out@),
                src.len() == out@.len(),
                forall|k: int, l: int| 0 <= k < l < src.len() ==> #[trigger] src[k] != #[trigger] src[l],
                forall|k: int| 0 <= k < out@.len() ==> {
                    &&& 0 <= #[trigger] src[k] < i
                    &&& entry_in_window(self.entries@[src[k]], start, end)
                    &&& self.entry_shows(out@[k], self.entries@[src[k]])
                },
                forall|j: int| 0 <= j < i && #[trigger] entry_in_window(self.entries@[j], start, end)
                    ==> exists|k: int| 0 <= k < src.len() && src[k] == j,
            decreases self.entries@.len() - i,
        {
            if start < self.entries[i].start_timestamp && self.entries[i].start_timestamp < end {
                let e = self.join_entry(&self.entries[i]);
                let p = entry_position(&out, &e);
                let ghost before = out@;
                let ghost src0 = src;
                out.insert(p, e);
                proof {
                    let ii = i as int;
                    let pp = p as int;
                    src = src0.insert(pp, ii);
                    assert(out@ == before.insert(pp, e));
                    assert forall|k: int, l: int| 0 <= k < l < out@.len() implies entry_le(out@[k], out@[l]) by {
                        if k < pp && l > pp {
                            assert(out@[l] == before[l - 1]);
                            lemma_entry_le_trans(before[k], e, before[l - 1]);
                        } else if k > pp {
                            assert(out@[k] == before[k - 1] && out@[l] == before[l - 1]);
                        } else if k == pp {
                            assert(out@[l] == before[l - 1]);
                        }
                    }
                    assert forall|k: int, l: int| 0 <= k < l < src.len() implies #[trigger] src[k] != #[trigger] src[l] by {
                        if k < pp && l > pp {
                            assert(src[l] == src0[l - 1]);
                        } else if k > pp {
                            assert(src[k] == src0[k - 1] && src[l] == src0[l - 1]);
                        } else if k == pp {
                            assert(src[l] == src0[l - 1]);
                        }
                    }
                    assert forall|k: int| 0 <= k < out@.len() implies {
                        &&& 0 <= #[trigger] src[k] < ii + 1
                        &&& entry_in_window(self.entries@[src[k]], start, end)
                        &&& self.entry_shows(out@[k], self.entries@[src[k]])
                    } by {
                        if k < pp {
                            assert(out@[k] == before[k] && src[k] == src0[k]);
                        } else if k > pp {
                            assert(out@[k] == before[k - 1] && src[k] == src0[k - 1]);
                        }
                    }
                    assert forall|j: int| 0 <= j < ii + 1 && #[trigger] entry_in_window(self.entries@[j], start, end)
                        implies exists|k: int| 0 <= k < src.len() && src[k] == j by {
                        if j == ii {
                            assert(src[pp] == j);
                        } else {
                            let k0 = choose|k: int| 0 <= k < src0.len() && src0[k] == j;
                            let k1 = if k0 < pp { k0 } else { k0 + 1 };
                            assert(src[k1] == j);
                        }
                    }
                }
            }
            i = i + 1;
        }
        proof {
            assert forall|k: int, l: int| 0 <= k < l < out@.len() implies
                #[trigger] out@[k].entry_id != #[trigger] out@[l].entry_id by {
                assert(src[k] != src[l]);
                assert(self.entries@[src[k]].entry_id == out@[k].entry_id);
                assert(self.entries@[src[l]].entry_id == out@[l].entry_id);
            }
            assert forall|k: int| 0 <= k < out@.len() implies self.shows_entry_in_window(#[trigger] out@[k], start, end) by {
                assert(self.entry_shows(out@[k], self.entries@[src[k]]));
            }
            assert forall|j: int| 0 <= j < self.entries@.len() && #[trigger] entry_in_window(self.entries@[j], start, end)
                implies exists|k: int| 0 <= k < out@.len() && out@[k].entry_id == self.entries@[j].entry_id by {
                let k = choose|k: int| 0 <= k < src.len() && src[k] == j;
                assert(out@[k].entry_id == self.entries@[j].entry_id);
            }
        }
        out
    }
}

proof fn lemma_filter_keeps_all(rows: Seq<EntryRow>, keep: spec_fn(EntryRow) -> bool)
    requires
        forall|i: int| 0 <= i < rows.len() ==> keep(#[trigger] rows[i]),
    ensures
        rows.filter(keep) == rows,
    decreases rows.len(),
{
    reveal(Seq::filter);
    if rows.len() > 0 {
        assert forall|i: int| 0 <= i < rows.drop_last().len() implies keep(#[trigger] rows.drop_last()[i]) by {
            assert(keep(rows[i]));
        }
        lemma_filter_keeps_all(rows.drop_last(), keep);
        assert(keep(rows[rows.len() - 1]));
        assert(rows.drop_last().push(rows.last()) =~= rows);
    }
}

proof fn lemma_filter_drops_one(rows: Seq<EntryRow>, keep: spec_fn(EntryRow) -> bool, idx: int)
    requires
        0 <= idx < rows.len(),
        !keep(rows[idx]),
        forall|i: int| 0 <= i < rows.len() && i != idx ==> keep(#[trigger] rows[i]),
    ensures
        rows.filter(keep) == rows.remove(idx),
    decreases rows.len(),
{
    reveal(Seq::filter);
    if idx == rows.len() - 1 {
        assert forall|i: int| 0 <= i < rows.drop_last().len() implies keep(#[trigger] rows.drop_last()[i]) by {
            assert(keep(rows[i]));
        }
        lemma_filter_keeps_all(rows.drop_last(), keep);
        assert(rows.remove(idx) =~= rows.drop_last());
    } else {
        assert forall|i: int| 0 <= i < rows.drop_last().len() && i != idx implies keep(#[trigger] rows.drop_last()[i]) by {
            assert(keep(rows[i]));
        }
        lemma_filter_drops_one(rows.drop_last(), keep, idx);
        assert(keep(rows[rows.len() - 1]));
        assert(rows.remove(idx) =~= rows.drop_last().remove(idx).push(rows.last()));
    }
}

/// Deleting an entry without its children removes exactly its one row; every
/// other row, descendants included, stays as it was and in its place.
pub proof fn lemma_delete_entry_alone(db: Database, id: i64)
    requires
        db.wf(),
        db.has_entry(id),
    ensures
        surviving(db.entries@, db.entry_row(id), false) == db.entries@.remove(db.entry_index(id)),
{
    let idx = db.entry_index(id);
    let t = db.entry_row(id);
    let keep = kept_by(t, false);
    assert forall|i: int| 0 <= i < db.entries@.len() && i != idx implies keep(#[trigger] db.entries@[i]) by {
        if db.entries@[i].entry_id == t.entry_id {
            assert(db.entries@[i].entry_id == db.entries@[idx].entry_id);
        }
    }
    lemma_filter_drops_one(db.entries@, keep, idx);
}

/// Deleting an entry with its children keeps a stored row exactly when it is
/// neither the entry nor a row whose path begins with the entry's path and id.
pub proof fn lemma_delete_entry_with_children(db: Database, id: i64)
    requires
        db.wf(),
        db.has_entry(id),
    ensures
        forall|k: int| 0 <= k < db.entries@.len() ==> (
            surviving(db.entries@, db.entry_row(id), true).contains(#[trigger] db.entries@[k]) <==> !(
                db.entries@[k].entry_id == id || child_path(db.entry_row(id)).is_prefix_of(db.entries@[k].path@))),
{
    broadcast use vstd::seq_lib::group_filter_ensures;
    let t = db.entry_row(id);
    let keep = kept_by(t, true);
    assert forall|k: int| 0 <= k < db.entries@.len() implies (
        surviving(db.entries@, t, true).contains(#[trigger] db.entries@[k]) <==> keep(db.entries@[k])) by {
        if surviving(db.entries@, t, true).contains(db.entries@[k]) {
            let a = choose|a: int| 0 <= a < db.entries@.filter(keep).len() && db.entries@.filter(keep)[a] == db.entries@[k];
            assert(keep(db.entries@.filter(keep)[a]));
        }
    }
}

/// Whether a listing holds the entry `id`.
pub open spec fn lists_entry_id(r: Seq<Entry>, id: i64) -> bool {
    exists|k: int| 0 <= k < r.len() && r[k].entry_id == id
}

/// Two listings of one window of one store hold the same entries.
pub proof fn lemma_list_entries_same_set(db: Database, r1: Seq<Entry>, r2: Seq<Entry>, lo: i64, hi: i64)
    requires
        db.wf(),
        db.lists_entries(r1, lo, hi),
        db.lists_entries(r2, lo, hi),
    ensures
        forall|id: i64| #[trigger] lists_entry_id(r1, id) == lists_entry_id(r2, id),
{
    assert forall|id: i64| lists_entry_id(r1, id) implies #[trigger] lists_entry_id(r2, id) by {
        let k = choose|k: int| 0 <= k < r1.len() && r1[k].entry_id == id;
        assert(db.shows_entry_in_window(r1[k], lo, hi));
        let j = choose|j: int| 0 <= j < db.entries@.len() && entry_in_window(db.entries@[j], lo, hi)
            && db.entry_shows(r1[k], db.entries@[j]);
        assert(entry_in_window(db.entries@[j], lo, hi));
    }
    assert forall|id: i64| lists_entry_id(r2, id) implies #[trigger] lists_entry_id(r1, id) by {
        let k = choose|k: int| 0 <= k < r2.len() && r2[k].entry_id == id;
        assert(db.shows_entry_in_window(r2[k], lo, hi));
        let j = choose|j: int| 0 <= j < db.entries@.len() && entry_in_window(db.entries@[j], lo, hi)
            && db.entry_shows(r2[k], db.entries@[j]);
        assert(entry_in_window(db.entries@[j], lo, hi));
    }
}

} // verus!
