use vstd::prelude::*;
use crate::clock::{valid_timestamp, valid_opt_timestamp, MIN_TIMESTAMP, MAX_TIMESTAMP};
use crate::database::{Database, block_row_ok, duration_of};
use crate::errors::AppError;
use crate::models::{Block, BlockRow, NextDataResponse, opt_view, views};
use crate::registry::{project_name_of, project_ref_ok};
use crate::registry::has_tag;
use crate::tags::{is_linked, linked_names, other_link, remove_link, tag_names};

verus! {

/// A row as closing by a successor starting at `at` leaves it: an open row ends
/// at `at` and lasts from its start to `at`; a closed row stays as it is.
pub open spec fn closed_at(r: BlockRow, at: i64) -> BlockRow {
    if r.end is None {
        BlockRow {
            block_id: r.block_id,
            text: r.text,
            project: r.project,
            start: r.start,
            end: Some(at),
            duration: (at - r.start) as i64,
        }
    } else {
        r
    }
}

/// The row that a fresh insert creates: open, with no duration yet.
pub open spec fn new_block_row(id: i64, text: String, project: Option<i64>, start: i64) -> BlockRow {
    BlockRow { block_id: id, text, project, start, end: None, duration: 0 }
}

/// The row that an update leaves: the given fields, the duration derived from them.
pub open spec fn updated_block_row(b: Block) -> BlockRow {
    BlockRow {
        block_id: b.block_id,
        text: b.text,
        project: b.project,
        start: b.start,
        end: b.end,
        duration: duration_of(b.start, b.end) as i64,
    }
}

/// Whether a row starts strictly inside the window `(lo, hi)`.
pub open spec fn in_window(r: BlockRow, lo: i64, hi: i64) -> bool {
    lo < r.start < hi
}

impl Database {
    /// Whether a block with id `id` is stored.
    pub open spec fn has_block(&self, id: i64) -> bool {
        exists|i: int| 0 <= i < self.blocks@.len() && self.blocks@[i].block_id == id
    }

    /// The stored row of the block with id `id`.
    pub open spec fn block_row(&self, id: i64) -> BlockRow {
        self.blocks@[choose|i: int| 0 <= i < self.blocks@.len() && self.blocks@[i].block_id == id]
    }

    /// Whether `b` is `row` joined with its project's name and its tags' names.
    pub open spec fn block_shows(&self, b: Block, row: BlockRow) -> bool {
        &&& b.block_id == row.block_id
        &&& b.text == row.text
        &&& b.project == row.project
        &&& b.start == row.start
        &&& b.end == row.end
        &&& b.duration == row.duration
        &&& opt_view(b.project_name) == project_name_of(self.projects@, row.project)
        &&& views(b.tags@) == linked_names(self.tags@, self.tagged_blocks@, row.block_id)
    }

    /// The failure, if any, of inserting a block that starts at `start`: a
    /// missing or invalid start, an unknown project, or a start earlier than a
    /// stored block's are `BadRequest`; an exhausted id space is `InternalServer`.
    pub open spec fn insert_block_error(&self, project: Option<i64>, start: Option<i64>) -> Option<AppError> {
        match start {
            None => Some(AppError::BadRequest),
            Some(s) => if !valid_timestamp(s) || !project_ref_ok(self.projects@, project)
                || exists|i: int| 0 <= i < self.blocks@.len() && self.blocks@[i].start > s {
                Some(AppError::BadRequest)
            } else if self.next_block_id == i64::MAX {
                Some(AppError::InternalServer)
            } else {
                None
            },
        }
    }

    /// The failure, if any, of replacing the block `block_id` by `block`.
    pub open spec fn update_block_error(&self, block_id: i64, block: Block) -> Option<AppError> {
        if block_id != block.block_id {
            Some(AppError::BadRequest)
        } else if !self.has_block(block_id) {
            Some(AppError::NotFound)
        } else if !valid_timestamp(block.start) || !valid_opt_timestamp(block.end)
            || !project_ref_ok(self.projects@, block.project)
            || (block.end is None && exists|i: int|
                0 <= i < self.blocks@.len() && self.blocks@[i].end is None && self.blocks@[i].block_id != block_id) {
            Some(AppError::BadRequest)
        } else {
            None
        }
    }

    fn find_block(&self, id: i64) -> (r: Option<usize>)
        ensures
            r matches Some(i) ==> i < self.blocks@.len() && self.blocks@[i as int].block_id == id,
            r is None <==> !self.has_block(id),
    {
        let mut i: usize = 0;
        while i < self.blocks.len()
            invariant
                i <= self.blocks.len(),
                forall|j: int| 0 <= j < i ==> self.blocks@[j].block_id != id,
            decreases self.blocks.len() - i,
        {
            if self.blocks[i].block_id == id {
                return Some(i);
            }
            i = i + 1;
        }
        None
    }

    fn starts_after(&self, s: i64) -> (r: bool)
        ensures
            r == exists|i: int| 0 <= i < self.blocks@.len() && self.blocks@[i].start > s,
    {
        let mut i: usize = 0;
        while i < self.blocks.len()
            invariant
                i <= self.blocks@.len(),
                forall|j: int| 0 <= j < i ==> #[trigger] self.blocks@[j].start <= s,
            decreases self.blocks@.len() - i,
        {
            if self.blocks[i].start > s {
                return true;
            }
            i = i + 1;
        }
        false
    }

    fn other_open_block(&self, block_id: i64) -> (r: bool)
        ensures
            r == exists|i: int|
                0 <= i < self.blocks@.len() && self.blocks@[i].end is None && self.blocks@[i].block_id != block_id,
    {
        let mut i: usize = 0;
        while i < self.blocks.len()
            invariant
                i <= self.blocks@.len(),
                forall|j: int| 0 <= j < i ==>
                    !(#[trigger] self.blocks@[j].end is None && self.blocks@[j].block_id != block_id),
            decreases self.blocks@.len() - i,
        {
            if self.blocks[i].end.is_none() && self.blocks[i].block_id != block_id {
                return true;
            }
            i = i + 1;
        }
        false
    }

    fn join_block(&self, row: &BlockRow) -> (r: Block)
        requires
            self.registry_wf(),
        ensures
            self.block_shows(r, *row),
    {
        Block {
            block_id: row.block_id,
            text: row.text.clone(),
            project: row.project,
            project_name: self.project_name(row.project),
            start: row.start,
            end: row.end,
            duration: row.duration,
            tags: tag_names(&self.tags, &self.tagged_blocks, row.block_id),
        }
    }

    /// The block with id `block_id`, joined with its project and tags;
    /// `NotFound` where none is stored.
    pub fn select_block(&self, block_id: i64) -> (r: Result<Block, AppError>)
        requires
            self.wf(),
        ensures
            r is Err <==> !self.has_block(block_id),
            r matches Err(e) ==> e == AppError::NotFound,
            r matches Ok(b) ==> self.block_shows(b, self.block_row(block_id)),
    {
        match self.find_block(block_id) {
            Some(i) => {
                let ghost c = choose|k: int| 0 <= k < self.blocks@.len() && self.blocks@[k].block_id == block_id;
                assert(c == i);
                Ok(self.join_block(&self.blocks[i]))
            },
            None => Err(AppError::NotFound),
        }
    }

    /// Closes every open block at `at`: it ends there and its duration runs
    /// from its start to `at`. Closed blocks are left as they are.
    pub fn close_open_blocks(&mut self, at: i64)
        requires
            old(self).wf(),
            valid_timestamp(at),
            forall|i: int| 0 <= i < old(self).blocks@.len() ==> #[trigger] old(self).blocks@[i].start <= at,
        ensures
            final(self).wf(),
            final(self).blocks@ == old(self).blocks@.map_values(|r: BlockRow| closed_at(r, at)),
            forall|i: int| 0 <= i < final(self).blocks@.len() ==> #[trigger] final(self).blocks@[i].end is Some,
            final(self).entries == old(self).entries,
            final(self).projects == old(self).projects,
            final(self).colors == old(self).colors,
            final(self).tags == old(self).tags,
            final(self).tagged_blocks == old(self).tagged_blocks,
            final(self).tagged_entries == old(self).tagged_entries,
            final(self).next_block_id == old(self).next_block_id,
            final(self).next_entry_id == old(self).next_entry_id,
            final(self).next_project_id == old(self).next_project_id,
            final(self).next_color_id == old(self).next_color_id,
            final(self).next_tag_id == old(self).next_tag_id,
    {
        let ghost old_blocks = self.blocks@;
        let mut i: usize = 0;
        while i < self.blocks.len()
            invariant
                self.wf(),
                i <= self.blocks@.len(),
                self.blocks@.len() == old_blocks.len(),
                forall|j: int| 0 <= j < i ==> #[trigger] self.blocks@[j] == closed_at(old_blocks[j], at),
                forall|j: int| i <= j < self.blocks@.len() ==> #[trigger] self.blocks@[j] == old_blocks[j],
                forall|j: int| 0 <= j < old_blocks.len() ==> #[trigger] old_blocks[j].start <= at,
                valid_timestamp(at),
                self.entries == old(self).entries,
                self.projects == old(self).projects,
                self.colors == old(self).colors,
                self.tags == old(self).tags,
                self.tagged_blocks == old(self).tagged_blocks,
                self.tagged_entries == old(self).tagged_entries,
                self.next_block_id == old(self).next_block_id,
                self.next_entry_id == old(self).next_entry_id,
                self.next_project_id == old(self).next_project_id,
                self.next_color_id == old(self).next_color_id,
                self.next_tag_id == old(self).next_tag_id,
            decreases self.blocks@.len() - i,
        {
            if self.blocks[i].end.is_none() {
                let mut row = self.blocks[i].copy();
                row.end = Some(at);
                row.duration = at - row.start;
                self.blocks.set(i, row);
            }
            i = i + 1;
        }
        assert(self.blocks@ =~= old_blocks.map_values(|r: BlockRow| closed_at(r, at)));
    }

    /// Starts a block at `start`. Every open block is closed at `start` first
    /// (its successor's start is its end), then the new block is stored open,
    /// under a fresh id, and handed back joined with its project and tags.
    /// Fails as `insert_block_error` says, leaving the store unchanged.
    pub fn insert_block(&mut self, text: String, project: Option<i64>, start: Option<i64>) -> (r: Result<Block, AppError>)
        requires
            old(self).wf(),
        ensures
            final(self).wf(),
            r is Err <==> old(self).insert_block_error(project, start) is Some,
            r matches Err(e) ==> old(self).insert_block_error(project, start) == Some(e),
            r is Err ==> *final(self) == *old(self),
            r matches Ok(b) ==> {
                let s = start->Some_0;
                let row = new_block_row(old(self).next_block_id, text, project, s);
                &&& final(self).blocks@ == old(self).blocks@.map_values(|x: BlockRow| closed_at(x, s)).push(row)
                &&& final(self).block_shows(b, row)
                &&& final(self).next_block_id == old(self).next_block_id + 1
                &&& final(self).entries == old(self).entries
                &&& final(self).projects == old(self).projects
                &&& final(self).colors == old(self).colors
                &&& final(self).tags == old(self).tags
                &&& final(self).tagged_blocks == old(self).tagged_blocks
                &&& final(self).tagged_entries == old(self).tagged_entries
            },
    {
        let s = match start {
            Some(s) => s,
            None => return Err(AppError::BadRequest),
        };
        if s < MIN_TIMESTAMP || s > MAX_TIMESTAMP {
            return Err(AppError::BadRequest);
        }
        if let Some(p) = project {
            if self.find_project(p).is_none() {
                return Err(AppError::BadRequest);
            }
        }
        if self.starts_after(s) {
            return Err(AppError::BadRequest);
        }
        if self.next_block_id == i64::MAX {
            return Err(AppError::InternalServer);
        }
        self.close_open_blocks(s);
        let id = self.next_block_id;
        let row = BlockRow { block_id: id, text, project, start: s, end: None, duration: 0 };
        self.blocks.push(row);
        self.next_block_id = id + 1;
        let n = self.blocks.len() - 1;
        Ok(self.join_block(&self.blocks[n]))
    }

    /// Replaces the block `block_id` by the text, project and bounds of
    /// `block`, its duration derived from the bounds, and hands it back joined
    /// with its project and tags. No other block is closed. Fails as
    /// `update_block_error` says, leaving the store unchanged.
    pub fn update_block(&mut self, block_id: i64, block: Block) -> (r: Result<Block, AppError>)
        requires
            old(self).wf(),
        ensures
            final(self).wf(),
            r is Err <==> old(self).update_block_error(block_id, block) is Some,
            r matches Err(e) ==> old(self).update_block_error(block_id, block) == Some(e),
            r is Err ==> *final(self) == *old(self),
            r matches Ok(b) ==> {
                &&& final(self).blocks@.len() == old(self).blocks@.len()
                &&& forall|i: int| 0 <= i < old(self).blocks@.len() ==> #[trigger] final(self).blocks@[i] == (
                    if old(self).blocks@[i].block_id == block_id {
                        updated_block_row(block)
                    } else {
                        old(self).blocks@[i]
                    })
                &&& final(self).block_shows(b, updated_block_row(block))
                &&& final(self).next_block_id == old(self).next_block_id
                &&& final(self).entries == old(self).entries
                &&& final(self).projects == old(self).projects
                &&& final(self).colors == old(self).colors
                &&& final(self).tags == old(self).tags
                &&& final(self).tagged_blocks == old(self).tagged_blocks
                &&& final(self).tagged_entries == old(self).tagged_entries
            },
    {
        if block_id != block.block_id {
            return Err(AppError::BadRequest);
        }
        let idx = match self.find_block(block_id) {
            Some(i) => i,
            None => return Err(AppError::NotFound),
        };
        if block.start < MIN_TIMESTAMP || block.start > MAX_TIMESTAMP {
            return Err(AppError::BadRequest);
        }
        if let Some(e) = block.end {
            if e < MIN_TIMESTAMP || e > MAX_TIMESTAMP {
                return Err(AppError::BadRequest);
            }
        }
        if let Some(p) = block.project {
            if self.find_project(p).is_none() {
                return Err(AppError::BadRequest);
            }
        }
        if block.end.is_none() && self.other_open_block(block_id) {
            return Err(AppError::BadRequest);
        }
        let duration = match block.end {
            Some(e) => e - block.start,
            None => 0,
        };
        let row = BlockRow {
            block_id,
            text: block.text,
            project: block.project,
            start: block.start,
            end: block.end,
            duration,
        };
        let ghost old_blocks = self.blocks@;
        self.blocks.set(idx, row);
        proof {
            assert forall|i: int| 0 <= i < old_blocks.len() implies #[trigger] self.blocks@[i] == (
                if old_blocks[i].block_id == block_id { updated_block_row(block) } else { old_blocks[i] }) by {
                if i != idx && old_blocks[i].block_id == block_id {
                    assert(old(self).blocks@[i].block_id == old(self).blocks@[idx as int].block_id);
                }
            }
        }
        Ok(self.join_block(&self.blocks[idx]))
    }

    /// Links the block `block_id` to the tag `tag_id`. `BadRequest` where
    /// either is not stored; then nothing changes.
    pub fn tag_block(&mut self, block_id: i64, tag_id: i64) -> (r: Result<(), AppError>)
        requires
            old(self).wf(),
        ensures
            final(self).wf(),
            r is Err <==> !(old(self).has_block(block_id) && has_tag(old(self).tags@, tag_id)),
            r matches Err(e) ==> e == AppError::BadRequest,
            r is Err ==> *final(self) == *old(self),
            r is Ok ==> final(self).tagged_blocks@ == old(self).tagged_blocks@.push((block_id, tag_id)),
            final(self).blocks == old(self).blocks,
            final(self).entries == old(self).entries,
            final(self).projects == old(self).projects,
            final(self).colors == old(self).colors,
            final(self).tags == old(self).tags,
            final(self).tagged_entries == old(self).tagged_entries,
    {
        if self.find_block(block_id).is_none() || !self.find_tag(tag_id) {
            return Err(AppError::BadRequest);
        }
        self.tagged_blocks.push((block_id, tag_id));
        Ok(())
    }

    /// Unlinks the block `block_id` from the tag `tag_id`, and says whether
    /// they were linked. Nothing else changes.
    pub fn untag_block(&mut self, block_id: i64, tag_id: i64) -> (r: bool)
        requires
            old(self).wf(),
        ensures
            final(self).wf(),
            r == is_linked(old(self).tagged_blocks@, block_id, tag_id),
            final(self).tagged_blocks@ == old(self).tagged_blocks@.filter(other_link(block_id, tag_id)),
            final(self).blocks == old(self).blocks,
            final(self).entries == old(self).entries,
            final(self).projects == old(self).projects,
            final(self).colors == old(self).colors,
            final(self).tags == old(self).tags,
            final(self).tagged_entries == old(self).tagged_entries,
    {
        remove_link(&mut self.tagged_blocks, block_id, tag_id)
    }

    /// Removes the block `block_id`, and says whether one was stored. Nothing
    /// else is removed: its entries and tag links stay.
    pub fn delete_block(&mut self, block_id: i64) -> (r: bool)
        requires
            old(self).wf(),
        ensures
            final(self).wf(),
            r == old(self).has_block(block_id),
            !r ==> *final(self) == *old(self),
            r ==> exists|i: int| 0 <= i < old(self).blocks@.len() && old(self).blocks@[i].block_id == block_id
                && final(self).blocks@ == old(self).blocks@.remove(i),
            final(self).entries == old(self).entries,
            final(self).projects == old(self).projects,
            final(self).colors == old(self).colors,
            final(self).tags == old(self).tags,
            final(self).tagged_blocks == old(self).tagged_blocks,
            final(self).tagged_entries == old(self).tagged_entries,
            final(self).next_block_id == old(self).next_block_id,
    {
        match self.find_block(block_id) {
            Some(i) => {
                let ghost old_blocks = self.blocks@;
                self.blocks.remove(i);
                assert(self.blocks@ == old_blocks.remove(i as int));
                assert forall|a: int, b: int|
                    0 <= a < self.blocks@.len() && 0 <= b < self.blocks@.len()
                        && #[trigger] self.blocks@[a].block_id == #[trigger] self.blocks@[b].block_id implies a == b by {
                    let a0 = if a < i { a } else { a + 1 };
                    let b0 = if b < i { b } else { b + 1 };
                    assert(old_blocks[a0].block_id == old_blocks[b0].block_id);
                }
                assert forall|a: int, b: int|
                    0 <= a < self.blocks@.len() && 0 <= b < self.blocks@.len()
                        && (#[trigger] self.blocks@[a]).end is None && (#[trigger] self.blocks@[b]).end is None implies a == b by {
                    let a0 = if a < i { a } else { a + 1 };
                    let b0 = if b < i { b } else { b + 1 };
                    assert(old_blocks[a0].end is None && old_blocks[b0].end is None);
                }
                true
            },
            None => false,
        }
    }

    /// Whether `b` is a stored block that starts inside `(lo, hi)`, joined with
    /// its project and tags.
    pub open spec fn shows_block_in_window(&self, b: Block, lo: i64, hi: i64) -> bool {
        exists|j: int|
            0 <= j < self.blocks@.len() && in_window(self.blocks@[j], lo, hi)
                && #[trigger] self.block_shows(b, self.blocks@[j])
    }

    /// Whether `r` lists exactly the stored blocks that start inside `(lo, hi)`,
    /// each once and joined with its project and tags, in ascending order of start.
    pub open spec fn lists_blocks(&self, r: Seq<Block>, lo: i64, hi: i64) -> bool {
        &&& sorted_by_start(r)
        &&& forall|k: int, l: int| 0 <= k < l < r.len() ==> #[trigger] r[k].block_id != #[trigger] r[l].block_id
        &&& forall|k: int| 0 <= k < r.len() ==> self.shows_block_in_window(#[trigger] r[k], lo, hi)
        &&& forall|j: int| 0 <= j < self.blocks@.len() && #[trigger] in_window(self.blocks@[j], lo, hi)
            ==> exists|k: int| 0 <= k < r.len() && r[k].block_id == self.blocks@[j].block_id
    }

    /// The blocks that start strictly inside `(start, end)`, ascending by
    /// start, each joined with its project's name and the distinct names of its
    /// tags (none where it has none).
    pub fn list_blocks(&self, start: i64, end: i64) -> (r: Vec<Block>)
        requires
            self.wf(),
        ensures
            self.lists_blocks(r@, start, end),
    {
        let mut out: Vec<Block> = Vec::new();
        let ghost mut src: Seq<int> = seq![];
        let mut i: usize = 0;
        while i < self.blocks.len()
            invariant
                self.wf(),
                i <= self.blocks@.len(),
                sorted_by_start(out@),
                src.len() == out@.len(),
                forall|k: int, l: int| 0 <= k < l < src.len() ==> #[trigger] src[k] != #[trigger] src[l],
                forall|k: int| 0 <= k < out@.len() ==> {
                    &&& 0 <= #[trigger] src[k] < i
                    &&& in_window(self.blocks@[src[k]], start, end)
                    &&& self.block_shows(out@[k], self.blocks@[src[k]])
                },
                forall|j: int| 0 <= j < i && #[trigger] in_window(self.blocks@[j], start, end)
                    ==> exists|k: int| 0 <= k < src.len() && src[k] == j,
            decreases self.blocks@.len() - i,
        {
            if start < self.blocks[i].start && self.blocks[i].start < end {
                let b = self.join_block(&self.blocks[i]);
                let p = sorted_position(&out, b.start);
                let ghost before = out@;
                let ghost src0 = src;
                out.insert(p, b);
                proof {
                    let ii = i as int;
                    let pp = p as int;
                    src = src0.insert(pp, ii);
                    assert(out@ == before.insert(pp, b));
                    assert forall|k: int, l: int| 0 <= k < l < out@.len() implies out@[k].start <= out@[l].start by {
                        if k < pp && l > pp {
                            assert(out@[l] == before[l - 1]);
                        }
                    }
                    assert forall|k: int, l: int| 0 <= k < l < src.len() implies #[trigger] src[k] != #[trigger] src[l] by {
                        if k < pp && l > pp {
                            assert(src[l] == src0[l - 1]);
                        } else if k > pp {
                            assert(src[k] == src0[k - 1] && src[l] == src0[l - 1]);
                        } else if k == pp {
                            assert(src[l] == src0[l - 1]);
                        }
                    }
                    assert forall|k: int| 0 <= k < out@.len() implies {
                        &&& 0 <= #[trigger] src[k] < ii + 1
                        &&& in_window(self.blocks@[src[k]], start, end)
                        &&& self.block_shows(out@[k], self.blocks@[src[k]])
                    } by {
                        if k < pp {
                            assert(out@[k] == before[k] && src[k] == src0[k]);
                        } else if k > pp {
                            assert(out@[k] == before[k - 1] && src[k] == src0[k - 1]);
                        }
                    }
                    assert forall|j: int| 0 <= j < ii + 1 && #[trigger] in_window(self.blocks@[j], start, end)
                        implies exists|k: int| 0 <= k < src.len() && src[k] == j by {
                        if j == ii {
                            assert(src[pp] == j);
                        } else {
                            let k0 = choose|k: int| 0 <= k < src0.len() && src0[k] == j;
                            let k1 = if k0 < pp { k0 } else { k0 + 1 };
                            assert(src[k1] == j);
                        }
                    }
                }
            }
            i = i + 1;
        }
        proof {
            assert forall|k: int, l: int| 0 <= k < l < out@.len() implies
                #[trigger] out@[k].block_id != #[trigger] out@[l].block_id by {
                assert(src[k] != src[l]);
                assert(self.blocks@[src[k]].block_id == out@[k].block_id);
                assert(self.blocks@[src[l]].block_id == out@[l].block_id);
            }
            assert forall|k: int| 0 <= k < out@.len() implies self.shows_block_in_window(#[trigger] out@[k], start, end) by {
                assert(self.block_shows(out@[k], self.blocks@[src[k]]));
            }
            assert forall|j: int| 0 <= j < self.blocks@.len() && #[trigger] in_window(self.blocks@[j], start, end)
                implies exists|k: int| 0 <= k < out@.len() && out@[k].block_id == self.blocks@[j].block_id by {
                let k = choose|k: int| 0 <= k < src.len() && src[k] == j;
                assert(out@[k].block_id == self.blocks@[j].block_id);
            }
            assert(self.lists_blocks(out@, start, end));
        }
        out
    }

    /// The start of the latest block that starts strictly before `t`: the
    /// backward cursor. `NotFound` where no block starts before `t`.
    pub fn nearest_block_before(&self, t: i64) -> (r: Result<NextDataResponse, AppError>)
        ensures
            r is Err <==> forall|i: int| 0 <= i < self.blocks@.len() ==> #[trigger] self.blocks@[i].start >= t,
            r matches Err(e) ==> e == AppError::NotFound,
            r matches Ok(n) ==> {
                &&& n.block_timestamp < t
                &&& exists|i: int| 0 <= i < self.blocks@.len() && #[trigger] self.blocks@[i].start == n.block_timestamp
                &&& forall|i: int| 0 <= i < self.blocks@.len() && #[trigger] self.blocks@[i].start < t
                    ==> self.blocks@[i].start <= n.block_timestamp
            },
    {
        let mut best: Option<i64> = None;
        let mut i: usize = 0;
        while i < self.blocks.len()
            invariant
                i <= self.blocks@.len(),
                best is None <==> forall|j: int| 0 <= j < i ==> #[trigger] self.blocks@[j].start >= t,
                best matches Some(b) ==> {
                    &&& b < t
                    &&& exists|j: int| 0 <= j < i && #[trigger] self.blocks@[j].start == b
                    &&& forall|j: int| 0 <= j < i && #[trigger] self.blocks@[j].start < t ==> self.blocks@[j].start <= b
                },
            decreases self.blocks@.len() - i,
        {
            let s = self.blocks[i].start;
            if s < t {
                match best {
                    Some(b) => {
                        if s > b {
                            best = Some(s);
                        }
                    },
                    None => {
                        best = Some(s);
                    },
                }
            }
            i = i + 1;
        }
        match best {
            Some(b) => Ok(NextDataResponse { block_timestamp: b }),
            None => Err(AppError::NotFound),
        }
    }
}

/// Blocks in ascending order of start.
pub open spec fn sorted_by_start(r: Seq<Block>) -> bool {
    forall|k: int, l: int| #![trigger r[k], r[l]] 0 <= k < l < r.len() ==> r[k].start <= r[l].start
}

fn sorted_position(out: &Vec<Block>, t: i64) -> (p: usize)
    requires
        sorted_by_start(out@),
    ensures
        p <= out@.len(),
        forall|m: int| 0 <= m < p ==> #[trigger] out@[m].start <= t,
        forall|m: int| p <= m < out@.len() ==> #[trigger] out@[m].start > t,
{
    let mut p: usize = 0;
    while p < out.len()
        invariant
            sorted_by_start(out@),
            p <= out@.len(),
            forall|m: int| 0 <= m < p ==> #[trigger] out@[m].start <= t,
        decreases out@.len() - p,
    {
        if out[p].start > t {
            assert forall|m: int| p <= m < out@.len() implies #[trigger] out@[m].start > t by {
                assert(out@[p as int].start <= out@[m].start);
            }
            return p;
        }
        p = p + 1;
    }
    p
}

/// Inserting a block into a well-formed timeline leaves at most one block
/// open, the new one, and each block that was open before ends where the new
/// block starts, with its duration running from its own start to there.
pub proof fn lemma_insert_block_closes_predecessor(
    before: Database,
    after: Database,
    text: String,
    project: Option<i64>,
    s: i64,
)
    requires
        before.wf(),
        valid_timestamp(s),
        after.blocks@ == before.blocks@.map_values(|x: BlockRow| closed_at(x, s)).push(
            new_block_row(before.next_block_id, text, project, s),
        ),
    ensures
        forall|i: int, j: int|
            0 <= i < after.blocks@.len() && 0 <= j < after.blocks@.len()
                && (#[trigger] after.blocks@[i]).end is None && (#[trigger] after.blocks@[j]).end is None ==> i == j,
        after.blocks@.last().end is None,
        after.blocks@.last().start == s,
        forall|i: int| 0 <= i < before.blocks@.len() && (#[trigger] before.blocks@[i]).end is None ==> {
            &&& after.blocks@[i].end == Some(s)
            &&& after.blocks@[i].duration == s - before.blocks@[i].start
        },
{
    let n = before.blocks@.len() as int;
    assert forall|i: int| 0 <= i < n implies (#[trigger] after.blocks@[i]).end is Some by {
        assert(after.blocks@[i] == closed_at(before.blocks@[i], s));
    }
    assert forall|i: int| 0 <= i < n && (#[trigger] before.blocks@[i]).end is None implies {
        &&& after.blocks@[i].end == Some(s)
        &&& after.blocks@[i].duration == s - before.blocks@[i].start
    } by {
        assert(after.blocks@[i] == closed_at(before.blocks@[i], s));
        assert(block_row_ok(before.blocks@[i]));
    }
}

/// Whether a listing holds the block `id`.
pub open spec fn lists_block_id(r: Seq<Block>, id: i64) -> bool {
    exists|k: int| 0 <= k < r.len() && r[k].block_id == id
}

/// Two listings of one window of one store hold the same blocks.
pub proof fn lemma_list_blocks_same_set(db: Database, r1: Seq<Block>, r2: Seq<Block>, lo: i64, hi: i64)
    requires
        db.wf(),
        db.lists_blocks(r1, lo, hi),
        db.lists_blocks(r2, lo, hi),
    ensures
        forall|id: i64| #[trigger] lists_block_id(r1, id) == lists_block_id(r2, id),
{
    assert forall|id: i64| lists_block_id(r1, id) implies #[trigger] lists_block_id(r2, id) by {
        let k = choose|k: int| 0 <= k < r1.len() && r1[k].block_id == id;
        assert(db.shows_block_in_window(r1[k], lo, hi));
        let j = choose|j: int| 0 <= j < db.blocks@.len() && in_window(db.blocks@[j], lo, hi)
            && db.block_shows(r1[k], db.blocks@[j]);
        assert(in_window(db.blocks@[j], lo, hi));
    }
    assert forall|id: i64| lists_block_id(r2, id) implies #[trigger] lists_block_id(r1, id) by {
        let k = choose|k: int| 0 <= k < r2.len() && r2[k].block_id == id;
        assert(db.shows_block_in_window(r2[k], lo, hi));
        let j = choose|j: int| 0 <= j < db.blocks@.len() && in_window(db.blocks@[j], lo, hi)
            && db.block_shows(r2[k], db.blocks@[j]);
        assert(in_window(db.blocks@[j], lo, hi));
    }
}

} // verus!
