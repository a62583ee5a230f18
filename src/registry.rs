use vstd::prelude::*;
use crate::database::Database;
use crate::errors::AppError;
use crate::models::{Color, Project, Tag};

verus! {

impl Project {
    /// A field-by-field copy of this project.
    pub fn copy(&self) -> (r: Project)
        ensures
            r == *self,
    {
        Project { project_id: self.project_id, name: self.name.clone(), archived: self.archived, color: self.color }
    }
}

impl Color {
    /// A field-by-field copy of this color.
    pub fn copy(&self) -> (r: Color)
        ensures
            r == *self,
    {
        Color { color_id: self.color_id, hex_value: self.hex_value.clone() }
    }
}

impl Tag {
    /// A field-by-field copy of this tag.
    pub fn copy(&self) -> (r: Tag)
        ensures
            r == *self,
    {
        Tag { tag_id: self.tag_id, name: self.name.clone(), archived: self.archived }
    }
}

/// Whether a project with id `id` is registered.
pub open spec fn has_project(ps: Seq<Project>, id: i64) -> bool {
    exists|i: int| 0 <= i < ps.len() && ps[i].project_id == id
}

/// The name of the project that `p` refers to, where there is one.
pub open spec fn project_name_of(ps: Seq<Project>, p: Option<i64>) -> Option<Seq<char>> {
    match p {
        Some(id) => if has_project(ps, id) {
            Some(ps[choose|i: int| 0 <= i < ps.len() && ps[i].project_id == id].name@)
        } else {
            None
        },
        None => None,
    }
}

/// Whether a color with id `id` is registered.
pub open spec fn has_color(cs: Seq<Color>, id: i64) -> bool {
    exists|i: int| 0 <= i < cs.len() && cs[i].color_id == id
}

/// Whether a tag with id `id` is registered.
pub open spec fn has_tag(ts: Seq<Tag>, id: i64) -> bool {
    exists|i: int| 0 <= i < ts.len() && ts[i].tag_id == id
}

/// An optional reference that is absent or names a registered color.
pub open spec fn color_ref_ok(cs: Seq<Color>, c: Option<i64>) -> bool {
    match c {
        Some(id) => has_color(cs, id),
        None => true,
    }
}

/// An optional reference that is absent or names a registered project.
pub open spec fn project_ref_ok(ps: Seq<Project>, p: Option<i64>) -> bool {
    match p {
        Some(id) => has_project(ps, id),
        None => true,
    }
}

/// A project with id `id` and the name, flag and color of `p`.
pub open spec fn project_with(id: i64, p: Project) -> Project {
    Project { project_id: id, name: p.name, archived: p.archived, color: p.color }
}

impl Database {
    /// The position of the project with id `id`.
    pub fn find_project(&self, id: i64) -> (r: Option<usize>)
        ensures
            r matches Some(i) ==> i < self.projects@.len() && self.projects@[i as int].project_id == id,
            r is None <==> !has_project(self.projects@, id),
    {
        let mut i: usize = 0;
        while i < self.projects.len()
            invariant
                i <= self.projects.len(),
                forall|j: int| 0 <= j < i ==> self.projects@[j].project_id != id,
            decreases self.projects.len() - i,
        {
            if self.projects[i].project_id == id {
                return Some(i);
            }
            i = i + 1;
        }
        None
    }

    fn find_color(&self, id: i64) -> (r: bool)
        ensures
            r == has_color(self.colors@, id),
    {
        let mut i: usize = 0;
        while i < self.colors.len()
            invariant
                i <= self.colors.len(),
                forall|j: int| 0 <= j < i ==> self.colors@[j].color_id != id,
            decreases self.colors.len() - i,
        {
            if self.colors[i].color_id == id {
                return true;
            }
            i = i + 1;
        }
        false
    }

    /// Whether a tag with id `id` is registered.
    pub fn find_tag(&self, id: i64) -> (r: bool)
        ensures
            r == has_tag(self.tags@, id),
    {
        let mut i: usize = 0;
        while i < self.tags.len()
            invariant
                i <= self.tags.len(),
                forall|j: int| 0 <= j < i ==> self.tags@[j].tag_id != id,
            decreases self.tags.len() - i,
        {
            if self.tags[i].tag_id == id {
                return true;
            }
            i = i + 1;
        }
        false
    }

    /// The name of the project that `p` refers to, where there is one.
    pub fn project_name(&self, p: Option<i64>) -> (r: Option<String>)
        requires
            self.registry_wf(),
        ensures
            crate::models::opt_view(r) == project_name_of(self.projects@, p),
    {
        match p {
            Some(id) => match self.find_project(id) {
                Some(i) => {
                    let ghost c = choose|k: int| 0 <= k < self.projects@.len() && self.projects@[k].project_id == id;
                    assert(c == i);
                    Some(self.projects[i].name.clone())
                },
                None => None,
            },
            None => None,
        }
    }

    /// All projects, in the order they were registered.
    pub fn list_projects(&self) -> (r: Vec<Project>)
        ensures
            r@ == self.projects@,
    {
        let mut out: Vec<Project> = Vec::new();
        let mut i: usize = 0;
        while i < self.projects.len()
            invariant
                i <= self.projects.len(),
                out@ == self.projects@.take(i as int),
            decreases self.projects.len() - i,
        {
            out.push(self.projects[i].copy());
            i = i + 1;
            assert(out@ =~= self.projects@.take(i as int));
        }
        assert(self.projects@.take(i as int) =~= self.projects@);
        out
    }

    /// All colors, in the order they were registered.
    pub fn list_colors(&self) -> (r: Vec<Color>)
        ensures
            r@ == self.colors@,
    {
        let mut out: Vec<Color> = Vec::new();
        let mut i: usize = 0;
        while i < self.colors.len()
            invariant
                i <= self.colors.len(),
                out@ == self.colors@.take(i as int),
            decreases self.colors.len() - i,
        {
            out.push(self.colors[i].copy());
            i = i + 1;
            assert(out@ =~= self.colors@.take(i as int));
        }
        assert(self.colors@.take(i as int) =~= self.colors@);
        out
    }

    /// All tags, in the order they were registered.
    pub fn list_tags(&self) -> (r: Vec<Tag>)
        ensures
            r@ == self.tags@,
    {
        let mut out: Vec<Tag> = Vec::new();
        let mut i: usize = 0;
        while i < self.tags.len()
            invariant
                i <= self.tags.len(),
                out@ == self.tags@.take(i as int),
            decreases self.tags.len() - i,
        {
            out.push(self.tags[i].copy());
            i = i + 1;
            assert(out@ =~= self.tags@.take(i as int));
        }
        assert(self.tags@.take(i as int) =~= self.tags@);
        out
    }

    /// The project with id `id`; `NotFound` where none is registered.
    pub fn get_project(&self, id: i64) -> (r: Result<Project, AppError>)
        ensures
            r matches Ok(p) ==> p.project_id == id && self.projects@.contains(p),
            r is Err <==> !has_project(self.projects@, id),
            r matches Err(e) ==> e == AppError::NotFound,
    {
        match self.find_project(id) {
            Some(i) => Ok(self.projects[i].copy()),
            None => Err(AppError::NotFound),
        }
    }

    /// Registers a project with the name, flag and color of `project` under a
    /// fresh id, which the result holds. It fails with `BadRequest` where the
    /// color is not registered, and with `InternalServer` where no id is left.
    pub fn insert_project(&mut self, project: Project) -> (r: Result<Project, AppError>)
        requires
            old(self).wf(),
        ensures
            final(self).wf(),
            !color_ref_ok(old(self).colors@, project.color) ==> r == Err::<Project, AppError>(AppError::BadRequest),
            color_ref_ok(old(self).colors@, project.color) && old(self).next_project_id == i64::MAX
                ==> r == Err::<Project, AppError>(AppError::InternalServer),
            r is Err ==> *final(self) == *old(self),
            color_ref_ok(old(self).colors@, project.color) && old(self).next_project_id < i64::MAX ==> {
                &&& r == Ok::<Project, AppError>(project_with(old(self).next_project_id, project))
                &&& final(self).projects@ == old(self).projects@.push(project_with(old(self).next_project_id, project))
                &&& final(self).blocks == old(self).blocks
                &&& final(self).entries == old(self).entries
                &&& final(self).colors == old(self).colors
                &&& final(self).tags == old(self).tags
                &&& final(self).tagged_blocks == old(self).tagged_blocks
                &&& final(self).tagged_entries == old(self).tagged_entries
            },
    {
        if let Some(c) = project.color {
            if !self.find_color(c) {
                return Err(AppError::BadRequest);
            }
        }
        if self.next_project_id == i64::MAX {
            return Err(AppError::InternalServer);
        }
        let id = self.next_project_id;
        let p = Project { project_id: id, name: project.name, archived: project.archived, color: project.color };
        let out = p.copy();
        self.projects.push(p);
        self.next_project_id = id + 1;
        Ok(out)
    }

    /// Replaces the name, flag and color of the registered project with the id
    /// of `project`. It fails with `NotFound` where no such project is
    /// registered, and with `BadRequest` where the color is not registered.
    pub fn update_project(&mut self, project: Project) -> (r: Result<Project, AppError>)
        requires
            old(self).wf(),
        ensures
            final(self).wf(),
            !has_project(old(self).projects@, project.project_id)
                ==> r == Err::<Project, AppError>(AppError::NotFound),
            has_project(old(self).projects@, project.project_id) && !color_ref_ok(old(self).colors@, project.color)
                ==> r == Err::<Project, AppError>(AppError::BadRequest),
            r is Err ==> *final(self) == *old(self),
            has_project(old(self).projects@, project.project_id) && color_ref_ok(old(self).colors@, project.color)
                ==> {
                &&& r == Ok::<Project, AppError>(project)
                &&& final(self).projects@.len() == old(self).projects@.len()
                &&& forall|i: int| 0 <= i < old(self).projects@.len() ==> #[trigger] final(self).projects@[i] == (
                    if old(self).projects@[i].project_id == project.project_id {
                        project
                    } else {
                        old(self).projects@[i]
                    })
                &&& final(self).blocks == old(self).blocks
                &&& final(self).entries == old(self).entries
                &&& final(self).colors == old(self).colors
                &&& final(self).tags == old(self).tags
                &&& final(self).tagged_blocks == old(self).tagged_blocks
                &&& final(self).tagged_entries == old(self).tagged_entries
            },
    {
        let idx = match self.find_project(project.project_id) {
            Some(i) => i,
            None => return Err(AppError::NotFound),
        };
        if let Some(c) = project.color {
            if !self.find_color(c) {
                return Err(AppError::BadRequest);
            }
        }
        let out = project.copy();
        self.projects.set(idx, project);
        Ok(out)
    }

    /// Registers a color under a fresh id, which the result holds. It fails with
    /// `InternalServer` where no id is left.
    pub fn insert_color(&mut self, hex_value: String) -> (r: Result<Color, AppError>)
        requires
            old(self).wf(),
        ensures
            final(self).wf(),
            old(self).next_color_id == i64::MAX <==> r is Err,
            r is Err ==> *final(self) == *old(self),
            r matches Ok(c) ==> {
                &&& c == Color { color_id: old(self).next_color_id, hex_value }
                &&& final(self).colors@ == old(self).colors@.push(c)
                &&& final(self).projects == old(self).projects
                &&& final(self).blocks == old(self).blocks
                &&& final(self).entries == old(self).entries
                &&& final(self).tags == old(self).tags
                &&& final(self).tagged_blocks == old(self).tagged_blocks
                &&& final(self).tagged_entries == old(self).tagged_entries
            },
            r matches Err(e) ==> e == AppError::InternalServer,
    {
        if self.next_color_id == i64::MAX {
            return Err(AppError::InternalServer);
        }
        let c = Color { color_id: self.next_color_id, hex_value };
        let out = c.copy();
        self.colors.push(c);
        self.next_color_id = self.next_color_id + 1;
        Ok(out)
    }

    /// Registers a tag under a fresh id, which the result holds. It fails with
    /// `InternalServer` where no id is left.
    pub fn insert_tag(&mut self, name: String, archived: bool) -> (r: Result<Tag, AppError>)
        requires
            old(self).wf(),
        ensures
            final(self).wf(),
            old(self).next_tag_id == i64::MAX <==> r is Err,
            r is Err ==> *final(self) == *old(self),
            r matches Ok(t) ==> {
                &&& t == Tag { tag_id: old(self).next_tag_id, name, archived }
                &&& final(self).tags@ == old(self).tags@.push(t)
                &&& final(self).projects == old(self).projects
                &&& final(self).blocks == old(self).blocks
                &&& final(self).entries == old(self).entries
                &&& final(self).colors == old(self).colors
                &&& final(self).tagged_blocks == old(self).tagged_blocks
                &&& final(self).tagged_entries == old(self).tagged_entries
            },
            r matches Err(e) ==> e == AppError::InternalServer,
    {
        if self.next_tag_id == i64::MAX {
            return Err(AppError::InternalServer);
        }
        let t = Tag { tag_id: self.next_tag_id, name, archived };
        let out = t.copy();
        self.tags.push(t);
        self.next_tag_id = self.next_tag_id + 1;
        Ok(out)
    }
}

} // verus!
