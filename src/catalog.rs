use vstd::prelude::*;

use crate::query::{
    count_matching, filter_records, filter_spec, list_ascending, sort_records, sort_spec,
    term_view, window, window_spec, ProjectRecord, SortKey,
};
use crate::vcs::GitInfo;

verus! {

/// A project row: one per indexed directory, keyed by its path.
#[derive(Debug, Clone)]
pub struct ProjectRow {
    pub id: i64,
    pub name: String,
    pub path: String,
    pub project_type: Option<String>,
    pub is_git_repo: bool,
    pub created_at: i64,
    pub updated_at: i64,
}

/// The metrics of one project; each field may be absent.
#[derive(Debug, Clone, Copy, PartialEq, Eq, Structural)]
pub struct Metrics {
    pub size_bytes: Option<i64>,
    pub files_count: Option<i64>,
    pub last_edited_at: Option<i64>,
    pub loc: Option<i64>,
}

/// A project together with what is stored against it.
#[derive(Debug, Clone)]
pub struct CatalogEntry {
    pub project: ProjectRow,
    pub metrics: Option<Metrics>,
    pub git: Option<GitInfo>,
    pub languages: Vec<(String, i64)>,
}

/// Why a catalog operation was refused.
#[derive(Debug, Clone, Copy, PartialEq, Eq, Structural)]
pub enum CatalogError {
    /// No project carries the given id.
    UnknownProject,
    /// Every id has been handed out.
    IdsExhausted,
    /// Restored rows repeat a path, or their ids are not increasing.
    Inconsistent,
}

/// The catalog: the projects in the order they were first inserted, and the
/// id the next new project will get.
pub struct Catalog {
    pub entries: Vec<CatalogEntry>,
    pub next_id: i64,
}

/// Paths are unique, ids are positive and increase in insertion order, and
/// every id lies below `next_id`.
pub open spec fn entries_wf(s: Seq<CatalogEntry>, next_id: i64) -> bool {
    &&& forall|i: int, j: int|
        0 <= i < j < s.len() ==> s[i].project.path@ != s[j].project.path@ && s[i].project.id
            < s[j].project.id
    &&& forall|i: int| 0 <= i < s.len() ==> 0 < #[trigger] s[i].project.id < next_id
    &&& next_id >= 1
}

/// Index of the entry with this path.
pub open spec fn has_path(s: Seq<CatalogEntry>, p: Seq<char>, i: int) -> bool {
    0 <= i < s.len() && s[i].project.path@ == p
}

pub open spec fn path_present(s: Seq<CatalogEntry>, p: Seq<char>) -> bool {
    exists|i: int| has_path(s, p, i)
}

/// Index of the entry with this id.
pub open spec fn has_id(s: Seq<CatalogEntry>, id: i64, i: int) -> bool {
    0 <= i < s.len() && s[i].project.id == id
}

pub open spec fn id_present(s: Seq<CatalogEntry>, id: i64) -> bool {
    exists|i: int| has_id(s, id, i)
}

/// The record that queries hand out for an entry.
pub open spec fn record_of(e: CatalogEntry) -> ProjectRecord {
    ProjectRecord {
        id: e.project.id,
        name: e.project.name,
        path: e.project.path,
        project_type: e.project.project_type,
        is_git_repo: e.project.is_git_repo,
        size_bytes: match e.metrics {
            Some(m) => m.size_bytes,
            None => None,
        },
        files_count: match e.metrics {
            Some(m) => m.files_count,
            None => None,
        },
        last_edited_at: match e.metrics {
            Some(m) => m.last_edited_at,
            None => None,
        },
        loc: match e.metrics {
            Some(m) => m.loc,
            None => None,
        },
    }
}

pub open spec fn records_of(s: Seq<CatalogEntry>) -> Seq<ProjectRecord> {
    s.map_values(|e: CatalogEntry| record_of(e))
}

pub open spec fn opt_view(o: Option<&str>) -> Option<Seq<char>> {
    match o {
        Some(s) => Some(s@),
        None => None,
    }
}

/// The project fields an upsert writes.
pub open spec fn row_written(
    r: ProjectRow,
    name: Seq<char>,
    path: Seq<char>,
    ty: Option<Seq<char>>,
    git: bool,
    now: i64,
) -> bool {
    &&& r.name@ == name
    &&& r.path@ == path
    &&& crate::query::opt_str_view(r.project_type) == ty
    &&& r.is_git_repo == git
    &&& r.updated_at == now
}

/// `new` is `old` after an upsert of project `path` that resolved to `id`:
/// an existing row keeps its id, creation time and attachments and takes the
/// new fields; a new row gets `next_id` and nothing attached.
pub open spec fn upserted(
    old: Seq<CatalogEntry>,
    old_next: i64,
    new: Seq<CatalogEntry>,
    new_next: i64,
    name: Seq<char>,
    path: Seq<char>,
    ty: Option<Seq<char>>,
    git: bool,
    now: i64,
    id: i64,
) -> bool {
    if path_present(old, path) {
        exists|i: int|
            has_path(old, path, i) && id == old[i].project.id && new.len() == old.len() && new_next
                == old_next && (forall|j: int| 0 <= j < old.len() && j != i ==> new[j] == old[j])
                && row_written(new[i].project, name, path, ty, git, now) && new[i].project.id == id
                && new[i].project.created_at == old[i].project.created_at && new[i].metrics
                == old[i].metrics && new[i].git == old[i].git && new[i].languages
                == old[i].languages
    } else {
        &&& id == old_next
        &&& new_next == old_next + 1
        &&& new.len() == old.len() + 1
        &&& new.drop_last() == old
        &&& row_written(new.last().project, name, path, ty, git, now)
        &&& new.last().project.id == id
        &&& new.last().project.created_at == now
        &&& new.last().metrics is None
        &&& new.last().git is None
        &&& new.last().languages@.len() == 0
    }
}

/// `new` is `old` with only what is attached to the entry at `i` changed.
pub open spec fn changed_at(old: Seq<CatalogEntry>, new: Seq<CatalogEntry>, i: int) -> bool {
    &&& new.len() == old.len()
    &&& forall|j: int| 0 <= j < old.len() && j != i ==> new[j] == old[j]
    &&& new[i].project == old[i].project
}

fn clone_opt_str(o: Option<&str>) -> (r: Option<String>)
    ensures
        crate::query::opt_str_view(r) == opt_view(o),
{
    match o {
        Some(s) => Some(s.to_string()),
        None => None,
    }
}

impl Catalog {
    pub open spec fn wf(&self) -> bool {
        entries_wf(self.entries@, self.next_id)
    }

    /// The records of all projects, in insertion order.
    pub open spec fn records_spec(&self) -> Seq<ProjectRecord> {
        records_of(self.entries@)
    }

    /// An empty catalog.
    pub fn new() -> (r: Catalog)
        ensures
            r.wf(),
            r.entries@.len() == 0,
            r.next_id == 1,
    {
        Catalog { entries: Vec::new(), next_id: 1 }
    }

    /// Rebuilds a catalog from stored entries, in id order. Refused when a
    /// path repeats or the ids do not increase from 1 upwards.
    pub fn from_entries(entries: Vec<CatalogEntry>) -> (r: Result<Catalog, CatalogError>)
        ensures
            match r {
                Ok(c) => c.wf() && c.entries@ == entries@,
                Err(e) => e == CatalogError::Inconsistent || e == CatalogError::IdsExhausted,
            },
            r is Ok <==> (exists|n: i64| entries_wf(entries@, n)),
    {
        let n = entries.len();
        let mut i: usize = 0;
        let mut last: i64 = 0;
        while i < n
            invariant
                n == entries@.len(),
                i <= n,
                0 <= last < i64::MAX,
                i == 0 ==> last == 0,
                i > 0 ==> last == entries@[i - 1].project.id,
                entries_wf(entries@.take(i as int), (last + 1) as i64),
            decreases n - i,
        {
            let id = entries[i].project.id;
            if id <= last || id == i64::MAX {
                proof {
                    if exists|m: i64| entries_wf(entries@, m) {
                        let m = choose|m: i64| entries_wf(entries@, m);
                        if i > 0 {
                            assert(entries@[i - 1].project.id < entries@[i as int].project.id);
                        }
                        assert(entries@[i as int].project.id < m);
                    }
                }
                return Err(CatalogError::Inconsistent);
            }
            let mut j: usize = 0;
            while j < i
                invariant
                    i < n,
                    n == entries@.len(),
                    j <= i,
                    forall|k: int| 0 <= k < j ==> entries@[k].project.path@ != entries@[i as int].project.path@,
                decreases i - j,
            {
                if entries[j].project.path == entries[i].project.path {
                    proof {
                        if exists|m: i64| entries_wf(entries@, m) {
                            let m = choose|m: i64| entries_wf(entries@, m);
                            assert(entries@[j as int].project.path@ != entries@[i as int].project.path@);
                        }
                    }
                    return Err(CatalogError::Inconsistent);
                }
                j = j + 1;
            }
            proof {
                let t = entries@.take(i + 1);
                assert forall|a: int, b: int| 0 <= a < b < t.len() implies t[a].project.path@
                    != t[b].project.path@ && t[a].project.id < t[b].project.id by {
                    if b < i {
                        assert(entries@.take(i as int)[a] == t[a]);
                        assert(entries@.take(i as int)[b] == t[b]);
                    } else {
                        if a < i as int - 1 {
                            assert(entries@.take(i as int)[a] == t[a]);
                            assert(entries@.take(i as int)[i - 1] == t[i - 1]);
                        }
                    }
                }
                assert forall|a: int| 0 <= a < t.len() implies 0 < #[trigger] t[a].project.id < id
                    + 1 by {
                    if a < i {
                        assert(entries@.take(i as int)[a] == t[a]);
                    }
                }
            }
            last = id;
            i = i + 1;
        }
        assert(entries@.take(n as int) =~= entries@);
        Ok(Catalog { entries, next_id: last + 1 })
    }

    /// Index of the project stored under `path`, if any.
    fn find_path(&self, path: &str) -> (r: Option<usize>)
        requires
            self.wf(),
        ensures
            match r {
                Some(i) => has_path(self.entries@, path@, i as int),
                None => !path_present(self.entries@, path@),
            },
    {
        let target = path.to_string();
        let mut i: usize = 0;
        while i < self.entries.len()
            invariant
                target@ == path@,
                i <= self.entries@.len(),
                forall|k: int| 0 <= k < i ==> self.entries@[k].project.path@ != path@,
            decreases self.entries@.len() - i,
        {
            if self.entries[i].project.path == target {
                return Some(i);
            }
            i = i + 1;
        }
        None
    }

    /// Index of the project with `id`, if any.
    fn find_id(&self, id: i64) -> (r: Option<usize>)
        ensures
            match r {
                Some(i) => has_id(self.entries@, id, i as int),
                None => !id_present(self.entries@, id),
            },
    {
        let mut i: usize = 0;
        while i < self.entries.len()
            invariant
                i <= self.entries@.len(),
                forall|k: int| 0 <= k < i ==> self.entries@[k].project.id != id,
            decreases self.entries@.len() - i,
        {
            if self.entries[i].project.id == id {
                return Some(i);
            }
            i = i + 1;
        }
        None
    }

    /// Inserts the project at `path`, or refreshes its name, type, version
    /// control flag and update time when the path is already there; returns
    /// the project's id either way. Refused only when a new project needs an
    /// id and none is left.
    pub fn upsert_project(
        &mut self,
        name: &str,
        path: &str,
        project_type: Option<&str>,
        is_git_repo: bool,
        now: i64,
    ) -> (r: Result<i64, CatalogError>)
        requires
            old(self).wf(),
        ensures
            final(self).wf(),
            match r {
                Ok(id) => upserted(
                    old(self).entries@,
                    old(self).next_id,
                    final(self).entries@,
                    final(self).next_id,
                    name@,
                    path@,
                    opt_view(project_type),
                    is_git_repo,
                    now,
                    id,
                ),
                Err(e) => e == CatalogError::IdsExhausted && !path_present(
                    old(self).entries@,
                    path@,
                ) && old(self).next_id == i64::MAX && final(self).entries@ == old(
                    self,
                ).entries@ && final(self).next_id == old(self).next_id,
            },
            r is Err <==> (!path_present(old(self).entries@, path@) && old(self).next_id
                == i64::MAX),
    {
        match self.find_path(path) {
            Some(i) => {
                let mut e = self.entries.remove(i);
                let ghost old_e = e;
                e.project.name = name.to_string();
                e.project.project_type = clone_opt_str(project_type);
                e.project.is_git_repo = is_git_repo;
                e.project.updated_at = now;
                let id = e.project.id;
                self.entries.insert(i, e);
                proof {
                    let o = old(self).entries@;
                    let s = self.entries@;
                    assert forall|j: int| 0 <= j < o.len() && j != i implies s[j] == o[j] by {}
                    assert(has_path(o, path@, i as int));
                    assert(entries_wf(s, self.next_id)) by {
                        assert forall|a: int, b: int| 0 <= a < b < s.len() implies s[a].project.path@
                            != s[b].project.path@ && s[a].project.id < s[b].project.id by {
                            assert(o[a].project.path@ != o[b].project.path@);
                        }
                        assert forall|a: int| 0 <= a < s.len() implies 0 < #[trigger] s[a].project.id
                            < self.next_id by {
                            assert(0 < o[a].project.id);
                        }
                    }
                }
                Ok(id)
            },
            None => {
                if self.next_id == i64::MAX {
                    return Err(CatalogError::IdsExhausted);
                }
                let id = self.next_id;
                let row = ProjectRow {
                    id,
                    name: name.to_string(),
                    path: path.to_string(),
                    project_type: clone_opt_str(project_type),
                    is_git_repo,
                    created_at: now,
                    updated_at: now,
                };
                let e = CatalogEntry { project: row, metrics: None, git: None, languages: Vec::new() };
                self.entries.push(e);
                self.next_id = id + 1;
                proof {
                    let o = old(self).entries@;
                    let s = self.entries@;
                    assert(s.drop_last() =~= o);
                    assert forall|a: int, b: int| 0 <= a < b < s.len() implies s[a].project.path@
                        != s[b].project.path@ && s[a].project.id < s[b].project.id by {
                        if b == s.len() - 1 {
                            assert(!has_path(o, path@, a));
                        }
                    }
                }
                Ok(id)
            },
        }
    }

    /// Replaces the metrics of project `id` wholesale.
    pub fn upsert_metrics(&mut self, id: i64, metrics: Metrics) -> (r: Result<(), CatalogError>)
        requires
            old(self).wf(),
        ensures
            final(self).wf(),
            final(self).next_id == old(self).next_id,
            r is Err <==> !id_present(old(self).entries@, id),
            match r {
                Err(e) => e == CatalogError::UnknownProject && final(self).entries@ == old(
                    self,
                ).entries@,
                Ok(_) => true,
            },
            r is Ok ==> exists|i: int|
                has_id(old(self).entries@, id, i) && changed_at(
                    old(self).entries@,
                    final(self).entries@,
                    i,
                ) && final(self).entries@[i].metrics == Some(metrics) && final(self).entries@[i].git
                    == old(self).entries@[i].git && final(self).entries@[i].languages == old(
                    self,
                ).entries@[i].languages,
    {
        match self.find_id(id) {
            None => Err(CatalogError::UnknownProject),
            Some(i) => {
                let mut e = self.entries.remove(i);
                e.metrics = Some(metrics);
                self.entries.insert(i, e);
                proof {
                    assert(self.entries@ =~= old(self).entries@.update(i as int, self.entries@[i as int]));
                    self.lemma_same_rows(old(self).entries@, i as int);
                }
                Ok(())
            },
        }
    }

    /// Replaces the version-control information of project `id` wholesale.
    pub fn upsert_git_info(&mut self, id: i64, info: GitInfo) -> (r: Result<(), CatalogError>)
        requires
            old(self).wf(),
        ensures
            final(self).wf(),
            final(self).next_id == old(self).next_id,
            r is Err <==> !id_present(old(self).entries@, id),
            match r {
                Err(e) => e == CatalogError::UnknownProject && final(self).entries@ == old(
                    self,
                ).entries@,
                Ok(_) => true,
            },
            r is Ok ==> exists|i: int|
                has_id(old(self).entries@, id, i) && changed_at(
                    old(self).entries@,
                    final(self).entries@,
                    i,
                ) && final(self).entries@[i].git == Some(info) && final(self).entries@[i].metrics
                    == old(self).entries@[i].metrics && final(self).entries@[i].languages == old(
                    self,
                ).entries@[i].languages,
    {
        match self.find_id(id) {
            None => Err(CatalogError::UnknownProject),
            Some(i) => {
                let mut e = self.entries.remove(i);
                e.git = Some(info);
                self.entries.insert(i, e);
                proof {
                    assert(self.entries@ =~= old(self).entries@.update(i as int, self.entries@[i as int]));
                    self.lemma_same_rows(old(self).entries@, i as int);
                }
                Ok(())
            },
        }
    }

    /// Replaces the per-language line counts of project `id` with `pairs`;
    /// an empty list clears them.
    pub fn replace_loc_breakdown(&mut self, id: i64, pairs: Vec<(String, i64)>) -> (r: Result<
        (),
        CatalogError,
    >)
        requires
            old(self).wf(),
        ensures
            final(self).wf(),
            final(self).next_id == old(self).next_id,
            r is Err <==> !id_present(old(self).entries@, id),
            match r {
                Err(e) => e == CatalogError::UnknownProject && final(self).entries@ == old(
                    self,
                ).entries@,
                Ok(_) => true,
            },
            r is Ok ==> exists|i: int|
                has_id(old(self).entries@, id, i) && changed_at(
                    old(self).entries@,
                    final(self).entries@,
                    i,
                ) && final(self).entries@[i].languages@ == pairs@ && final(self).entries@[i].metrics
                    == old(self).entries@[i].metrics && final(self).entries@[i].git == old(
                    self,
                ).entries@[i].git,
    {
        match self.find_id(id) {
            None => Err(CatalogError::UnknownProject),
            Some(i) => {
                let mut e = self.entries.remove(i);
                e.languages = pairs;
                self.entries.insert(i, e);
                proof {
                    assert(self.entries@ =~= old(self).entries@.update(i as int, self.entries@[i as int]));
                    self.lemma_same_rows(old(self).entries@, i as int);
                }
                Ok(())
            },
        }
    }

    proof fn lemma_same_rows(&self, o: Seq<CatalogEntry>, i: int)
        requires
            entries_wf(o, self.next_id),
            0 <= i < o.len(),
            self.entries@ == o.update(i, self.entries@[i]),
            self.entries@[i].project == o[i].project,
        ensures
            self.wf(),
            changed_at(o, self.entries@, i),
    {
        let s = self.entries@;
        assert forall|a: int, b: int| 0 <= a < b < s.len() implies s[a].project.path@
            != s[b].project.path@ && s[a].project.id < s[b].project.id by {
            assert(s[a].project == o[a].project);
            assert(s[b].project == o[b].project);
        }
        assert forall|a: int| 0 <= a < s.len() implies 0 < #[trigger] s[a].project.id
            < self.next_id by {
            assert(s[a].project == o[a].project);
        }
    }

    /// Number of projects in the catalog.
    pub fn len(&self) -> (r: usize)
        ensures
            r == self.entries@.len(),
    {
        self.entries.len()
    }

    /// The records of all projects, in insertion order.
    pub fn records(&self) -> (r: Vec<ProjectRecord>)
        ensures
            r@ == self.records_spec(),
    {
        let mut out: Vec<ProjectRecord> = Vec::new();
        let mut i: usize = 0;
        while i < self.entries.len()
            invariant
                i <= self.entries@.len(),
                out@ == records_of(self.entries@.take(i as int)),
            decreases self.entries@.len() - i,
        {
            let e = &self.entries[i];
            let (size_bytes, files_count, last_edited_at, loc) = match e.metrics {
                Some(m) => (m.size_bytes, m.files_count, m.last_edited_at, m.loc),
                None => (None, None, None, None),
            };
            let r = ProjectRecord {
                id: e.project.id,
                name: e.project.name.clone(),
                path: e.project.path.clone(),
                project_type: match &e.project.project_type {
                    Some(t) => Some(t.clone()),
                    None => None,
                },
                is_git_repo: e.project.is_git_repo,
                size_bytes,
                files_count,
                last_edited_at,
                loc,
            };
            out.push(r);
            proof {
                assert(records_of(self.entries@.take(i + 1)) =~= records_of(
                    self.entries@.take(i as int),
                ).push(record_of(self.entries@[i as int])));
            }
            i = i + 1;
        }
        assert(self.entries@.take(self.entries@.len() as int) =~= self.entries@);
        out
    }

    /// Up to `limit` records in the listing order of `key`: newest, largest
    /// and longest first with absent values last; names and types
    /// alphabetically.
    pub fn list_projects(&self, key: SortKey, limit: usize) -> (r: Vec<ProjectRecord>)
        ensures
            r@ == window_spec(
                sort_spec(self.records_spec(), key, list_ascending(key)),
                0,
                limit as int,
            ),
    {
        let asc = key == SortKey::Name || key == SortKey::Type;
        let sorted = sort_records(self.records(), key, asc);
        window(sorted, 0, limit as u64)
    }

    /// Number of projects whose name or path contains the search term
    /// (ignoring ASCII case); all of them without a term. Saturates at
    /// `u32::MAX`.
    pub fn count_projects(&self, search: Option<&str>) -> (r: u32)
        ensures
            r as int == if filter_spec(self.records_spec(), term_view(search)).len()
                <= u32::MAX {
                filter_spec(self.records_spec(), term_view(search)).len() as int
            } else {
                u32::MAX as int
            },
    {
        let rows = self.records();
        let c = count_matching(&rows, search);
        if c <= u32::MAX as usize {
            c as u32
        } else {
            u32::MAX
        }
    }

    /// One page of the projects that the search term matches, sorted by
    /// `key` in the requested direction: rows `page * page_size` up to
    /// `page_size` further.
    pub fn query_projects(
        &self,
        search: Option<&str>,
        key: SortKey,
        ascending: bool,
        page: u32,
        page_size: u32,
    ) -> (r: Vec<ProjectRecord>)
        ensures
            r@ == window_spec(
                sort_spec(filter_spec(self.records_spec(), term_view(search)), key, ascending),
                page as int * page_size as int,
                page_size as int,
            ),
    {
        let kept = filter_records(self.records(), search);
        let sorted = sort_records(kept, key, ascending);
        proof {
            let (a, b) = (page as int, page_size as int);
            assert(0 <= a * b <= 0xffff_ffff * 0xffff_ffff) by (nonlinear_arith)
                requires
                    0 <= a <= 0xffff_ffff,
                    0 <= b <= 0xffff_ffff,
            ;
        }
        let offset = (page as u64) * (page_size as u64);
        window(sorted, offset, page_size as u64)
    }
}

/// The two catalogs hold the same project rows in the same order; only what
/// is attached to them may differ.
pub open spec fn same_projects(a: Seq<CatalogEntry>, b: Seq<CatalogEntry>) -> bool {
    a.len() == b.len() && forall|j: int| 0 <= j < a.len() ==> #[trigger] b[j].project == a[j].project
}

/// An upsert keeps the catalog well formed.
pub proof fn lemma_upsert_wf(
    old: Seq<CatalogEntry>,
    old_next: i64,
    new: Seq<CatalogEntry>,
    new_next: i64,
    name: Seq<char>,
    path: Seq<char>,
    ty: Option<Seq<char>>,
    git: bool,
    now: i64,
    id: i64,
)
    requires
        entries_wf(old, old_next),
        upserted(old, old_next, new, new_next, name, path, ty, git, now, id),
    ensures
        entries_wf(new, new_next),
        exists|k: int| has_path(new, path, k) && new[k].project.id == id,
{
    if path_present(old, path) {
        let i = choose|i: int|
            has_path(old, path, i) && id == old[i].project.id && new.len() == old.len() && new_next
                == old_next && (forall|j: int| 0 <= j < old.len() && j != i ==> new[j] == old[j])
                && row_written(new[i].project, name, path, ty, git, now) && new[i].project.id == id
                && new[i].project.created_at == old[i].project.created_at && new[i].metrics
                == old[i].metrics && new[i].git == old[i].git && new[i].languages
                == old[i].languages;
        assert forall|a: int| 0 <= a < new.len() implies new[a].project.path@ == old[a].project.path@
            && new[a].project.id == old[a].project.id by {
            if a != i {
                assert(new[a] == old[a]);
            }
        }
        assert(has_path(new, path, i));
        assert forall|a: int| 0 <= a < new.len() implies 0 < #[trigger] new[a].project.id
            < new_next by {
            assert(0 < old[a].project.id < old_next);
        }
    } else {
        let k = new.len() - 1;
        assert forall|a: int| 0 <= a < old.len() implies new[a] == old[a] by {
            assert(new.drop_last()[a] == new[a]);
        }
        assert forall|a: int, b: int| 0 <= a < b < new.len() implies new[a].project.path@
            != new[b].project.path@ && new[a].project.id < new[b].project.id by {
            if b == k {
                assert(!has_path(old, path, a));
                assert(0 < #[trigger] old[a].project.id < old_next);
            }
        }
        assert forall|a: int| 0 <= a < new.len() implies 0 < #[trigger] new[a].project.id
            < new_next by {
            if a < k {
                assert(0 < old[a].project.id < old_next);
            }
        }
        assert(has_path(new, path, k));
    }
}

/// No upsert changes the id of a path the catalog already holds.
pub proof fn lemma_upsert_keeps_ids(
    old: Seq<CatalogEntry>,
    old_next: i64,
    new: Seq<CatalogEntry>,
    new_next: i64,
    name: Seq<char>,
    path: Seq<char>,
    ty: Option<Seq<char>>,
    git: bool,
    now: i64,
    id: i64,
    p: Seq<char>,
    i: int,
)
    requires
        entries_wf(old, old_next),
        upserted(old, old_next, new, new_next, name, path, ty, git, now, id),
        has_path(old, p, i),
    ensures
        has_path(new, p, i),
        new[i].project.id == old[i].project.id,
{
    if path_present(old, path) {
        let k = choose|k: int|
            has_path(old, path, k) && id == old[k].project.id && new.len() == old.len() && new_next
                == old_next && (forall|j: int| 0 <= j < old.len() && j != k ==> new[j] == old[j])
                && row_written(new[k].project, name, path, ty, git, now) && new[k].project.id == id
                && new[k].project.created_at == old[k].project.created_at && new[k].metrics
                == old[k].metrics && new[k].git == old[k].git && new[k].languages
                == old[k].languages;
        if i != k {
            assert(new[i] == old[i]);
        }
    } else {
        assert(new.drop_last()[i] == new[i]);
    }
}

/// Idempotent upsert: once a path has been upserted, upserting it again,
/// after any changes to what is attached to the rows, resolves to the same id
/// and adds no row.
pub proof fn lemma_upsert_idempotent(
    c0: Seq<CatalogEntry>,
    n0: i64,
    c1: Seq<CatalogEntry>,
    n1: i64,
    c2: Seq<CatalogEntry>,
    c3: Seq<CatalogEntry>,
    n3: i64,
    path: Seq<char>,
    name: Seq<char>,
    ty: Option<Seq<char>>,
    git: bool,
    now: i64,
    id1: i64,
    name2: Seq<char>,
    ty2: Option<Seq<char>>,
    git2: bool,
    now2: i64,
    id2: i64,
)
    requires
        entries_wf(c0, n0),
        upserted(c0, n0, c1, n1, name, path, ty, git, now, id1),
        same_projects(c1, c2),
        upserted(c2, n1, c3, n3, name2, path, ty2, git2, now2, id2),
    ensures
        id2 == id1,
        c3.len() == c1.len(),
        n3 == n1,
{
    lemma_upsert_wf(c0, n0, c1, n1, name, path, ty, git, now, id1);
    let k = choose|k: int| has_path(c1, path, k) && c1[k].project.id == id1;
    assert(c2[k].project == c1[k].project);
    assert(has_path(c2, path, k));
    let i = choose|i: int|
        has_path(c2, path, i) && id2 == c2[i].project.id && c3.len() == c2.len() && n3 == n1 && (
        forall|j: int| 0 <= j < c2.len() && j != i ==> c3[j] == c2[j]) && row_written(
            c3[i].project,
            name2,
            path,
            ty2,
            git2,
            now2,
        ) && c3[i].project.id == id2 && c3[i].project.created_at == c2[i].project.created_at
            && c3[i].metrics == c2[i].metrics && c3[i].git == c2[i].git && c3[i].languages
            == c2[i].languages;
    assert(c2[i].project == c1[i].project);
    if i != k {
        if i < k {
            assert(c1[i].project.path@ != c1[k].project.path@);
        } else {
            assert(c1[k].project.path@ != c1[i].project.path@);
        }
    }
}

} // verus!
