use vstd::prelude::*;

use crate::catalog::{
    has_id, has_path, path_present, upserted, Catalog, CatalogEntry, CatalogError, Metrics,
};
use crate::config::views_of;
use crate::detect::{contains_name, has_name, names_of, type_label, ProjectType};
use crate::query::chars_of;
use crate::vcs::GitInfo;

verus! {

/// Options of one scan.
#[derive(Debug, Clone, Copy, Default)]
pub struct ScanOptions {
    pub dry_run: bool,
}

/// A directory that detection classified, with what was gathered about it.
pub struct FoundProject {
    pub name: String,
    pub path: String,
    pub project_type: ProjectType,
    pub is_git_repo: bool,
    pub metrics: Metrics,
    pub git: Option<GitInfo>,
    pub languages: Option<Vec<(String, i64)>>,
}

/// `q` is `r` or lies below it, reading paths as `/`-separated components.
pub open spec fn within(q: Seq<char>, r: Seq<char>) -> bool {
    q == r || (r.len() < q.len() && q.subrange(0, r.len() as int) == r && (q[r.len() as int] == '/'
        || (r.len() > 0 && r.last() == '/')))
}

/// `q` lies within one of the claimed project roots.
pub open spec fn under_any(claimed: Seq<Seq<char>>, q: Seq<char>) -> bool {
    exists|i: int| 0 <= i < claimed.len() && within(q, #[trigger] claimed[i])
}

/// Whether the walk runs detection on the directory at `path` named `name`:
/// not within a claimed project, and not named like a globally ignored
/// directory.
pub open spec fn probe_spec(
    claimed: Seq<Seq<char>>,
    path: Seq<char>,
    name: Option<Seq<char>>,
    ignores: Seq<Seq<char>>,
) -> bool {
    !under_any(claimed, path) && match name {
        Some(n) => !has_name(ignores, n),
        None => true,
    }
}

/// The catalog after recording `f` as project `id`: an upsert of its row,
/// then its metrics, its version-control information when there is some and
/// its language breakdown when there is one.
pub open spec fn recorded(
    old: Seq<CatalogEntry>,
    old_next: i64,
    new: Seq<CatalogEntry>,
    new_next: i64,
    f: FoundProject,
    now: i64,
    id: i64,
) -> bool {
    exists|mid: Seq<CatalogEntry>, i: int|
        upserted(
            old,
            old_next,
            mid,
            new_next,
            f.name@,
            f.path@,
            Some(type_label(f.project_type)),
            f.is_git_repo,
            now,
            id,
        ) && has_id(mid, id, i) && new.len() == mid.len() && (forall|j: int|
            0 <= j < mid.len() && j != i ==> new[j] == mid[j]) && new[i].project == mid[i].project
            && new[i].metrics == Some(f.metrics) && new[i].git == (match f.git {
            Some(g) => Some(g),
            None => mid[i].git,
        }) && new[i].languages@ == (match f.languages {
            Some(l) => l@,
            None => mid[i].languages@,
        })
}

/// Whether `q` lies within `r`.
pub fn path_within(q: &str, r: &str) -> (b: bool)
    ensures
        b == within(q@, r@),
{
    let qv = chars_of(q);
    let rv = chars_of(r);
    if qv.len() < rv.len() {
        return false;
    }
    let mut i: usize = 0;
    while i < rv.len()
        invariant
            qv@ == q@,
            rv@ == r@,
            rv.len() <= qv.len(),
            i <= rv.len(),
            forall|k: int| 0 <= k < i ==> qv@[k] == rv@[k],
        decreases rv.len() - i,
    {
        if qv[i] != rv[i] {
            assert(q@.subrange(0, r@.len() as int)[i as int] != r@[i as int]);
            return false;
        }
        i = i + 1;
    }
    assert(q@.subrange(0, r@.len() as int) =~= r@);
    if qv.len() == rv.len() {
        assert(q@ =~= r@);
        return true;
    }
    qv[rv.len()] == '/' || (rv.len() > 0 && rv[rv.len() - 1] == '/')
}

/// Whether a directory name is on the global ignore list.
pub fn is_globally_ignored(name: &str, global_ignores: &Vec<String>) -> (r: bool)
    ensures
        r == has_name(views_of(global_ignores@), name@),
{
    assert(views_of(global_ignores@) =~= names_of(global_ignores@));
    contains_name(global_ignores, name)
}

/// The walk of one root: the project roots claimed so far, and how many
/// projects were found.
pub struct RootScan {
    pub claimed: Vec<String>,
    pub count: usize,
}

impl RootScan {
    pub open spec fn claimed_view(&self) -> Seq<Seq<char>> {
        views_of(self.claimed@)
    }

    pub fn new() -> (r: RootScan)
        ensures
            r.claimed@.len() == 0,
            r.count == 0,
    {
        RootScan { claimed: Vec::new(), count: 0 }
    }

    /// Whether detection should run on the directory at `path`, whose last
    /// component is `name` (absent when it has none or it is not text).
    pub fn should_probe(&self, path: &str, name: Option<&str>, global_ignores: &Vec<String>) -> (r:
        bool)
        ensures
            r == probe_spec(
                self.claimed_view(),
                path@,
                match name {
                    Some(n) => Some(n@),
                    None => None,
                },
                views_of(global_ignores@),
            ),
    {
        let mut i: usize = 0;
        while i < self.claimed.len()
            invariant
                i <= self.claimed@.len(),
                forall|k: int| 0 <= k < i ==> !within(path@, #[trigger] self.claimed@[k]@),
            decreases self.claimed@.len() - i,
        {
            if path_within(path, self.claimed[i].as_str()) {
                assert(self.claimed_view()[i as int] == self.claimed@[i as int]@);
                return false;
            }
            i = i + 1;
        }
        assert(!under_any(self.claimed_view(), path@)) by {
            if under_any(self.claimed_view(), path@) {
                let k = choose|k: int|
                    0 <= k < self.claimed_view().len() && within(
                        path@,
                        #[trigger] self.claimed_view()[k],
                    );
                assert(self.claimed_view()[k] == self.claimed@[k]@);
            }
        }
        match name {
            Some(n) => !is_globally_ignored(n, global_ignores),
            None => true,
        }
    }

    /// Records a detected project: claims its subtree and counts it, and,
    /// unless this is a dry run, writes it to the catalog. A dry run returns
    /// `Ok(None)` and leaves the catalog as it was; otherwise the project's id
    /// comes back. Refused, with nothing changed, only when the catalog has
    /// no id left for a new project.
    pub fn record(
        &mut self,
        catalog: &mut Catalog,
        found: FoundProject,
        opts: ScanOptions,
        now: i64,
    ) -> (r: Result<Option<i64>, CatalogError>)
        requires
            old(catalog).wf(),
        ensures
            final(catalog).wf(),
            match r {
                Ok(_) => {
                    &&& final(self).claimed_view() == old(self).claimed_view().push(found.path@)
                    &&& final(self).count == if old(self).count < usize::MAX {
                        (old(self).count + 1) as usize
                    } else {
                        old(self).count
                    }
                },
                Err(e) => {
                    &&& e == CatalogError::IdsExhausted
                    &&& final(self).claimed@ == old(self).claimed@
                    &&& final(self).count == old(self).count
                    &&& final(catalog).entries@ == old(catalog).entries@
                },
            },
            opts.dry_run ==> r == Ok::<Option<i64>, CatalogError>(None) && final(catalog).entries@
                == old(catalog).entries@ && final(catalog).next_id == old(catalog).next_id,
            !opts.dry_run ==> (r is Err <==> (!path_present(old(catalog).entries@, found.path@)
                && old(catalog).next_id == i64::MAX)),
            !opts.dry_run ==> match r {
                Ok(Some(id)) => recorded(
                    old(catalog).entries@,
                    old(catalog).next_id,
                    final(catalog).entries@,
                    final(catalog).next_id,
                    found,
                    now,
                    id,
                ),
                Ok(None) => false,
                Err(_) => true,
            },
    {
        let ghost f = found;
        let mut result: Option<i64> = None;
        if !opts.dry_run {
            let ty = found.project_type.as_str();
            let id = match catalog.upsert_project(
                found.name.as_str(),
                found.path.as_str(),
                Some(ty),
                found.is_git_repo,
                now,
            ) {
                Ok(id) => id,
                Err(e) => {
                    return Err(e);
                },
            };
            let ghost mid = catalog.entries@;
            let ghost k: int;
            proof {
                crate::catalog::lemma_upsert_wf(
                    old(catalog).entries@,
                    old(catalog).next_id,
                    mid,
                    catalog.next_id,
                    found.name@,
                    found.path@,
                    Some(type_label(found.project_type)),
                    found.is_git_repo,
                    now,
                    id,
                );
                k = choose|k: int| has_path(mid, found.path@, k) && mid[k].project.id == id;
            }
            let ghost c1 = catalog.entries@;
            assert(has_id(c1, id, k));
            let r1 = catalog.upsert_metrics(id, found.metrics);
            proof {
                self.lemma_unique_id(c1, catalog.next_id, id, k);
            }
            assert(r1 is Ok);
            proof {
                let i = choose|i: int| has_id(c1, id, i) && crate::catalog::changed_at(c1, catalog.entries@, i) && catalog.entries@[i].metrics == Some(found.metrics) && catalog.entries@[i].git == c1[i].git && catalog.entries@[i].languages == c1[i].languages;
                assert(i == k);
                assert(has_id(catalog.entries@, id, k));
            }
            let ghost c2 = catalog.entries@;
            match found.git {
                Some(g) => {
                    let r2 = catalog.upsert_git_info(id, g);
                    assert(r2 is Ok);
                    proof {
                        self.lemma_unique_id(c2, catalog.next_id, id, k);
                        let i = choose|i: int| has_id(c2, id, i) && crate::catalog::changed_at(c2, catalog.entries@, i) && catalog.entries@[i].git == Some(g) && catalog.entries@[i].metrics == c2[i].metrics && catalog.entries@[i].languages == c2[i].languages;
                        assert(i == k);
                        assert(has_id(catalog.entries@, id, k));
                    }
                },
                None => {},
            }
            let ghost c3 = catalog.entries@;
            match found.languages {
                Some(l) => {
                    let ghost lv = l@;
                    let r3 = catalog.replace_loc_breakdown(id, l);
                    assert(r3 is Ok);
                    proof {
                        self.lemma_unique_id(c3, catalog.next_id, id, k);
                        let i = choose|i: int| has_id(c3, id, i) && crate::catalog::changed_at(c3, catalog.entries@, i) && catalog.entries@[i].languages@ == lv && catalog.entries@[i].metrics == c3[i].metrics && catalog.entries@[i].git == c3[i].git;
                        assert(i == k);
                    }
                },
                None => {},
            }
            proof {
                let fin = catalog.entries@;
                assert forall|j: int| 0 <= j < mid.len() && j != k implies fin[j] == mid[j] by {}
                assert(has_id(mid, id, k));
                assert(recorded(
                    old(catalog).entries@,
                    old(catalog).next_id,
                    fin,
                    catalog.next_id,
                    f,
                    now,
                    id,
                ));
            }
            result = Some(id);
        }
        self.claimed.push(found.path);
        if self.count < usize::MAX {
            self.count = self.count + 1;
        }
        proof {
            assert(self.claimed_view() =~= old(self).claimed_view().push(f.path@));
        }
        Ok(result)
    }

    /// Ids are unique in a well-formed catalog, so the entry of `id` is the
    /// one at `k`.
    proof fn lemma_unique_id(&self, s: Seq<CatalogEntry>, n: i64, id: i64, k: int)
        requires
            crate::catalog::entries_wf(s, n),
            has_id(s, id, k),
        ensures
            forall|i: int| has_id(s, id, i) ==> i == k,
    {
        assert forall|i: int| has_id(s, id, i) implies i == k by {
            if i < k {
                assert(s[i].project.id < s[k].project.id);
            } else if k < i {
                assert(s[k].project.id < s[i].project.id);
            }
        }
    }
}

/// Claim pruning: once a directory is claimed as a project, nothing within
/// its subtree is probed again in the same walk, so a nested project under
/// it is never registered on its own.
pub proof fn lemma_claimed_subtree_pruned(
    claimed: Seq<Seq<char>>,
    outer: Seq<char>,
    inner: Seq<char>,
    name: Option<Seq<char>>,
    ignores: Seq<Seq<char>>,
)
    requires
        claimed.contains(outer),
        within(inner, outer),
    ensures
        !probe_spec(claimed, inner, name, ignores),
{
    let i = choose|i: int| 0 <= i < claimed.len() && claimed[i] == outer;
    assert(within(inner, claimed[i]));
}

/// Idempotent scan: when a path found by one scan is found again by the next
/// (whatever was gathered about it this time), recording it resolves to the
/// id it got the first time and the catalog gains no row.
pub proof fn lemma_rescan_same_id(
    c0: Seq<CatalogEntry>,
    n0: i64,
    c1: Seq<CatalogEntry>,
    n1: i64,
    c2: Seq<CatalogEntry>,
    n2: i64,
    first: FoundProject,
    second: FoundProject,
    now1: i64,
    now2: i64,
    id1: i64,
    id2: i64,
)
    requires
        crate::catalog::entries_wf(c0, n0),
        recorded(c0, n0, c1, n1, first, now1, id1),
        recorded(c1, n1, c2, n2, second, now2, id2),
        second.path@ == first.path@,
    ensures
        id2 == id1,
        c2.len() == c1.len(),
        n2 == n1,
{
    let (mid, i) = choose|mid: Seq<CatalogEntry>, i: int|
        upserted(
            c0,
            n0,
            mid,
            n1,
            first.name@,
            first.path@,
            Some(type_label(first.project_type)),
            first.is_git_repo,
            now1,
            id1,
        ) && has_id(mid, id1, i) && c1.len() == mid.len() && (forall|j: int|
            0 <= j < mid.len() && j != i ==> c1[j] == mid[j]) && c1[i].project == mid[i].project
            && c1[i].metrics == Some(first.metrics) && c1[i].git == (match first.git {
            Some(g) => Some(g),
            None => mid[i].git,
        }) && c1[i].languages@ == (match first.languages {
            Some(l) => l@,
            None => mid[i].languages@,
        });
    let (mid2, i2) = choose|mid2: Seq<CatalogEntry>, i2: int|
        upserted(
            c1,
            n1,
            mid2,
            n2,
            second.name@,
            second.path@,
            Some(type_label(second.project_type)),
            second.is_git_repo,
            now2,
            id2,
        ) && has_id(mid2, id2, i2) && c2.len() == mid2.len() && (forall|j: int|
            0 <= j < mid2.len() && j != i2 ==> c2[j] == mid2[j]) && c2[i2].project
            == mid2[i2].project && c2[i2].metrics == Some(second.metrics) && c2[i2].git == (
        match second.git {
            Some(g) => Some(g),
            None => mid2[i2].git,
        }) && c2[i2].languages@ == (match second.languages {
            Some(l) => l@,
            None => mid2[i2].languages@,
        });
    assert(crate::catalog::same_projects(mid, c1)) by {
        assert forall|j: int| 0 <= j < mid.len() implies #[trigger] c1[j].project == mid[j].project by {
            if j != i {
                assert(c1[j] == mid[j]);
            }
        }
    }
    crate::catalog::lemma_upsert_idempotent(
        c0,
        n0,
        mid,
        n1,
        c1,
        mid2,
        n2,
        first.path@,
        first.name@,
        Some(type_label(first.project_type)),
        first.is_git_repo,
        now1,
        id1,
        second.name@,
        Some(type_label(second.project_type)),
        second.is_git_repo,
        now2,
        id2,
    );
}

} // verus!
