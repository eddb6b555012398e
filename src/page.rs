use vstd::prelude::*;
use vstd::string::*;

use crate::catalog::Catalog;
use crate::query::{filter_spec, sort_spec, window_spec, ProjectRecord, SortKey};

verus! {

/// One page of a catalog query, with the number of matches overall.
#[derive(Debug, Clone)]
pub struct ProjectsPage {
    pub items: Vec<ProjectRecord>,
    pub page: u32,
    pub page_size: u32,
    pub total_count: u32,
}

/// The sort key a caller names: `size`, `name`, `type`, `loc`, and recency
/// for anything else.
pub open spec fn key_named(s: Option<Seq<char>>) -> SortKey {
    match s {
        Some(t) => if t == "size"@ {
            SortKey::Size
        } else if t == "name"@ {
            SortKey::Name
        } else if t == "type"@ {
            SortKey::Type
        } else if t == "loc"@ {
            SortKey::Loc
        } else {
            SortKey::Recent
        },
        None => SortKey::Recent,
    }
}

/// Unicode white space, the characters `char::is_whitespace` accepts.
pub open spec fn is_space(c: char) -> bool {
    ('\t' <= c <= '\r') || c == ' ' || c == '\u{85}' || c == '\u{a0}' || c == '\u{1680}' || (
    '\u{2000}' <= c <= '\u{200a}') || c == '\u{2028}' || c == '\u{2029}' || c == '\u{202f}' || c
        == '\u{205f}' || c == '\u{3000}'
}

pub open spec fn all_space(s: Seq<char>) -> bool {
    forall|i: int| 0 <= i < s.len() ==> is_space(#[trigger] s[i])
}

/// A search term that is absent or blank searches for nothing in
/// particular.
pub open spec fn effective_term(q: Option<Seq<char>>) -> Option<Seq<char>> {
    match q {
        Some(t) => if all_space(t) {
            None
        } else {
            Some(t)
        },
        None => None,
    }
}

fn str_eq(a: &str, b: &str) -> (r: bool)
    ensures
        r == (a@ == b@),
{
    String::from_str(a) == String::from_str(b)
}

fn space_char(c: char) -> (r: bool)
    ensures
        r == is_space(c),
{
    ('\t' <= c && c <= '\r') || c == ' ' || c == '\u{85}' || c == '\u{a0}' || c == '\u{1680}' || (
    '\u{2000}' <= c && c <= '\u{200a}') || c == '\u{2028}' || c == '\u{2029}' || c == '\u{202f}'
        || c == '\u{205f}' || c == '\u{3000}'
}

/// The sort key named by `s`.
pub fn sort_key_named(s: Option<&str>) -> (r: SortKey)
    ensures
        r == key_named(
            match s {
                Some(t) => Some(t@),
                None => None,
            },
        ),
{
    match s {
        Some(t) => if str_eq(t, "size") {
            SortKey::Size
        } else if str_eq(t, "name") {
            SortKey::Name
        } else if str_eq(t, "type") {
            SortKey::Type
        } else if str_eq(t, "loc") {
            SortKey::Loc
        } else {
            SortKey::Recent
        },
        None => SortKey::Recent,
    }
}

/// Drops a search term that holds nothing but white space.
pub fn normalize_search(q: Option<&str>) -> (r: Option<&str>)
    ensures
        match r {
            Some(t) => Some(t@) == effective_term(
                match q {
                    Some(x) => Some(x@),
                    None => None,
                },
            ),
            None => effective_term(
                match q {
                    Some(x) => Some(x@),
                    None => None,
                },
            ) is None,
        },
{
    match q {
        None => None,
        Some(t) => {
            let n = t.unicode_len();
            let mut i: usize = 0;
            let mut blank = true;
            while i < n && blank
                invariant
                    n == t@.len(),
                    i <= n,
                    forall|k: int| 0 <= k < i ==> is_space(#[trigger] t@[k]),
                    !blank ==> i < n && !is_space(t@[i as int]),
                decreases n - i + if blank { 1int } else { 0int },
            {
                if space_char(t.get_char(i)) {
                    i = i + 1;
                } else {
                    blank = false;
                }
            }
            if blank {
                None
            } else {
                assert(!all_space(t@));
                Some(t)
            }
        },
    }
}

impl Catalog {
    /// The query a caller asks for by name: the search term (blank means
    /// none), the sort key's name, the direction (`asc` for ascending,
    /// descending otherwise), and the page; with the total number of matches.
    pub fn query_page(
        &self,
        q: Option<&str>,
        sort: Option<&str>,
        direction: Option<&str>,
        page: u32,
        page_size: u32,
    ) -> (r: ProjectsPage)
        ensures
            ({
                let term = effective_term(
                    match q {
                        Some(x) => Some(x@),
                        None => None,
                    },
                );
                let key = key_named(
                    match sort {
                        Some(x) => Some(x@),
                        None => None,
                    },
                );
                let asc = match direction {
                    Some(d) => d@ == "asc"@,
                    None => false,
                };
                let matched = filter_spec(self.records_spec(), term);
                &&& r.items@ == window_spec(
                    sort_spec(matched, key, asc),
                    page as int * page_size as int,
                    page_size as int,
                )
                &&& r.total_count as int == if matched.len() <= u32::MAX {
                    matched.len() as int
                } else {
                    u32::MAX as int
                }
                &&& r.page == page
                &&& r.page_size == page_size
            }),
    {
        let key = sort_key_named(sort);
        let term = normalize_search(q);
        let asc = match direction {
            Some(d) => str_eq(d, "asc"),
            None => false,
        };
        let total_count = self.count_projects(term);
        let items = self.query_projects(term, key, asc, page, page_size);
        ProjectsPage { items, page, page_size, total_count }
    }
}

} // verus!
