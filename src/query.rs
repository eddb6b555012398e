use vstd::prelude::*;
use vstd::string::*;

verus! {

/// One catalog row as handed to callers: a project joined with its metrics.
#[derive(Debug, Clone)]
pub struct ProjectRecord {
    pub id: i64,
    pub name: String,
    pub path: String,
    pub project_type: Option<String>,
    pub is_git_repo: bool,
    pub size_bytes: Option<i64>,
    pub files_count: Option<i64>,
    pub last_edited_at: Option<i64>,
    pub loc: Option<i64>,
}

/// The recognised sort keys.
#[derive(Debug, Clone, Copy, PartialEq, Eq, Structural)]
pub enum SortKey {
    Recent,
    Size,
    Name,
    Type,
    Loc,
}

pub open spec fn opt_str_view(o: Option<String>) -> Option<Seq<char>> {
    match o {
        Some(s) => Some(s@),
        None => None,
    }
}

/// Lexicographic order on code points (the order of UTF-8 bytes).
pub open spec fn lex_lt(a: Seq<char>, b: Seq<char>) -> bool
    decreases a.len(),
{
    if a.len() == 0 {
        b.len() > 0
    } else if b.len() == 0 {
        false
    } else if a[0] < b[0] {
        true
    } else if a[0] == b[0] {
        lex_lt(a.drop_first(), b.drop_first())
    } else {
        false
    }
}

/// Order on an optional text column: an absent value sorts first.
pub open spec fn opt_lt(a: Option<Seq<char>>, b: Option<Seq<char>>) -> bool {
    match (a, b) {
        (None, Some(_)) => true,
        (Some(x), Some(y)) => lex_lt(x, y),
        _ => false,
    }
}

/// Order on a nullable metric: present values in the requested direction,
/// every present value before every absent one.
pub open spec fn metric_before(a: Option<i64>, b: Option<i64>, asc: bool) -> bool {
    match (a, b) {
        (Some(x), Some(y)) => if asc {
            x < y
        } else {
            x > y
        },
        (Some(_), None) => true,
        _ => false,
    }
}

/// The metric a sort key reads, if it reads one.
pub open spec fn metric_of(r: ProjectRecord, key: SortKey) -> Option<i64> {
    match key {
        SortKey::Recent => r.last_edited_at,
        SortKey::Size => r.size_bytes,
        SortKey::Loc => r.loc,
        _ => None,
    }
}

pub open spec fn is_metric_key(key: SortKey) -> bool {
    key == SortKey::Recent || key == SortKey::Size || key == SortKey::Loc
}

pub open spec fn type_name_lt(a: ProjectRecord, b: ProjectRecord) -> bool {
    opt_lt(opt_str_view(a.project_type), opt_str_view(b.project_type)) || (opt_str_view(
        a.project_type,
    ) == opt_str_view(b.project_type) && lex_lt(a.name@, b.name@))
}

/// `a` sorts strictly before `b` under `key` in the given direction.
pub open spec fn before(a: ProjectRecord, b: ProjectRecord, key: SortKey, asc: bool) -> bool {
    match key {
        SortKey::Name => if asc {
            lex_lt(a.name@, b.name@)
        } else {
            lex_lt(b.name@, a.name@)
        },
        SortKey::Type => if asc {
            type_name_lt(a, b)
        } else {
            type_name_lt(b, a)
        },
        _ => metric_before(metric_of(a, key), metric_of(b, key), asc),
    }
}

/// Inserts `x` after every element it does not sort before.
pub open spec fn insert_spec(x: ProjectRecord, s: Seq<ProjectRecord>, key: SortKey, asc: bool) -> Seq<
    ProjectRecord,
>
    decreases s.len(),
{
    if s.len() == 0 {
        seq![x]
    } else if before(x, s.last(), key, asc) {
        insert_spec(x, s.drop_last(), key, asc).push(s.last())
    } else {
        s.push(x)
    }
}

/// Stable sort: rows that compare equal keep their original order.
pub open spec fn sort_spec(s: Seq<ProjectRecord>, key: SortKey, asc: bool) -> Seq<ProjectRecord>
    decreases s.len(),
{
    if s.len() == 0 {
        s
    } else {
        insert_spec(s.last(), sort_spec(s.drop_last(), key, asc), key, asc)
    }
}

pub open spec fn sorted_by(s: Seq<ProjectRecord>, key: SortKey, asc: bool) -> bool {
    forall|i: int, j: int| 0 <= i < j < s.len() ==> !before(s[j], s[i], key, asc)
}

/// ASCII letters match either case; every other character matches itself.
pub open spec fn char_eq_ci(a: char, b: char) -> bool {
    a == b || ('A' <= a <= 'Z' && (a as u32) + 32 == (b as u32)) || ('A' <= b <= 'Z' && (b as u32)
        + 32 == (a as u32))
}

pub open spec fn match_at(h: Seq<char>, n: Seq<char>, i: int) -> bool {
    forall|j: int| 0 <= j < n.len() ==> char_eq_ci(#[trigger] h[i + j], n[j])
}

/// `n` occurs in `h` as a substring, ignoring ASCII case.
pub open spec fn contains_ci(h: Seq<char>, n: Seq<char>) -> bool {
    exists|i: int| 0 <= i && i + n.len() <= h.len() && #[trigger] match_at(h, n, i)
}

/// The search filter: the term occurs in the name or in the path.
pub open spec fn matches_search(r: ProjectRecord, q: Seq<char>) -> bool {
    contains_ci(r.name@, q) || contains_ci(r.path@, q)
}

/// Whether the optional search term keeps the record.
pub open spec fn keeps(r: ProjectRecord, q: Option<Seq<char>>) -> bool {
    match q {
        Some(t) => matches_search(r, t),
        None => true,
    }
}

/// The records that the optional search term keeps, in their order.
pub open spec fn filter_spec(s: Seq<ProjectRecord>, q: Option<Seq<char>>) -> Seq<ProjectRecord>
    decreases s.len(),
{
    if s.len() == 0 {
        s
    } else {
        let sub = filter_spec(s.drop_last(), q);
        if keeps(s.last(), q) {
            sub.push(s.last())
        } else {
            sub
        }
    }
}

proof fn lemma_filter_none(s: Seq<ProjectRecord>)
    ensures
        filter_spec(s, None) == s,
    decreases s.len(),
{
    if s.len() > 0 {
        lemma_filter_none(s.drop_last());
        assert(s.drop_last().push(s.last()) =~= s);
    }
}

proof fn lemma_filter_len(s: Seq<ProjectRecord>, q: Option<Seq<char>>)
    ensures
        filter_spec(s, q).len() <= s.len(),
    decreases s.len(),
{
    if s.len() > 0 {
        lemma_filter_len(s.drop_last(), q);
    }
}

pub open spec fn min_int(a: int, b: int) -> int {
    if a < b {
        a
    } else {
        b
    }
}

/// The rows `offset .. offset + size` of `s`, cut at its end.
pub open spec fn window_spec(s: Seq<ProjectRecord>, offset: int, size: int) -> Seq<ProjectRecord> {
    s.subrange(min_int(offset, s.len() as int), min_int(offset + size, s.len() as int))
}

pub open spec fn term_view(search: Option<&str>) -> Option<Seq<char>> {
    match search {
        Some(q) => Some(q@),
        None => None,
    }
}

/// The direction `list` uses for each key: most recent, largest and most
/// lines first; names and types alphabetically.
pub open spec fn list_ascending(key: SortKey) -> bool {
    key == SortKey::Name || key == SortKey::Type
}

// ---------------------------------------------------------------------------
// Properties of the order
proof fn lemma_lex_irrefl(a: Seq<char>)
    ensures
        !lex_lt(a, a),
    decreases a.len(),
{
    if a.len() > 0 {
        lemma_lex_irrefl(a.drop_first());
    }
}

proof fn lemma_lex_trans(a: Seq<char>, b: Seq<char>, c: Seq<char>)
    requires
        lex_lt(a, b),
        lex_lt(b, c),
    ensures
        lex_lt(a, c),
    decreases a.len(),
{
    if a.len() > 0 && b.len() > 0 && c.len() > 0 && a[0] == b[0] && b[0] == c[0] {
        lemma_lex_trans(a.drop_first(), b.drop_first(), c.drop_first());
    }
}

proof fn lemma_lex_total(a: Seq<char>, b: Seq<char>)
    ensures
        a == b || lex_lt(a, b) || lex_lt(b, a),
    decreases a.len(),
{
    if a.len() > 0 && b.len() > 0 {
        if a[0] == b[0] {
            lemma_lex_total(a.drop_first(), b.drop_first());
            if a.drop_first() == b.drop_first() {
                assert(a =~= seq![a[0]] + a.drop_first());
                assert(b =~= seq![b[0]] + b.drop_first());
            }
        }
    } else if a.len() == 0 && b.len() == 0 {
        assert(a =~= b);
    }
}

proof fn lemma_lex_facts(a: Seq<char>, b: Seq<char>, c: Seq<char>)
    ensures
        !lex_lt(a, a),
        lex_lt(a, b) ==> !lex_lt(b, a),
        lex_lt(a, b) && lex_lt(b, c) ==> lex_lt(a, c),
        a == b || lex_lt(a, b) || lex_lt(b, a),
{
    lemma_lex_irrefl(a);
    lemma_lex_total(a, b);
    if lex_lt(a, b) && lex_lt(b, a) {
        lemma_lex_trans(a, b, a);
    }
    if lex_lt(a, b) && lex_lt(b, c) {
        lemma_lex_trans(a, b, c);
    }
}

proof fn lemma_opt_facts(a: Option<Seq<char>>, b: Option<Seq<char>>, c: Option<Seq<char>>)
    ensures
        !opt_lt(a, a),
        opt_lt(a, b) ==> !opt_lt(b, a),
        opt_lt(a, b) && opt_lt(b, c) ==> opt_lt(a, c),
        a == b || opt_lt(a, b) || opt_lt(b, a),
{
    if a is Some && b is Some && c is Some {
        lemma_lex_facts(a->0, b->0, c->0);
    } else if a is Some && b is Some {
        lemma_lex_facts(a->0, b->0, b->0);
    } else if a is Some {
        lemma_lex_facts(a->0, a->0, a->0);
    }
}

/// `before` is a strict weak order: asymmetric, and "not before" is transitive.
proof fn lemma_before_order(
    a: ProjectRecord,
    b: ProjectRecord,
    c: ProjectRecord,
    key: SortKey,
    asc: bool,
)
    ensures
        before(a, b, key, asc) ==> !before(b, a, key, asc),
        !before(a, b, key, asc) && !before(b, c, key, asc) ==> !before(a, c, key, asc),
{
    lemma_lex_facts(a.name@, b.name@, c.name@);
    lemma_lex_facts(b.name@, c.name@, a.name@);
    lemma_lex_facts(c.name@, a.name@, b.name@);
    lemma_lex_facts(a.name@, c.name@, b.name@);
    lemma_lex_facts(b.name@, a.name@, c.name@);
    lemma_lex_facts(c.name@, b.name@, a.name@);
    let (ta, tb, tc) = (
        opt_str_view(a.project_type),
        opt_str_view(b.project_type),
        opt_str_view(c.project_type),
    );
    lemma_opt_facts(ta, tb, tc);
    lemma_opt_facts(tb, tc, ta);
    lemma_opt_facts(tc, ta, tb);
    lemma_opt_facts(ta, tc, tb);
    lemma_opt_facts(tb, ta, tc);
    lemma_opt_facts(tc, tb, ta);
}

proof fn lemma_insert_sorted(x: ProjectRecord, s: Seq<ProjectRecord>, key: SortKey, asc: bool)
    requires
        sorted_by(s, key, asc),
    ensures
        sorted_by(insert_spec(x, s, key, asc), key, asc),
        insert_spec(x, s, key, asc).to_multiset() == s.to_multiset().insert(x),
        insert_spec(x, s, key, asc).len() == s.len() + 1,
    decreases s.len(),
{
    let r = insert_spec(x, s, key, asc);
    if s.len() == 0 {
        assert(r =~= s.push(x));
        s.to_multiset_ensures();
    } else if before(x, s.last(), key, asc) {
        let p = s.drop_last();
        let l = s.last();
        lemma_insert_sorted(x, p, key, asc);
        let q = insert_spec(x, p, key, asc);
        assert(r == q.push(l));
        assert forall|i: int| 0 <= i < q.len() implies !before(l, q[i], key, asc) by {
            q.to_multiset_ensures();
            p.to_multiset_ensures();
            assert(q.contains(q[i]));
            assert(q.to_multiset().count(q[i]) > 0);
            if q[i] == x {
                lemma_before_order(x, l, l, key, asc);
            } else {
                assert(p.to_multiset().count(q[i]) > 0);
                assert(p.contains(q[i]));
                let k = choose|k: int| 0 <= k < p.len() && p[k] == q[i];
                assert(s[k] == p[k]);
                assert(!before(s[s.len() - 1], s[k], key, asc));
            }
        }
        assert(sorted_by(r, key, asc));
        assert(s =~= p.push(l));
        p.to_multiset_ensures();
        q.to_multiset_ensures();
        assert(r.to_multiset() =~= s.to_multiset().insert(x));
    } else {
        assert forall|i: int| 0 <= i < s.len() implies !before(x, s[i], key, asc) by {
            if i < s.len() - 1 {
                lemma_before_order(x, s.last(), s[i], key, asc);
            }
        }
        assert(sorted_by(r, key, asc));
        s.to_multiset_ensures();
    }
}

/// The stable sort yields a sorted permutation of its input.
pub proof fn lemma_sort_sorted(s: Seq<ProjectRecord>, key: SortKey, asc: bool)
    ensures
        sorted_by(sort_spec(s, key, asc), key, asc),
        sort_spec(s, key, asc).to_multiset() == s.to_multiset(),
        sort_spec(s, key, asc).len() == s.len(),
    decreases s.len(),
{
    if s.len() > 0 {
        lemma_sort_sorted(s.drop_last(), key, asc);
        lemma_insert_sorted(s.last(), sort_spec(s.drop_last(), key, asc), key, asc);
        assert(s =~= s.drop_last().push(s.last()));
        s.drop_last().to_multiset_ensures();
    }
}

/// Nulls last: under a key on a nullable metric, in either direction, every
/// row that has the metric comes before every row that lacks it.
pub proof fn lemma_nulls_last(s: Seq<ProjectRecord>, key: SortKey, asc: bool, i: int, j: int)
    requires
        is_metric_key(key),
        0 <= i < sort_spec(s, key, asc).len(),
        0 <= j < sort_spec(s, key, asc).len(),
        metric_of(sort_spec(s, key, asc)[i], key) is None,
        metric_of(sort_spec(s, key, asc)[j], key) is Some,
    ensures
        j < i,
{
    lemma_sort_sorted(s, key, asc);
    let t = sort_spec(s, key, asc);
    if i < j {
        assert(!before(t[j], t[i], key, asc));
    }
}

// ---------------------------------------------------------------------------
// Executable operations
pub(crate) fn chars_of(s: &str) -> (v: Vec<char>)
    ensures
        v@ == s@,
{
    let n = s.unicode_len();
    let mut v: Vec<char> = Vec::new();
    let mut i: usize = 0;
    while i < n
        invariant
            n == s@.len(),
            i <= n,
            v@ == s@.subrange(0, i as int),
        decreases n - i,
    {
        v.push(s.get_char(i));
        i = i + 1;
        assert(v@ =~= s@.subrange(0, i as int));
    }
    assert(v@ =~= s@);
    v
}

fn lex_less(a: &str, b: &str) -> (r: bool)
    ensures
        r == lex_lt(a@, b@),
{
    let av = chars_of(a);
    let bv = chars_of(b);
    let mut i: usize = 0;
    assert(a@.skip(0) =~= a@);
    assert(b@.skip(0) =~= b@);
    while i < av.len() && i < bv.len()
        invariant
            av@ == a@,
            bv@ == b@,
            i <= av.len(),
            i <= bv.len(),
            lex_lt(a@, b@) == lex_lt(a@.skip(i as int), b@.skip(i as int)),
        decreases av.len() - i,
    {
        let x = av[i];
        let y = bv[i];
        if x < y {
            return true;
        }
        if x != y {
            return false;
        }
        assert(a@.skip(i as int).drop_first() =~= a@.skip(i + 1));
        assert(b@.skip(i as int).drop_first() =~= b@.skip(i + 1));
        i = i + 1;
    }
    i == av.len() && i < bv.len()
}

fn opt_str_less(a: &Option<String>, b: &Option<String>) -> (r: bool)
    ensures
        r == opt_lt(opt_str_view(*a), opt_str_view(*b)),
{
    match (a, b) {
        (None, Some(_)) => true,
        (Some(x), Some(y)) => lex_less(x.as_str(), y.as_str()),
        _ => false,
    }
}

fn opt_str_eq(a: &Option<String>, b: &Option<String>) -> (r: bool)
    ensures
        r == (opt_str_view(*a) == opt_str_view(*b)),
{
    match (a, b) {
        (None, None) => true,
        (Some(x), Some(y)) => *x == *y,
        _ => false,
    }
}

fn metric_less(a: Option<i64>, b: Option<i64>, asc: bool) -> (r: bool)
    ensures
        r == metric_before(a, b, asc),
{
    match (a, b) {
        (Some(x), Some(y)) => if asc {
            x < y
        } else {
            x > y
        },
        (Some(_), None) => true,
        _ => false,
    }
}

fn type_name_less(a: &ProjectRecord, b: &ProjectRecord) -> (r: bool)
    ensures
        r == type_name_lt(*a, *b),
{
    opt_str_less(&a.project_type, &b.project_type) || (opt_str_eq(
        &a.project_type,
        &b.project_type,
    ) && lex_less(a.name.as_str(), b.name.as_str()))
}

/// Whether `a` sorts strictly before `b`.
pub fn sorts_before(a: &ProjectRecord, b: &ProjectRecord, key: SortKey, asc: bool) -> (r: bool)
    ensures
        r == before(*a, *b, key, asc),
{
    match key {
        SortKey::Name => if asc {
            lex_less(a.name.as_str(), b.name.as_str())
        } else {
            lex_less(b.name.as_str(), a.name.as_str())
        },
        SortKey::Type => if asc {
            type_name_less(a, b)
        } else {
            type_name_less(b, a)
        },
        SortKey::Recent => metric_less(a.last_edited_at, b.last_edited_at, asc),
        SortKey::Size => metric_less(a.size_bytes, b.size_bytes, asc),
        SortKey::Loc => metric_less(a.loc, b.loc, asc),
    }
}

proof fn lemma_insert_at(x: ProjectRecord, s: Seq<ProjectRecord>, key: SortKey, asc: bool, k: int)
    requires
        0 <= k <= s.len(),
        forall|j: int| k <= j < s.len() ==> before(x, #[trigger] s[j], key, asc),
        k == 0 || !before(x, s[k - 1], key, asc),
    ensures
        insert_spec(x, s, key, asc) == s.insert(k, x),
    decreases s.len(),
{
    if s.len() == 0 {
        assert(s.insert(k, x) =~= seq![x]);
    } else if k == s.len() {
        assert(s.insert(k, x) =~= s.push(x));
    } else {
        let p = s.drop_last();
        assert(before(x, s[s.len() - 1], key, asc));
        lemma_insert_at(x, p, key, asc, k);
        assert(s.insert(k, x) =~= p.insert(k, x).push(s.last()));
    }
}

/// Sorts the rows by `key` in the given direction, keeping the original order
/// of rows that compare equal.
pub fn sort_records(rows: Vec<ProjectRecord>, key: SortKey, asc: bool) -> (r: Vec<ProjectRecord>)
    ensures
        r@ == sort_spec(rows@, key, asc),
{
    let ghost orig = rows@;
    let mut rest = rows;
    let mut out: Vec<ProjectRecord> = Vec::new();
    let mut i: usize = 0;
    let n = rest.len();
    while rest.len() > 0
        invariant
            n == orig.len(),
            i + rest.len() == n,
            rest@ == orig.skip(i as int),
            out@ == sort_spec(orig.take(i as int), key, asc),
        decreases rest.len(),
    {
        let x = rest.remove(0);
        let mut k: usize = out.len();
        while k > 0 && sorts_before(&x, &out[k - 1], key, asc)
            invariant
                k <= out.len(),
                forall|j: int| k <= j < out.len() ==> before(x, #[trigger] out@[j], key, asc),
            decreases k,
        {
            k = k - 1;
        }
        proof {
            lemma_insert_at(x, out@, key, asc, k as int);
            assert(orig.take(i + 1).drop_last() =~= orig.take(i as int));
            assert(orig.take(i + 1).last() == x);
        }
        out.insert(k, x);
        i = i + 1;
        proof {
            assert(rest@ =~= orig.skip(i as int));
        }
    }
    assert(orig.take(n as int) =~= orig);
    out
}

/// Whether `n` occurs in `h`, ignoring ASCII case.
fn contains_fold(h: &Vec<char>, n: &Vec<char>) -> (r: bool)
    ensures
        r == contains_ci(h@, n@),
{
    if n.len() > h.len() {
        return false;
    }
    let mut i: usize = 0;
    while i <= h.len() - n.len()
        invariant
            n.len() <= h.len(),
            i <= h.len() - n.len() + 1,
            forall|k: int| 0 <= k < i ==> !#[trigger] match_at(h@, n@, k),
        decreases h.len() - i,
    {
        let mut j: usize = 0;
        let mut ok = true;
        while j < n.len()
            invariant
                i + n.len() <= h.len(),
                j <= n.len(),
                ok ==> forall|m: int| 0 <= m < j ==> char_eq_ci(#[trigger] h@[i + m], n@[m]),
                !ok ==> !match_at(h@, n@, i as int),
            decreases n.len() - j,
        {
            let a = h[i + j];
            let b = n[j];
            let same = a == b || ('A' <= a && a <= 'Z' && (a as u32) + 32 == (b as u32)) || (
            'A' <= b && b <= 'Z' && (b as u32) + 32 == (a as u32));
            if !same {
                ok = false;
                assert(!char_eq_ci(h@[i + j], n@[j as int]));
            }
            j = j + 1;
        }
        if ok {
            assert(match_at(h@, n@, i as int));
            return true;
        }
        i = i + 1;
    }
    false
}

/// The search filter on one record: the term occurs in its name or path,
/// ignoring ASCII case.
pub fn record_matches(r: &ProjectRecord, q: &str) -> (b: bool)
    ensures
        b == matches_search(*r, q@),
{
    let qv = chars_of(q);
    let nv = chars_of(r.name.as_str());
    if contains_fold(&nv, &qv) {
        return true;
    }
    let pv = chars_of(r.path.as_str());
    contains_fold(&pv, &qv)
}

/// Keeps the rows that the search term matches, in their order; every row
/// when there is no term.
pub fn filter_records(rows: Vec<ProjectRecord>, search: Option<&str>) -> (r: Vec<ProjectRecord>)
    ensures
        r@ == filter_spec(rows@, term_view(search)),
{
    match search {
        None => {
            proof {
                lemma_filter_none(rows@);
            }
            rows
        },
        Some(q) => {
            let ghost orig = rows@;
            let mut rest = rows;
            let mut out: Vec<ProjectRecord> = Vec::new();
            let mut i: usize = 0;
            let n = rest.len();
            while rest.len() > 0
                invariant
                    n == orig.len(),
                    i + rest.len() == n,
                    rest@ == orig.skip(i as int),
                    out@ == filter_spec(orig.take(i as int), Some(q@)),
                decreases rest.len(),
            {
                let x = rest.remove(0);
                proof {
                    assert(orig.take(i + 1).drop_last() =~= orig.take(i as int));
                    assert(orig.take(i + 1).last() == x);
                }
                if record_matches(&x, q) {
                    out.push(x);
                }
                i = i + 1;
                proof {
                    assert(rest@ =~= orig.skip(i as int));
                }
            }
            assert(orig.take(n as int) =~= orig);
            out
        },
    }
}

/// Number of rows that the search term matches, every row when there is none.
pub fn count_matching(rows: &Vec<ProjectRecord>, search: Option<&str>) -> (r: usize)
    ensures
        r == filter_spec(rows@, term_view(search)).len(),
{
    match search {
        None => {
            proof {
                lemma_filter_none(rows@);
            }
            rows.len()
        },
        Some(q) => {
            let mut c: usize = 0;
            let mut i: usize = 0;
            while i < rows.len()
                invariant
                    i <= rows.len(),
                    c == filter_spec(rows@.take(i as int), Some(q@)).len(),
                decreases rows.len() - i,
            {
                proof {
                    assert(rows@.take(i + 1).drop_last() =~= rows@.take(i as int));
                    lemma_filter_len(rows@.take(i as int), Some(q@));
                }
                if record_matches(&rows[i], q) {
                    c = c + 1;
                }
                i = i + 1;
            }
            assert(rows@.take(rows.len() as int) =~= rows@);
            c
        },
    }
}

/// The rows `offset .. offset + size` of `rows`, cut at its end.
pub fn window(rows: Vec<ProjectRecord>, offset: u64, size: u64) -> (r: Vec<ProjectRecord>)
    ensures
        r@ == window_spec(rows@, offset as int, size as int),
{
    let ghost orig = rows@;
    let len = rows.len();
    let start: usize = if offset < len as u64 {
        offset as usize
    } else {
        len
    };
    let end: usize = if size < (len - start) as u64 {
        start + size as usize
    } else {
        len
    };
    let mut v = rows;
    v.truncate(end);
    let r = v.split_off(start);
    assert(r@ =~= window_spec(orig, offset as int, size as int));
    r
}

} // verus!
