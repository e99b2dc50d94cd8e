//! The report entities and the per-test views derived from them: one fetched
//! report groups benchmark observations by test name, and each view shows one
//! test's rows sorted by descending throughput.

use itertools::Itertools;
use vstd::prelude::*;
use vstd::string::*;

use crate::labels::str_eq;

verus! {

/// One benchmark observation. Throughput is carried as a whole number of
/// requests per second, the integer part the display order and the axis
/// scale are computed from; latencies stay pre-formatted display strings.
#[derive(Debug)]
pub struct TestingResult {
    pub test_name: String,
    pub webserver_name: String,
    pub language: String,
    pub database: Option<String>,
    pub orm: Option<String>,
    pub requests_per_second: u64,
    pub latency_p50: String,
    pub latency_p75: String,
    pub latency_p90: String,
    pub latency_p99: String,
}

impl Clone for TestingResult {
    fn clone(&self) -> (r: Self)
        ensures
            r == *self,
    {
        TestingResult {
            test_name: self.test_name.clone(),
            webserver_name: self.webserver_name.clone(),
            language: self.language.clone(),
            database: match &self.database {
                Some(d) => Some(d.clone()),
                None => None,
            },
            orm: match &self.orm {
                Some(o) => Some(o.clone()),
                None => None,
            },
            requests_per_second: self.requests_per_second,
            latency_p50: self.latency_p50.clone(),
            latency_p75: self.latency_p75.clone(),
            latency_p90: self.latency_p90.clone(),
            latency_p99: self.latency_p99.clone(),
        }
    }
}

/// One fetched snapshot of benchmark results plus its timestamp, replaced
/// wholesale on every successful fetch.
#[derive(Debug)]
pub struct Report {
    pub created_at: String,
    pub results: Vec<TestingResult>,
}

/// The predicate selecting the rows of one test's view.
pub open spec fn matches_test(name: Seq<char>) -> spec_fn(TestingResult) -> bool {
    |t: TestingResult| t.test_name@ == name
}

/// Descending throughput order.
pub open spec fn sorted_desc(s: Seq<TestingResult>) -> bool {
    forall|i: int, j: int|
        0 <= i <= j < s.len() ==> #[trigger] s[i].requests_per_second
            >= #[trigger] s[j].requests_per_second
}

/// Where a row ranks among an already-sorted sequence of rows that followed
/// it: after every strictly faster row, ahead of rows as fast as itself.
pub open spec fn insert_desc(x: TestingResult, s: Seq<TestingResult>) -> Seq<TestingResult>
    decreases s.len(),
{
    if s.len() == 0 {
        seq![x]
    } else if s[0].requests_per_second <= x.requests_per_second {
        seq![x] + s
    } else {
        seq![s[0]] + insert_desc(x, s.drop_first())
    }
}

/// The display order of a view: descending by throughput, rows of equal
/// throughput keeping their original relative order.
pub open spec fn sort_by_rps_desc(s: Seq<TestingResult>) -> Seq<TestingResult>
    decreases s.len(),
{
    if s.len() == 0 {
        s
    } else {
        insert_desc(s[0], sort_by_rps_desc(s.drop_first()))
    }
}

proof fn lemma_insert_desc(x: TestingResult, s: Seq<TestingResult>)
    requires
        sorted_desc(s),
    ensures
        sorted_desc(insert_desc(x, s)),
        insert_desc(x, s).to_multiset() == s.to_multiset().insert(x),
        insert_desc(x, s).len() == s.len() + 1,
        forall|k: int|
            0 <= k < insert_desc(x, s).len() ==> #[trigger] insert_desc(x, s)[k] == x
                || s.contains(insert_desc(x, s)[k]),
    decreases s.len(),
{
    broadcast use vstd::seq_lib::group_seq_properties;

    let out = insert_desc(x, s);
    s.to_multiset_ensures();
    out.to_multiset_ensures();
    if s.len() == 0 {
        assert(out =~= Seq::empty().push(x));
        Seq::<TestingResult>::empty().to_multiset_ensures();
        assert(out.to_multiset() =~= s.to_multiset().insert(x));
    } else if s[0].requests_per_second <= x.requests_per_second {
        vstd::seq_lib::lemma_multiset_commutative(seq![x], s);
        seq![x].to_multiset_ensures();
        assert(seq![x] =~= Seq::empty().push(x));
        Seq::<TestingResult>::empty().to_multiset_ensures();
        assert(out.to_multiset() =~= s.to_multiset().insert(x));
        assert(forall|k: int| 1 <= k < out.len() ==> out[k] == s[k - 1] && s.contains(s[k - 1]));
    } else {
        let tail = s.drop_first();
        assert(forall|i: int| 0 <= i < tail.len() ==> tail[i] == s[i + 1]);
        lemma_insert_desc(x, tail);
        let rec = insert_desc(x, tail);
        assert(out =~= seq![s[0]] + rec);
        // every element of the result is x or one of s's rows
        assert forall|k: int| 0 <= k < out.len() implies out[k] == x || s.contains(out[k]) by {
            if k == 0 {
                assert(s.contains(s[0]));
            } else {
                assert(out[k] == rec[k - 1]);
                if rec[k - 1] != x {
                    assert(tail.contains(rec[k - 1]));
                    let w = choose|w: int| 0 <= w < tail.len() && tail[w] == rec[k - 1];
                    assert(s[w + 1] == rec[k - 1]);
                }
            }
        }
        // the head row is at least as fast as everything placed after it
        assert forall|i: int, j: int|
            0 <= i <= j < out.len() implies #[trigger] out[i].requests_per_second
            >= #[trigger] out[j].requests_per_second by {
            if i == 0 && j > 0 {
                if out[j] == x {
                } else {
                    assert(s.contains(out[j]));
                }
            } else if i > 0 {
                assert(out[i] == rec[i - 1] && out[j] == rec[j - 1]);
            }
        }
        // multisets agree: both add x and s's head to the tail's rows
        vstd::seq_lib::lemma_multiset_commutative(seq![s[0]], rec);
        seq![s[0]].to_multiset_ensures();
        assert(seq![s[0]] =~= Seq::empty().push(s[0]));
        Seq::<TestingResult>::empty().to_multiset_ensures();
        assert(seq![s[0]] + tail =~= s);
        vstd::seq_lib::lemma_multiset_commutative(seq![s[0]], tail);
        assert(out.to_multiset() =~= s.to_multiset().insert(x));
    }
}

/// The display order is a permutation of the view, descending by throughput.
pub proof fn lemma_sort_by_rps_desc(s: Seq<TestingResult>)
    ensures
        sorted_desc(sort_by_rps_desc(s)),
        sort_by_rps_desc(s).to_multiset() == s.to_multiset(),
        sort_by_rps_desc(s).len() == s.len(),
        forall|k: int|
            0 <= k < s.len() ==> s.contains(#[trigger] sort_by_rps_desc(s)[k]),
    decreases s.len(),
{
    broadcast use vstd::seq_lib::group_seq_properties;

    let out = sort_by_rps_desc(s);
    s.to_multiset_ensures();
    out.to_multiset_ensures();
    if s.len() > 0 {
        let tail = s.drop_first();
        assert(forall|i: int| 0 <= i < tail.len() ==> tail[i] == s[i + 1]);
        lemma_sort_by_rps_desc(tail);
        let rec = sort_by_rps_desc(tail);
        lemma_insert_desc(s[0], rec);
        rec.to_multiset_ensures();
        tail.to_multiset_ensures();
        assert(seq![s[0]] + tail =~= s);
        vstd::seq_lib::lemma_multiset_commutative(seq![s[0]], tail);
        seq![s[0]].to_multiset_ensures();
        assert(seq![s[0]] =~= Seq::empty().push(s[0]));
        Seq::<TestingResult>::empty().to_multiset_ensures();
        assert(out.to_multiset() =~= s.to_multiset());
        assert forall|k: int| 0 <= k < s.len() implies s.contains(#[trigger] out[k]) by {
            if out[k] == s[0] {
                assert(s.contains(s[0]));
            } else if rec.contains(out[k]) {
                let w = choose|w: int| 0 <= w < rec.len() && rec[w] == out[k];
                assert(tail.contains(rec[w]));
                let v = choose|v: int| 0 <= v < tail.len() && tail[v] == out[k];
                assert(s[v + 1] == out[k]);
            }
        }
    }
}

/// The predicate selecting the rows of one throughput value.
pub open spec fn same_rps(k: u64) -> spec_fn(TestingResult) -> bool {
    |t: TestingResult| t.requests_per_second == k
}

proof fn lemma_singleton_filter(x: TestingResult, pred: spec_fn(TestingResult) -> bool)
    ensures
        seq![x].filter(pred) == if pred(x) {
            seq![x]
        } else {
            Seq::<TestingResult>::empty()
        },
{
    reveal(Seq::filter);
    assert(Seq::<TestingResult>::empty().filter(pred) =~= Seq::<TestingResult>::empty());
    assert(seq![x].drop_last() =~= Seq::<TestingResult>::empty());
    assert(seq![x].last() == x);
    if pred(x) {
        assert(seq![x].filter(pred) =~= seq![x]);
    } else {
        assert(seq![x].filter(pred) =~= Seq::<TestingResult>::empty());
    }
}

proof fn lemma_insert_desc_stable(x: TestingResult, s: Seq<TestingResult>, k: u64)
    requires
        sorted_desc(s),
    ensures
        insert_desc(x, s).filter(same_rps(k)) == if same_rps(k)(x) {
            seq![x] + s.filter(same_rps(k))
        } else {
            s.filter(same_rps(k))
        },
    decreases s.len(),
{
    broadcast use vstd::seq_lib::group_seq_properties;

    let pred = same_rps(k);
    let out = insert_desc(x, s);
    lemma_singleton_filter(x, pred);
    if s.len() == 0 {
        assert(out =~= seq![x]);
        reveal(Seq::filter);
        if pred(x) {
            assert(seq![x] + s.filter(pred) =~= seq![x]);
        }
    } else if s[0].requests_per_second <= x.requests_per_second {
        Seq::filter_distributes_over_add(seq![x], s, pred);
    } else {
        let tail = s.drop_first();
        assert(forall|i: int| 0 <= i < tail.len() ==> tail[i] == s[i + 1]);
        lemma_insert_desc_stable(x, tail, k);
        let rec = insert_desc(x, tail);
        assert(out =~= seq![s[0]] + rec);
        Seq::filter_distributes_over_add(seq![s[0]], rec, pred);
        assert(s =~= seq![s[0]] + tail);
        Seq::filter_distributes_over_add(seq![s[0]], tail, pred);
        lemma_singleton_filter(s[0], pred);
        // the head row is strictly faster than x, so it never carries x's key
        if pred(x) {
            assert(!pred(s[0]));
            assert(seq![s[0]].filter(pred) =~= Seq::<TestingResult>::empty());
            assert(out.filter(pred) =~= seq![x] + s.filter(pred));
        }
    }
}

/// Rows of equal throughput keep their original relative order: for every
/// throughput value, the display order's subsequence of rows at that value
/// is exactly the view's own subsequence, unmoved.
pub proof fn lemma_sort_by_rps_desc_stable(s: Seq<TestingResult>, k: u64)
    ensures
        sort_by_rps_desc(s).filter(same_rps(k)) == s.filter(same_rps(k)),
    decreases s.len(),
{
    broadcast use vstd::seq_lib::group_seq_properties;

    let pred = same_rps(k);
    if s.len() > 0 {
        let tail = s.drop_first();
        assert(forall|i: int| 0 <= i < tail.len() ==> tail[i] == s[i + 1]);
        lemma_sort_by_rps_desc_stable(tail, k);
        lemma_sort_by_rps_desc(tail);
        lemma_insert_desc_stable(s[0], sort_by_rps_desc(tail), k);
        assert(s =~= seq![s[0]] + tail);
        Seq::filter_distributes_over_add(seq![s[0]], tail, pred);
        lemma_singleton_filter(s[0], pred);
    }
}

/// Relies on `itertools::Itertools::sorted_by`: a stable sort under the
/// given comparator. Comparing throughput descending puts each row ahead of
/// every later row with an equal key, which is exactly the order
/// `sort_by_rps_desc` describes.
#[verifier::external_body]
pub(crate) fn sorted_by_rps(results: Vec<TestingResult>) -> (r: Vec<TestingResult>)
    ensures
        r@ == sort_by_rps_desc(results@),
{
    results
        .into_iter()
        .sorted_by(|a, b| b.requests_per_second.cmp(&a.requests_per_second))
        .collect()
}

/// The subset of `results` that belongs to the named test, in report order.
pub fn filter_by_test(results: &Vec<TestingResult>, test_name: &str) -> (r: Vec<TestingResult>)
    ensures
        r@ == results@.filter(matches_test(test_name@)),
{
    let mut r: Vec<TestingResult> = Vec::new();
    let n = results.len();
    let mut i: usize = 0;
    while i < n
        invariant
            i <= n == results@.len(),
            r@ == results@.take(i as int).filter(matches_test(test_name@)),
        decreases n - i,
    {
        let keep = str_eq(results[i].test_name.as_str(), test_name);
        if keep {
            r.push(results[i].clone());
        }
        proof {
            reveal(Seq::filter);
            let tk = results@.take(i + 1);
            assert(tk.drop_last() =~= results@.take(i as int));
            assert(tk.last() == results@[i as int]);
            assert(keep == matches_test(test_name@)(results@[i as int]));
            assert(r@ == tk.filter(matches_test(test_name@)));
        }
        i = i + 1;
    }
    proof {
        assert(results@.take(n as int) =~= results@);
    }
    r
}

/// The test names of a sequence of results, in report order.
pub open spec fn names_of(s: Seq<TestingResult>) -> Seq<Seq<char>> {
    s.map_values(|t: TestingResult| t.test_name@)
}

/// A sequence with later duplicates dropped: each name stays at its first
/// appearance.
pub open spec fn first_seen(s: Seq<Seq<char>>) -> Seq<Seq<char>>
    decreases s.len(),
{
    if s.len() == 0 {
        s
    } else {
        let rest = first_seen(s.drop_last());
        if s.drop_last().contains(s.last()) {
            rest
        } else {
            rest.push(s.last())
        }
    }
}

/// The tab list carries each test name exactly once: no name repeats, and a
/// name appears exactly when some result carries it.
pub proof fn lemma_first_seen(s: Seq<Seq<char>>)
    ensures
        first_seen(s).no_duplicates(),
        forall|x: Seq<char>| first_seen(s).contains(x) == s.contains(x),
    decreases s.len(),
{
    let out = first_seen(s);
    if s.len() > 0 {
        let head = s.drop_last();
        lemma_first_seen(head);
        let rest = first_seen(head);
        assert(forall|i: int| 0 <= i < head.len() ==> head[i] == s[i]);
        assert forall|x: Seq<char>| head.contains(x) implies s.contains(x) by {
            let w = choose|w: int| 0 <= w < head.len() && head[w] == x;
            assert(s[w] == x);
        }
        if head.contains(s.last()) {
            assert forall|x: Seq<char>| s.contains(x) implies out.contains(x) by {
                let w = choose|w: int| 0 <= w < s.len() && s[w] == x;
                if w < s.len() - 1 {
                    assert(head[w] == x);
                } else {
                    assert(x == s.last());
                }
                assert(head.contains(x));
            }
        } else {
            assert(out =~= rest.push(s.last()));
            assert forall|i: int, j: int| 0 <= i < j < out.len() implies out[i] != out[j] by {
                if j < out.len() - 1 {
                    assert(rest[i] != rest[j]);
                } else {
                    if out[i] == s.last() {
                        assert(rest.contains(out[i]));
                    }
                }
            }
            assert forall|x: Seq<char>| out.contains(x) implies s.contains(x) by {
                let w = choose|w: int| 0 <= w < out.len() && out[w] == x;
                if w < out.len() - 1 {
                    assert(rest.contains(x));
                    assert(head.contains(x));
                } else {
                    assert(s[s.len() - 1] == x);
                }
            }
            assert forall|x: Seq<char>| s.contains(x) implies out.contains(x) by {
                let w = choose|w: int| 0 <= w < s.len() && s[w] == x;
                if w < s.len() - 1 {
                    assert(head[w] == x);
                    assert(head.contains(x));
                    assert(rest.contains(x));
                    let v = choose|v: int| 0 <= v < rest.len() && rest[v] == x;
                    assert(out[v] == x);
                } else {
                    assert(out[out.len() - 1] == x);
                }
            }
        }
    }
}

/// Relies on `itertools::Itertools::unique`: yields the elements in their
/// original order, keeping the first occurrence of each duplicate, which is
/// the order `first_seen` describes.
#[verifier::external_body]
fn unique_names(names: Vec<String>) -> (r: Vec<String>)
    ensures
        r.deep_view() == first_seen(names.deep_view()),
{
    names.into_iter().unique().collect()
}

/// The distinct test names of a report's results, first appearance first:
/// the captions of the dashboard's tabs.
pub fn test_names(results: &Vec<TestingResult>) -> (r: Vec<String>)
    ensures
        r.deep_view() == first_seen(names_of(results@)),
{
    let mut names: Vec<String> = Vec::new();
    let n = results.len();
    let mut i: usize = 0;
    while i < n
        invariant
            i <= n == results@.len(),
            names.deep_view() == names_of(results@.take(i as int)),
        decreases n - i,
    {
        let ghost prev = names.deep_view();
        names.push(results[i].test_name.clone());
        proof {
            assert(names.deep_view() =~= prev.push(results@[i as int].test_name@));
            assert(names_of(results@.take(i + 1)) =~= names_of(results@.take(i as int)).push(
                results@[i as int].test_name@,
            ));
        }
        i = i + 1;
    }
    proof {
        assert(results@.take(n as int) =~= results@);
    }
    unique_names(names)
}

/// One rendered table line. Absent database or ORM labels are shown as
/// sentinel text instead.
#[derive(Debug)]
pub struct TableRow {
    pub webserver_name: String,
    pub language: String,
    pub database: String,
    pub orm: String,
    pub requests_per_second: u64,
    pub latency_p50: String,
    pub latency_p75: String,
    pub latency_p90: String,
    pub latency_p99: String,
}

/// How a table line renders one benchmark observation.
pub open spec fn row_matches(row: TableRow, t: TestingResult) -> bool {
    &&& row.webserver_name == t.webserver_name
    &&& row.language == t.language
    &&& row.database@ == match t.database {
        Some(d) => d@,
        None => "no db"@,
    }
    &&& row.orm@ == match t.orm {
        Some(o) => o@,
        None => "no orm"@,
    }
    &&& row.requests_per_second == t.requests_per_second
    &&& row.latency_p50 == t.latency_p50
    &&& row.latency_p75 == t.latency_p75
    &&& row.latency_p90 == t.latency_p90
    &&& row.latency_p99 == t.latency_p99
}

/// The table's content for one test: its results in display order.
#[derive(Debug)]
pub struct TestingResultList {
    pub rows: Vec<TableRow>,
}

impl TestingResultList {
    /// Builds the active view's table: the selected test's results sorted by
    /// descending throughput, each turned into one line, with sentinel text
    /// standing in for an absent database or ORM.
    pub fn create(results: &Vec<TestingResult>, selected_test_name: &str) -> (r: Self)
        ensures
            ({
                let sorted = sort_by_rps_desc(
                    results@.filter(matches_test(selected_test_name@)),
                );
                &&& r.rows@.len() == sorted.len()
                &&& forall|i: int|
                    0 <= i < sorted.len() ==> row_matches(#[trigger] r.rows@[i], sorted[i])
            }),
    {
        let filtered = filter_by_test(results, selected_test_name);
        let sorted = sorted_by_rps(filtered);
        let mut rows: Vec<TableRow> = Vec::new();
        let n = sorted.len();
        let mut i: usize = 0;
        while i < n
            invariant
                i <= n == sorted@.len(),
                rows@.len() == i,
                forall|j: int| 0 <= j < i ==> row_matches(#[trigger] rows@[j], sorted@[j]),
            decreases n - i,
        {
            let t = &sorted[i];
            let database = match &t.database {
                Some(d) => d.clone(),
                None => String::from_str("no db"),
            };
            let orm = match &t.orm {
                Some(o) => o.clone(),
                None => String::from_str("no orm"),
            };
            rows.push(
                TableRow {
                    webserver_name: t.webserver_name.clone(),
                    language: t.language.clone(),
                    database,
                    orm,
                    requests_per_second: t.requests_per_second,
                    latency_p50: t.latency_p50.clone(),
                    latency_p75: t.latency_p75.clone(),
                    latency_p90: t.latency_p90.clone(),
                    latency_p99: t.latency_p99.clone(),
                },
            );
            i = i + 1;
        }
        TestingResultList { rows }
    }
}

/// The test selected right after a report arrives: the first result's name,
/// or nothing for an empty report.
pub fn initial_selection(report: &Report) -> (r: Option<String>)
    ensures
        report.results@.len() > 0 ==> r == Some(report.results@[0].test_name),
        report.results@.len() == 0 ==> r is None,
{
    if report.results.len() > 0 {
        Some(report.results[0].test_name.clone())
    } else {
        None
    }
}

} // verus!
