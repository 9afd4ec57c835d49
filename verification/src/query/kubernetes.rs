//! The Kubernetes topology: workloads, gathered under their namespaces.

use vstd::prelude::*;

use crate::query::services::{error_rate, error_share, ns_to_ms, Ratio};
use crate::text::str_eq;

verus! {

/// The parameters of a topology query.
pub struct K8sParams {
    /// The start: an hour ago where none is given.
    pub start: Option<String>,
    /// The end: the present where none is given.
    pub end: Option<String>,
}

/// A workload as the store counts it.
pub struct WorkloadRow {
    pub namespace: Option<String>,
    pub workload: Option<String>,
    pub kind: String,
    pub pod_count: i64,
    pub pods: Option<Vec<Option<String>>>,
    pub span_count: i64,
    pub error_count: i64,
    pub p50_ns: i64,
    pub p90_ns: i64,
    pub p99_ns: i64,
}

/// A workload: a deployment, a stateful set, a daemon set, or a service.
pub struct K8sWorkload {
    pub workload: String,
    pub kind: String,
    pub pods: Vec<String>,
    pub pod_count: i64,
    pub span_count: i64,
    pub error_count: i64,
    /// The share of errors.
    pub error_rate: Ratio,
    /// Spans per second.
    pub rate_per_sec: Ratio,
    pub p50_ms: Ratio,
    pub p90_ms: Ratio,
    pub p99_ms: Ratio,
}

/// A namespace with its workloads, and the sums of their counts.
pub struct K8sNamespace {
    pub name: String,
    pub pod_count: i64,
    pub span_count: i64,
    pub error_count: i64,
    pub workloads: Vec<K8sWorkload>,
}

/// What a workload stands for.
#[verifier::ext_equal]
pub struct WorkloadView {
    pub workload: Seq<char>,
    pub kind: Seq<char>,
    pub pods: Seq<Seq<char>>,
    pub pod_count: i64,
    pub span_count: i64,
    pub error_count: i64,
    pub error_rate: Ratio,
    pub rate_per_sec: Ratio,
    pub p50_ms: Ratio,
    pub p90_ms: Ratio,
    pub p99_ms: Ratio,
}

/// What a namespace stands for.
#[verifier::ext_equal]
pub struct NamespaceView {
    pub name: Seq<char>,
    pub pod_count: int,
    pub span_count: int,
    pub error_count: int,
    pub workloads: Seq<WorkloadView>,
}

impl K8sWorkload {
    pub open spec fn view(&self) -> WorkloadView {
        WorkloadView {
            workload: self.workload@,
            kind: self.kind@,
            pods: Seq::new(self.pods@.len(), |i: int| self.pods@[i]@),
            pod_count: self.pod_count,
            span_count: self.span_count,
            error_count: self.error_count,
            error_rate: self.error_rate,
            rate_per_sec: self.rate_per_sec,
            p50_ms: self.p50_ms,
            p90_ms: self.p90_ms,
            p99_ms: self.p99_ms,
        }
    }
}

impl K8sNamespace {
    pub open spec fn view(&self) -> NamespaceView {
        NamespaceView {
            name: self.name@,
            pod_count: self.pod_count as int,
            span_count: self.span_count as int,
            error_count: self.error_count as int,
            workloads: Seq::new(self.workloads@.len(), |i: int| self.workloads@[i]@),
        }
    }
}

pub open spec fn namespace_views(ns: Seq<K8sNamespace>) -> Seq<NamespaceView> {
    Seq::new(ns.len(), |i: int| ns[i]@)
}

/// The pods that are named.
pub open spec fn named_pods(pods: Seq<Option<String>>) -> Seq<Seq<char>>
    decreases pods.len(),
{
    if pods.len() == 0 {
        Seq::empty()
    } else {
        match pods.last() {
            Some(p) => named_pods(pods.drop_last()).push(p@),
            None => named_pods(pods.drop_last()),
        }
    }
}

pub open spec fn pods_of(row: WorkloadRow) -> Seq<Seq<char>> {
    match row.pods {
        Some(pods) => named_pods(pods@),
        None => Seq::empty(),
    }
}

/// The workload of a row that has one.
pub open spec fn workload_of(row: WorkloadRow, window_secs: i64) -> WorkloadView
    recommends
        row.workload is Some,
{
    WorkloadView {
        workload: row.workload->0@,
        kind: row.kind@,
        pods: pods_of(row),
        pod_count: row.pod_count,
        span_count: row.span_count,
        error_count: row.error_count,
        error_rate: error_share(row.error_count, row.span_count),
        rate_per_sec: Ratio { num: row.span_count, den: window_secs },
        p50_ms: Ratio { num: row.p50_ns, den: 1_000_000 },
        p90_ms: Ratio { num: row.p90_ns, den: 1_000_000 },
        p99_ms: Ratio { num: row.p99_ns, den: 1_000_000 },
    }
}

/// Where a namespace of a name stands, or -1.
pub open spec fn namespace_index(ns: Seq<NamespaceView>, name: Seq<char>) -> int
    decreases ns.len(),
{
    if ns.len() == 0 {
        -1
    } else if ns.last().name == name {
        ns.len() - 1
    } else {
        namespace_index(ns.drop_last(), name)
    }
}

/// A namespace with one more workload.
pub open spec fn with_workload(n: NamespaceView, w: WorkloadView) -> NamespaceView {
    NamespaceView {
        name: n.name,
        pod_count: n.pod_count + w.pod_count,
        span_count: n.span_count + w.span_count,
        error_count: n.error_count + w.error_count,
        workloads: n.workloads.push(w),
    }
}

pub open spec fn empty_namespace(name: Seq<char>) -> NamespaceView {
    NamespaceView { name, pod_count: 0, span_count: 0, error_count: 0, workloads: Seq::empty() }
}

/// The namespaces with the workload of one more row. A row without a namespace
/// or a workload adds nothing.
pub open spec fn with_row(ns: Seq<NamespaceView>, row: WorkloadRow, window_secs: i64) -> Seq<NamespaceView> {
    if row.namespace is None || row.workload is None {
        ns
    } else {
        let name = row.namespace->0@;
        let w = workload_of(row, window_secs);
        let i = namespace_index(ns, name);
        if i < 0 {
            ns.push(with_workload(empty_namespace(name), w))
        } else {
            ns.update(i, with_workload(ns[i], w))
        }
    }
}

/// The namespaces of the rows, in the order in which they first occur, each
/// with its workloads in the order of their rows.
pub open spec fn gathered(rows: Seq<WorkloadRow>, window_secs: i64) -> Seq<NamespaceView>
    decreases rows.len(),
{
    if rows.len() == 0 {
        Seq::empty()
    } else {
        with_row(gathered(rows.drop_last(), window_secs), rows.last(), window_secs)
    }
}

/// The sums of a namespace fit.
pub open spec fn sums_fit(n: NamespaceView) -> bool {
    i64::MIN <= n.pod_count <= i64::MAX && i64::MIN <= n.span_count <= i64::MAX && i64::MIN <= n.error_count
        <= i64::MAX
}

/// The sums fit after every row.
pub open spec fn all_sums_fit(rows: Seq<WorkloadRow>, window_secs: i64) -> bool {
    forall|k: int, j: int|
        0 <= k <= rows.len() && 0 <= j < gathered(rows.take(k), window_secs).len() ==> sums_fit(
            #[trigger] gathered(rows.take(k), window_secs)[j],
        )
}

fn collect_pods(pods: &Option<Vec<Option<String>>>) -> (r: Vec<String>)
    ensures
        Seq::new(r@.len(), |i: int| r@[i]@) == (match *pods {
            Some(p) => named_pods(p@),
            None => Seq::empty(),
        }),
{
    let mut r: Vec<String> = Vec::new();
    match pods {
        None => {
            assert(Seq::new(r@.len(), |i: int| r@[i]@) =~= Seq::empty());
        },
        Some(ps) => {
            let mut i: usize = 0;
            assert(ps@.take(0) =~= Seq::empty());
            assert(Seq::new(r@.len(), |i: int| r@[i]@) =~= named_pods(ps@.take(0)));
            while i < ps.len()
                invariant
                    i <= ps.len(),
                    Seq::new(r@.len(), |i: int| r@[i]@) == named_pods(ps@.take(i as int)),
                decreases ps.len() - i,
            {
                assert(ps@.take(i + 1).drop_last() =~= ps@.take(i as int));
                let ghost before = Seq::new(r@.len(), |i: int| r@[i]@);
                if let Some(p) = &ps[i] {
                    r.push(p.clone());
                    assert(Seq::new(r@.len(), |i: int| r@[i]@) =~= before.push(p@));
                }
                i += 1;
            }
            assert(ps@.take(ps.len() as int) =~= ps@);
        },
    }
    r
}

fn build_workload(row: &WorkloadRow, name: &String, window_secs: i64) -> (r: K8sWorkload)
    requires
        row.workload == Some(*name),
    ensures
        r@ == workload_of(*row, window_secs),
{
    let r = K8sWorkload {
        workload: name.clone(),
        kind: row.kind.clone(),
        pods: collect_pods(&row.pods),
        pod_count: row.pod_count,
        span_count: row.span_count,
        error_count: row.error_count,
        error_rate: error_rate(row.error_count, row.span_count),
        rate_per_sec: Ratio { num: row.span_count, den: window_secs },
        p50_ms: ns_to_ms(row.p50_ns),
        p90_ms: ns_to_ms(row.p90_ns),
        p99_ms: ns_to_ms(row.p99_ns),
    };
    assert(r@ =~= workload_of(*row, window_secs));
    r
}

fn find_namespace(ns: &Vec<K8sNamespace>, name: &str) -> (r: Option<usize>)
    ensures
        match r {
            Some(i) => i < ns@.len() && namespace_index(namespace_views(ns@), name@) == i,
            None => namespace_index(namespace_views(ns@), name@) < 0,
        },
{
    let ghost all = namespace_views(ns@);
    let mut n: usize = ns.len();
    assert(all.take(n as int) =~= all);
    while n > 0
        invariant
            n <= ns@.len(),
            all == namespace_views(ns@),
            namespace_index(all, name@) == namespace_index(all.take(n as int), name@),
        decreases n,
    {
        n -= 1;
        assert(all.take(n + 1).drop_last() =~= all.take(n as int));
        assert(all.take(n + 1).last() == ns@[n as int]@);
        if str_eq(ns[n].name.as_str(), name) {
            return Some(n);
        }
    }
    None
}

/// Adds a workload to a namespace, unless a sum would not fit.
fn add_workload(n: &mut K8sNamespace, w: K8sWorkload) -> (ok: bool)
    ensures
        ok == sums_fit(with_workload(old(n)@, w@)),
        ok ==> final(n)@ == with_workload(old(n)@, w@),
{
    let ghost before = n@;
    let ghost wv = w@;
    match (
        n.pod_count.checked_add(w.pod_count),
        n.span_count.checked_add(w.span_count),
        n.error_count.checked_add(w.error_count),
    ) {
        (Some(p), Some(s), Some(e)) => {
            n.pod_count = p;
            n.span_count = s;
            n.error_count = e;
            n.workloads.push(w);
            assert(n@ =~= with_workload(before, wv));
            true
        },
        _ => false,
    }
}

/// The namespaces of the rows with their workloads, or none where a sum of
/// counts does not fit.
pub fn gather(rows: &Vec<WorkloadRow>, window_secs: i64) -> (r: Option<Vec<K8sNamespace>>)
    requires
        window_secs >= 1,
    ensures
        match r {
            Some(ns) => all_sums_fit(rows@, window_secs) && namespace_views(ns@) == gathered(rows@, window_secs),
            None => !all_sums_fit(rows@, window_secs),
        },
{
    let mut ns: Vec<K8sNamespace> = Vec::new();
    let mut i: usize = 0;
    assert(rows@.take(0) =~= Seq::empty());
    assert(namespace_views(ns@) =~= gathered(rows@.take(0), window_secs));
    while i < rows.len()
        invariant
            i <= rows.len(),
            namespace_views(ns@) == gathered(rows@.take(i as int), window_secs),
            forall|k: int, j: int|
                0 <= k <= i && 0 <= j < gathered(rows@.take(k), window_secs).len() ==> sums_fit(
                    #[trigger] gathered(rows@.take(k), window_secs)[j],
                ),
        decreases rows.len() - i,
    {
        let row = &rows[i];
        let ghost before = namespace_views(ns@);
        let ghost after = gathered(rows@.take(i + 1), window_secs);
        proof {
            assert(rows@.take(i + 1).drop_last() =~= rows@.take(i as int));
            assert(after == with_row(before, *row, window_secs));
        }
        if let Some(name) = &row.namespace {
            if let Some(workload) = &row.workload {
                let w = build_workload(row, workload, window_secs);
                let ghost wv = w@;
                match find_namespace(&ns, name.as_str()) {
                    Some(at) => {
                        let ok: bool = add_workload(&mut ns[at], w);
                        if !ok {
                            proof {
                                assert(after[at as int] == with_workload(before[at as int], wv));
                                assert(!sums_fit(gathered(rows@.take(i + 1), window_secs)[at as int]));
                            }
                            return None;
                        }
                        assert(namespace_views(ns@) =~= before.update(
                            at as int,
                            with_workload(before[at as int], wv),
                        ));
                    },
                    None => {
                        let mut fresh = K8sNamespace {
                            name: name.clone(),
                            pod_count: 0,
                            span_count: 0,
                            error_count: 0,
                            workloads: Vec::new(),
                        };
                        assert(fresh@ =~= empty_namespace(name@));
                        let ok: bool = add_workload(&mut fresh, w);
                        assert(ok);
                        let ghost v = fresh@;
                        ns.push(fresh);
                        assert(namespace_views(ns@) =~= before.push(v));
                    },
                }
            }
        }
        i += 1;
        proof {
            assert forall|k: int, j: int|
                0 <= k <= i && 0 <= j < gathered(rows@.take(k), window_secs).len() implies sums_fit(
                #[trigger] gathered(rows@.take(k), window_secs)[j],
            ) by {
                if k == i {
                    assert(gathered(rows@.take(k), window_secs) == after);
                    assert(after[j] == ns@[j]@);
                }
            }
        }
    }
    assert(rows@.take(rows.len() as int) =~= rows@);
    Some(ns)
}

// ---------------------------------------------------------------------------
// Laws
// ---------------------------------------------------------------------------

proof fn lemma_namespace_index(ns: Seq<NamespaceView>, name: Seq<char>)
    ensures
        -1 <= namespace_index(ns, name) < ns.len(),
        namespace_index(ns, name) >= 0 ==> ns[namespace_index(ns, name)].name == name,
        forall|j: int| namespace_index(ns, name) < j < ns.len() ==> (#[trigger] ns[j]).name != name,
    decreases ns.len(),
{
    if ns.len() > 0 && ns.last().name != name {
        lemma_namespace_index(ns.drop_last(), name);
        assert forall|j: int| namespace_index(ns, name) < j < ns.len() implies (#[trigger] ns[j]).name != name by {
            if j < ns.len() - 1 {
                assert(ns.drop_last()[j] == ns[j]);
            }
        }
    }
}

/// Each namespace occurs once.
pub proof fn law_namespaces_once(rows: Seq<WorkloadRow>, window_secs: i64)
    ensures
        forall|i: int, j: int|
            0 <= i < gathered(rows, window_secs).len() && 0 <= j < gathered(rows, window_secs).len() && i != j ==> (
            #[trigger] gathered(rows, window_secs)[i]).name != (#[trigger] gathered(rows, window_secs)[j]).name,
    decreases rows.len(),
{
    if rows.len() > 0 {
        law_namespaces_once(rows.drop_last(), window_secs);
        let before = gathered(rows.drop_last(), window_secs);
        if rows.last().namespace is Some {
            lemma_namespace_index(before, rows.last().namespace->0@);
        }
    }
}

/// The sum of a count over workloads.
pub open spec fn sum_pods(ws: Seq<WorkloadView>) -> int
    decreases ws.len(),
{
    if ws.len() == 0 {
        0
    } else {
        sum_pods(ws.drop_last()) + ws.last().pod_count
    }
}

pub open spec fn sum_spans(ws: Seq<WorkloadView>) -> int
    decreases ws.len(),
{
    if ws.len() == 0 {
        0
    } else {
        sum_spans(ws.drop_last()) + ws.last().span_count
    }
}

pub open spec fn sum_errors(ws: Seq<WorkloadView>) -> int
    decreases ws.len(),
{
    if ws.len() == 0 {
        0
    } else {
        sum_errors(ws.drop_last()) + ws.last().error_count
    }
}

/// The counts of a namespace are the sums over its workloads, and it has at
/// least one.
pub open spec fn adds_up(n: NamespaceView) -> bool {
    n.workloads.len() > 0 && n.pod_count == sum_pods(n.workloads) && n.span_count == sum_spans(n.workloads)
        && n.error_count == sum_errors(n.workloads)
}

/// The counts of every namespace are the sums over its workloads.
pub proof fn law_counts_add_up(rows: Seq<WorkloadRow>, window_secs: i64)
    ensures
        forall|i: int|
            0 <= i < gathered(rows, window_secs).len() ==> adds_up(#[trigger] gathered(rows, window_secs)[i]),
    decreases rows.len(),
{
    if rows.len() > 0 {
        law_counts_add_up(rows.drop_last(), window_secs);
        let before = gathered(rows.drop_last(), window_secs);
        let row = rows.last();
        if row.namespace is Some && row.workload is Some {
            let name = row.namespace->0@;
            let w = workload_of(row, window_secs);
            lemma_namespace_index(before, name);
            let i = namespace_index(before, name);
            let grown = if i < 0 {
                with_workload(empty_namespace(name), w)
            } else {
                with_workload(before[i], w)
            };
            let fewer: Seq<WorkloadView> = if i < 0 {
                Seq::empty()
            } else {
                before[i].workloads
            };
            assert(grown.workloads.drop_last() =~= fewer);
            assert(grown.workloads.last() == w);
            if i >= 0 {
                assert(adds_up(before[i]));
            } else {
                assert(sum_pods(fewer) == 0 && sum_spans(fewer) == 0 && sum_errors(fewer) == 0);
            }
            assert(adds_up(grown));
            let after = gathered(rows, window_secs);
            assert forall|k: int| 0 <= k < after.len() implies adds_up(#[trigger] after[k]) by {
                if k < before.len() && k != i {
                    assert(after[k] == before[k]);
                } else {
                    assert(after[k] == grown);
                }
            }
        }
    }
}

/// How many workloads the namespaces hold in all.
pub open spec fn workload_count(ns: Seq<NamespaceView>) -> int
    decreases ns.len(),
{
    if ns.len() == 0 {
        0
    } else {
        workload_count(ns.drop_last()) + ns.last().workloads.len()
    }
}

/// How many rows have a namespace and a workload.
pub open spec fn complete_rows(rows: Seq<WorkloadRow>) -> int
    decreases rows.len(),
{
    if rows.len() == 0 {
        0
    } else {
        complete_rows(rows.drop_last()) + if rows.last().namespace is Some && rows.last().workload is Some {
            1int
        } else {
            0int
        }
    }
}

proof fn lemma_count_update(ns: Seq<NamespaceView>, i: int, n: NamespaceView)
    requires
        0 <= i < ns.len(),
        n.workloads.len() == ns[i].workloads.len() + 1,
    ensures
        workload_count(ns.update(i, n)) == workload_count(ns) + 1,
    decreases ns.len(),
{
    let r = ns.update(i, n);
    if i == ns.len() - 1 {
        assert(r.drop_last() =~= ns.drop_last());
    } else {
        assert(r.drop_last() =~= ns.drop_last().update(i, n));
        lemma_count_update(ns.drop_last(), i, n);
    }
}

/// Every complete row becomes one workload, and nothing else does.
pub proof fn law_no_workload_lost(rows: Seq<WorkloadRow>, window_secs: i64)
    ensures
        workload_count(gathered(rows, window_secs)) == complete_rows(rows),
    decreases rows.len(),
{
    if rows.len() > 0 {
        law_no_workload_lost(rows.drop_last(), window_secs);
        let before = gathered(rows.drop_last(), window_secs);
        let row = rows.last();
        if row.namespace is Some && row.workload is Some {
            let name = row.namespace->0@;
            let w = workload_of(row, window_secs);
            lemma_namespace_index(before, name);
            let i = namespace_index(before, name);
            if i >= 0 {
                lemma_count_update(before, i, with_workload(before[i], w));
            } else {
                let fresh = with_workload(empty_namespace(name), w);
                assert(before.push(fresh).drop_last() =~= before);
            }
        }
    }
}

/// The pods of a workload are those of its row that have a name, in order.
pub proof fn law_pods_are_the_named_ones(pods: Seq<Option<String>>)
    ensures
        ({
            let kept = pods.filter(|p: Option<String>| p is Some);
            named_pods(pods).len() == kept.len() && forall|i: int|
                0 <= i < kept.len() ==> #[trigger] named_pods(pods)[i] == kept[i]->0@
        }),
    decreases pods.len(),
{
    reveal(Seq::filter);
    if pods.len() > 0 {
        law_pods_are_the_named_ones(pods.drop_last());
    }
}

/// A workload is that of a row: its name, its kind and its pods, its counts, the
/// share of its errors, its spans per second, and its durations in milliseconds.
pub open spec fn is_workload(w: WorkloadView, row: WorkloadRow, window_secs: i64) -> bool {
    &&& row.workload matches Some(name) && w.workload == name@
    &&& w.kind == row.kind@
    &&& row.pods matches Some(pods) ==> w.pods == named_pods(pods@)
    &&& row.pods is None ==> w.pods.len() == 0
    &&& w.pod_count == row.pod_count
    &&& w.span_count == row.span_count
    &&& w.error_count == row.error_count
    &&& row.span_count > 0 ==> w.error_rate.num == row.error_count && w.error_rate.den == row.span_count
    &&& row.span_count <= 0 ==> w.error_rate.num == 0 && w.error_rate.den != 0
    &&& w.rate_per_sec.num == row.span_count && w.rate_per_sec.den == window_secs
    &&& w.p50_ms.num == row.p50_ns && w.p50_ms.den == 1_000_000
    &&& w.p90_ms.num == row.p90_ns && w.p90_ms.den == 1_000_000
    &&& w.p99_ms.num == row.p99_ns && w.p99_ms.den == 1_000_000
}

/// A row belongs to a namespace.
pub open spec fn belongs(row: WorkloadRow, name: Seq<char>) -> bool {
    row.workload is Some && (row.namespace matches Some(n) && n@ == name)
}

/// The rows that belong to a namespace.
pub open spec fn rows_of(rows: Seq<WorkloadRow>, name: Seq<char>) -> Seq<WorkloadRow> {
    rows.filter(|r: WorkloadRow| belongs(r, name))
}

/// The workloads of a namespace are those of the rows that belong to it.
pub open spec fn holds_rows(n: NamespaceView, rows: Seq<WorkloadRow>, window_secs: i64) -> bool {
    let mine = rows_of(rows, n.name);
    n.workloads.len() == mine.len() && forall|k: int|
        0 <= k < mine.len() ==> is_workload(#[trigger] n.workloads[k], mine[k], window_secs)
}

/// Every namespace holds the workloads of the rows that belong to it, all of them
/// and in order, and a namespace that a row belongs to is there.
pub proof fn law_workloads_stand_in_their_namespaces(rows: Seq<WorkloadRow>, window_secs: i64, name: Seq<char>)
    ensures
        forall|i: int|
            0 <= i < gathered(rows, window_secs).len() ==> holds_rows(
                #[trigger] gathered(rows, window_secs)[i],
                rows,
                window_secs,
            ),
        rows_of(rows, name).len() > 0 ==> exists|i: int|
            0 <= i < gathered(rows, window_secs).len() && (#[trigger] gathered(rows, window_secs)[i]).name == name,
    decreases rows.len(),
{
    reveal(Seq::filter);
    if rows.len() > 0 {
        let front = rows.drop_last();
        let row = rows.last();
        let before = gathered(front, window_secs);
        let after = gathered(rows, window_secs);
        law_workloads_stand_in_their_namespaces(front, window_secs, name);
        law_namespaces_once(front, window_secs);
        if row.namespace is Some && row.workload is Some {
            let own = row.namespace->0@;
            let w = workload_of(row, window_secs);
            law_workloads_stand_in_their_namespaces(front, window_secs, own);
            lemma_namespace_index(before, own);
            let at = namespace_index(before, own);
            assert(is_workload(w, row, window_secs));
            assert(rows_of(rows, own) == rows_of(front, own).push(row));
            assert forall|i: int| 0 <= i < after.len() implies holds_rows(#[trigger] after[i], rows, window_secs) by {
                if i < before.len() && i != at {
                    assert(after[i] == before[i]);
                    assert(holds_rows(before[i], front, window_secs));
                    assert(before[i].name != own) by {
                        if before[i].name == own && at >= 0 {
                            assert(before[at].name == own);
                        }
                    }
                    assert(rows_of(rows, before[i].name) == rows_of(front, before[i].name));
                } else if at >= 0 {
                    assert(holds_rows(before[at], front, window_secs));
                    assert(after[i] == with_workload(before[at], w));
                } else {
                    assert(after[i] == with_workload(empty_namespace(own), w));
                    assert(rows_of(front, own).len() == 0) by {
                        if rows_of(front, own).len() > 0 {
                            let j = choose|j: int| 0 <= j < before.len() && (#[trigger] before[j]).name == own;
                        }
                    }
                }
            }
            if own == name {
                if at >= 0 {
                    assert(after[at].name == name);
                } else {
                    assert(after[before.len() as int].name == name);
                }
            } else if rows_of(rows, name).len() > 0 {
                assert(rows_of(rows, name) == rows_of(front, name));
                let j = choose|j: int| 0 <= j < before.len() && (#[trigger] before[j]).name == name;
                assert(after[j].name == name);
            }
        } else {
            assert forall|i: int| 0 <= i < after.len() implies holds_rows(#[trigger] after[i], rows, window_secs) by {
                assert(holds_rows(before[i], front, window_secs));
                assert(rows_of(rows, before[i].name) == rows_of(front, before[i].name));
            }
            assert(rows_of(rows, name) == rows_of(front, name));
        }
    }
}

/// A further row leaves the namespaces in the order in which they stand: one that
/// is new stands behind the others.
pub proof fn law_namespaces_stand_as_they_first_occur(rows: Seq<WorkloadRow>, window_secs: i64)
    requires
        rows.len() > 0,
    ensures
        ({
            let before = gathered(rows.drop_last(), window_secs);
            let after = gathered(rows, window_secs);
            before.len() <= after.len() <= before.len() + 1 && forall|i: int|
                0 <= i < before.len() ==> (#[trigger] after[i]).name == before[i].name
        }),
{
    let before = gathered(rows.drop_last(), window_secs);
    if rows.last().namespace is Some {
        lemma_namespace_index(before, rows.last().namespace->0@);
    }
}

/// Workloads and namespaces stand for their fields.
pub proof fn law_namespace_stands_for_its_fields(w: K8sWorkload, n: K8sNamespace)
    ensures
        w@.workload == w.workload@ && w@.kind == w.kind@,
        w@.pods.len() == w.pods@.len(),
        forall|i: int| 0 <= i < w.pods@.len() ==> (#[trigger] w.pods@[i])@ == w@.pods[i],
        w@.pod_count == w.pod_count && w@.span_count == w.span_count && w@.error_count == w.error_count,
        w@.error_rate == w.error_rate && w@.rate_per_sec == w.rate_per_sec,
        w@.p50_ms == w.p50_ms && w@.p90_ms == w.p90_ms && w@.p99_ms == w.p99_ms,
        n@.name == n.name@,
        n@.pod_count == n.pod_count && n@.span_count == n.span_count && n@.error_count == n.error_count,
        n@.workloads.len() == n.workloads@.len(),
        forall|i: int| 0 <= i < n.workloads@.len() ==> (#[trigger] n.workloads@[i])@ == n@.workloads[i],
{
}

/// The sums of a namespace that exists always fit.
pub proof fn law_sums_of_a_namespace_fit(n: K8sNamespace)
    ensures
        sums_fit(n@),
{
}

} // verus!
