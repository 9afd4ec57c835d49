//! The services page and the cluster page: health, the graph of calls, and
//! labels.

use vstd::prelude::*;
use vstd::utf8::{encode_utf8, is_char_boundary};

use crate::float::{
    double_le, double_lt, int_double, law_doubles_keep_the_order, le, lemma_round_numbers, lt, FRACTION_END,
};
use crate::text::{byte_len, byte_slice, decimal, decimal_int, int_text, join_spec, push_decimal, push_int, str_eq, texts};
use crate::ui::badge::Badge;

verus! {

// ---------------------------------------------------------------------------
// Health
// ---------------------------------------------------------------------------

/// The bits of the double 0.1, from which on a rate of errors is too high.
pub const UNHEALTHY_RATE: u64 = 0x3fb9_9999_9999_999a;

/// The bits of the double 1000, the latency in milliseconds that is still good.
pub const SLOW_MS: u64 = 0x408f_4000_0000_0000;

/// How a service or a workload fares.
#[derive(Clone, Copy, Debug, PartialEq, Eq, Structural)]
pub enum Health {
    Unhealthy,
    Degraded,
    Healthy,
}

/// How something fares, by the bits of its rate of errors and of its latency.
pub open spec fn health_of(error_rate: u64, p99_ms: u64) -> Health {
    if double_le(UNHEALTHY_RATE, error_rate) {
        Health::Unhealthy
    } else if double_lt(0, error_rate) || double_lt(SLOW_MS, p99_ms) {
        Health::Degraded
    } else {
        Health::Healthy
    }
}

/// How something fares.
pub fn health(error_rate: u64, p99_ms: u64) -> (h: Health)
    ensures
        h == health_of(error_rate, p99_ms),
{
    if le(UNHEALTHY_RATE, error_rate) {
        Health::Unhealthy
    } else if lt(0, error_rate) || lt(SLOW_MS, p99_ms) {
        Health::Degraded
    } else {
        Health::Healthy
    }
}

/// The badge that shows how something fares, and its label.
pub fn health_badge(error_rate: u64, p99_ms: u64) -> (r: (Badge, &'static str))
    ensures
        match health_of(error_rate, p99_ms) {
            Health::Unhealthy => r.0 == Badge::Destructive && r.1@ == "unhealthy"@,
            Health::Degraded => r.0 == Badge::Outline && r.1@ == "degraded"@,
            Health::Healthy => r.0 == Badge::Success && r.1@ == "healthy"@,
        },
{
    match health(error_rate, p99_ms) {
        Health::Unhealthy => (Badge::Destructive, "unhealthy"),
        Health::Degraded => (Badge::Outline, "degraded"),
        Health::Healthy => (Badge::Success, "healthy"),
    }
}

/// The colour of a service in the graph.
pub fn node_fill(error_rate: u64, p99_ms: u64) -> (s: &'static str)
    ensures
        s@ == match health_of(error_rate, p99_ms) {
            Health::Unhealthy => "#ef4444"@,
            Health::Degraded => "#f59e0b"@,
            Health::Healthy => "#10b981"@,
        },
{
    match health(error_rate, p99_ms) {
        Health::Unhealthy => "#ef4444",
        Health::Degraded => "#f59e0b",
        Health::Healthy => "#10b981",
    }
}

// ---------------------------------------------------------------------------
// The graph
// ---------------------------------------------------------------------------

/// A line of the graph: from one service to another, and the call that it
/// stands for. All three are places in lists.
#[derive(Clone, Copy, Debug, PartialEq, Eq, Structural)]
pub struct Line {
    pub from: usize,
    pub to: usize,
    pub call: usize,
}

/// A call from one service to another, by name.
pub struct Call {
    pub from: String,
    pub to: String,
}

/// The last place where a name stands, or -1.
pub open spec fn place_of(names: Seq<String>, name: Seq<char>) -> int
    decreases names.len(),
{
    if names.len() == 0 {
        -1
    } else if names.last()@ == name {
        names.len() - 1
    } else {
        place_of(names.drop_last(), name)
    }
}

/// What a line stands for, as integers.
pub type LineView = (int, int, int);

/// The lines of the graph: one for each call between services that are shown.
pub open spec fn lines_of(names: Seq<String>, calls: Seq<Call>) -> Seq<LineView>
    decreases calls.len(),
{
    if calls.len() == 0 {
        Seq::empty()
    } else {
        let before = lines_of(names, calls.drop_last());
        let from = place_of(names, calls.last().from@);
        let to = place_of(names, calls.last().to@);
        if from >= 0 && to >= 0 {
            before.push((from, to, calls.len() - 1))
        } else {
            before
        }
    }
}

pub open spec fn line_views(lines: Seq<Line>) -> Seq<LineView> {
    Seq::new(lines.len(), |i: int| (lines[i].from as int, lines[i].to as int, lines[i].call as int))
}

fn find_place(names: &Vec<String>, name: &str) -> (r: Option<usize>)
    ensures
        match r {
            Some(i) => i == place_of(names@, name@) && i < names.len(),
            None => place_of(names@, name@) < 0,
        },
{
    let mut i: usize = names.len();
    assert(names@.take(names.len() as int) =~= names@);
    while i > 0
        invariant
            i <= names.len(),
            place_of(names@, name@) == place_of(names@.take(i as int), name@),
        decreases i,
    {
        i -= 1;
        assert(names@.take(i + 1).drop_last() =~= names@.take(i as int));
        assert(names@.take(i + 1).last() == names@[i as int]);
        if str_eq(names[i].as_str(), name) {
            return Some(i);
        }
    }
    None
}

/// The lines of the graph.
pub fn graph_lines(names: &Vec<String>, calls: &Vec<Call>) -> (r: Vec<Line>)
    ensures
        line_views(r@) == lines_of(names@, calls@),
{
    let mut r: Vec<Line> = Vec::new();
    let mut i: usize = 0;
    assert(line_views(r@) =~= lines_of(names@, calls@.take(0)));
    while i < calls.len()
        invariant
            i <= calls.len(),
            line_views(r@) == lines_of(names@, calls@.take(i as int)),
        decreases calls.len() - i,
    {
        let ghost before = line_views(r@);
        assert(calls@.take(i + 1).drop_last() =~= calls@.take(i as int));
        assert(calls@.take(i + 1).last() == calls@[i as int]);
        let from = find_place(names, calls[i].from.as_str());
        let to = find_place(names, calls[i].to.as_str());
        if let (Some(f), Some(t)) = (from, to) {
            r.push(Line { from: f, to: t, call: i });
            assert(line_views(r@) =~= before.push((f as int, t as int, i as int)));
        }
        i += 1;
    }
    assert(calls@.take(calls.len() as int) =~= calls@);
    r
}

/// The colour of a line: red where calls failed.
pub fn edge_stroke(error_count: i64) -> (s: &'static str)
    ensures
        s@ == if error_count > 0 {
            "#ef4444"@
        } else {
            "#94a3b8"@
        },
{
    if error_count > 0 {
        "#ef4444"
    } else {
        "#94a3b8"
    }
}

/// The label of a line.
pub fn edge_label(call_count: i64) -> (s: String)
    ensures
        s@ == decimal_int(call_count as int) + " calls"@,
{
    let mut s = int_text(call_count);
    s.push_str(" calls");
    s
}

/// The name of a service as it is shown in the graph: one of more than fourteen
/// bytes is cut behind the thirteenth.
pub fn node_name(name: &str) -> (s: String)
    requires
        encode_utf8(name@).len() > 14 ==> is_char_boundary(encode_utf8(name@), 13),
    ensures
        encode_utf8(name@).len() <= 14 ==> s@ == name@,
        encode_utf8(name@).len() > 14 ==> exists|head: Seq<char>|
            #[trigger] encode_utf8(head) == encode_utf8(name@).subrange(0, 13) && s@ == head + "…"@,
{
    if byte_len(name) > 14 {
        proof {
            vstd::utf8::encode_utf8_valid_utf8(name@);
            vstd::utf8::is_char_boundary_start_end_of_seq(encode_utf8(name@));
        }
        let head = byte_slice(name, 0, 13);
        let mut s = head.clone();
        s.push_str("…");
        assert(encode_utf8(head@) == encode_utf8(name@).subrange(0, 13) && s@ == head@ + "…"@);
        s
    } else {
        name.to_owned()
    }
}

/// The address of the traces of a service.
pub fn traces_href(service: &str) -> (s: String)
    ensures
        s@ == "/traces?service="@ + service@,
{
    let mut s = "/traces?service=".to_owned();
    s.push_str(service);
    s
}

// ---------------------------------------------------------------------------
// The cluster
// ---------------------------------------------------------------------------

/// The pods of a workload as they are shown: their number, or up to three of
/// their names and how many more there are.
pub open spec fn pods_text(pod_count: int, pods: Seq<Seq<char>>) -> Seq<char> {
    if pods.len() == 0 {
        decimal_int(pod_count)
    } else if pods.len() <= 3 {
        join_spec(pods, ", "@)
    } else {
        join_spec(pods.take(3), ", "@) + " +"@ + decimal((pods.len() - 3) as nat) + " more"@
    }
}

/// The pods of a workload as they are shown.
pub fn pods_display(pod_count: i64, pods: &Vec<String>) -> (s: String)
    ensures
        s@ == pods_text(pod_count as int, texts(pods@)),
{
    if pods.len() == 0 {
        return int_text(pod_count);
    }
    let shown: usize = if pods.len() < 3 {
        pods.len()
    } else {
        3
    };
    let mut s = String::new();
    let mut i: usize = 0;
    while i < shown
        invariant
            i <= shown <= pods.len(),
            s@ == join_spec(texts(pods@).take(i as int), ", "@),
        decreases shown - i,
    {
        if i > 0 {
            s.push_str(", ");
        }
        s.push_str(pods[i].as_str());
        proof {
            let all = texts(pods@);
            assert(all.take(i + 1).drop_last() =~= all.take(i as int));
            assert(all.take(i + 1).last() == pods@[i as int]@);
            if i == 0 {
                assert(s@ =~= pods@[0]@);
            } else {
                assert(s@ =~= join_spec(all.take(i as int), ", "@) + ", "@ + pods@[i as int]@);
            }
        }
        i += 1;
    }
    if pods.len() > 3 {
        s.push_str(" +");
        push_decimal(&mut s, (pods.len() - 3) as u64);
        s.push_str(" more");
    } else {
        assert(texts(pods@).take(shown as int) =~= texts(pods@));
    }
    s
}

/// A number of things.
pub open spec fn counted(n: int, thing: Seq<char>) -> Seq<char> {
    decimal_int(n) + " "@ + thing + (if n == 1 {
        ""@
    } else {
        "s"@
    })
}

fn push_counted(s: &mut String, n: i64, thing: &str)
    ensures
        final(s)@ == old(s)@ + counted(n as int, thing@),
{
    let ghost before = s@;
    push_int(s, n);
    s.push_str(" ");
    s.push_str(thing);
    if n == 1 {
        s.push_str("");
    } else {
        s.push_str("s");
    }
    assert(s@ =~= before + counted(n as int, thing@));
}

/// The number of workloads of a namespace, as it is shown.
pub fn workload_count(n: i64) -> (s: String)
    ensures
        s@ == counted(n as int, "workload"@),
{
    let mut s = String::new();
    push_counted(&mut s, n, "workload");
    assert(s@ =~= counted(n as int, "workload"@));
    s
}

/// What a cluster holds, in short.
pub fn cluster_summary(namespaces: i64, workloads: i64, nodes: i64) -> (s: String)
    ensures
        s@ == counted(namespaces as int, "namespace"@) + " · "@ + counted(workloads as int, "workload"@) + " · "@
            + counted(nodes as int, "node"@),
{
    let mut s = String::new();
    push_counted(&mut s, namespaces, "namespace");
    s.push_str(" · ");
    push_counted(&mut s, workloads, "workload");
    s.push_str(" · ");
    push_counted(&mut s, nodes, "node");
    assert(s@ =~= counted(namespaces as int, "namespace"@) + " · "@ + counted(workloads as int, "workload"@) + " · "@
        + counted(nodes as int, "node"@));
    s
}

// ---------------------------------------------------------------------------
// Laws
// ---------------------------------------------------------------------------

/// A line joins the services that its call names.
pub proof fn law_lines_join_their_services(names: Seq<String>, calls: Seq<Call>, i: int)
    requires
        0 <= i < lines_of(names, calls).len(),
    ensures
        ({
            let (from, to, call) = lines_of(names, calls)[i];
            &&& 0 <= call < calls.len()
            &&& 0 <= from < names.len() && names[from]@ == calls[call].from@
            &&& 0 <= to < names.len() && names[to]@ == calls[call].to@
        }),
    decreases calls.len(),
{
    if calls.len() > 0 {
        let before = calls.drop_last();
        if i < lines_of(names, before).len() {
            law_lines_join_their_services(names, before, i);
            let (from, to, call) = lines_of(names, before)[i];
            assert(before[call] == calls[call]);
        } else {
            lemma_place(names, calls.last().from@);
            lemma_place(names, calls.last().to@);
        }
    }
}

/// No call between services that are shown goes without a line.
pub proof fn law_no_line_is_missing(names: Seq<String>, calls: Seq<Call>, call: int)
    requires
        0 <= call < calls.len(),
        exists|a: int| 0 <= a < names.len() && #[trigger] names[a]@ == calls[call].from@,
        exists|b: int| 0 <= b < names.len() && #[trigger] names[b]@ == calls[call].to@,
    ensures
        exists|i: int| 0 <= i < lines_of(names, calls).len() && (#[trigger] lines_of(names, calls)[i]).2 == call,
    decreases calls.len(),
{
    let before = calls.drop_last();
    let all = lines_of(names, calls);
    if call < calls.len() - 1 {
        assert(before[call] == calls[call]);
        law_no_line_is_missing(names, before, call);
        let i = choose|i: int| 0 <= i < lines_of(names, before).len() && (#[trigger] lines_of(names, before)[i]).2 == call;
        assert(all[i].2 == call);
    } else {
        lemma_place(names, calls.last().from@);
        lemma_place(names, calls.last().to@);
        assert(all[all.len() - 1].2 == call);
    }
}

proof fn lemma_place(names: Seq<String>, name: Seq<char>)
    ensures
        -1 <= place_of(names, name) < names.len(),
        place_of(names, name) >= 0 ==> names[place_of(names, name)]@ == name,
        place_of(names, name) < 0 ==> forall|i: int| 0 <= i < names.len() ==> (#[trigger] names[i])@ != name,
    decreases names.len(),
{
    if names.len() > 0 && names.last()@ != name {
        let before = names.drop_last();
        lemma_place(before, name);
        assert forall|i: int| place_of(names, name) < 0 && 0 <= i < names.len() implies (#[trigger] names[i])@
            != name by {
            if i < names.len() - 1 {
                assert(before[i] == names[i]);
            }
        }
    }
}

/// What has no errors and answers in time is healthy, and nothing else is.
pub proof fn law_errors_show(error_rate: u64, p99_ms: u64)
    ensures
        health_of(error_rate, p99_ms) == Health::Healthy <==> !double_lt(0, error_rate) && !double_lt(SLOW_MS, p99_ms),
        health_of(error_rate, p99_ms) == Health::Unhealthy <==> double_le(UNHEALTHY_RATE, error_rate),
{
}

/// The lines stand in the order of their calls, one for each.
pub proof fn law_lines_stand_in_order(names: Seq<String>, calls: Seq<Call>, i: int, j: int)
    requires
        0 <= i < j < lines_of(names, calls).len(),
    ensures
        lines_of(names, calls)[i].2 < lines_of(names, calls)[j].2 < calls.len(),
    decreases calls.len(),
{
    let front = calls.drop_last();
    if j < lines_of(names, front).len() {
        law_lines_stand_in_order(names, front, i, j);
    } else {
        law_lines_join_their_services(names, front, i);
    }
}

/// Up to three pods are shown by their names; of more, the first three, and how
/// many there are besides; and where none is named, their number.
pub proof fn law_pods_are_shown(pod_count: int, pods: Seq<Seq<char>>)
    ensures
        pods.len() == 0 ==> pods_text(pod_count, pods) == decimal_int(pod_count),
        pods.len() == 1 ==> pods_text(pod_count, pods) == pods[0],
        pods.len() == 2 ==> pods_text(pod_count, pods) == pods[0] + ", "@ + pods[1],
        pods.len() == 3 ==> pods_text(pod_count, pods) == pods[0] + ", "@ + pods[1] + ", "@ + pods[2],
        pods.len() > 3 ==> pods_text(pod_count, pods) == pods[0] + ", "@ + pods[1] + ", "@ + pods[2] + " +"@ + decimal(
            (pods.len() - 3) as nat,
        ) + " more"@,
{
    let shown = if pods.len() > 3 {
        pods.take(3)
    } else {
        pods
    };
    reveal_with_fuel(join_spec, 4);
    if shown.len() >= 2 {
        assert(shown.drop_last().len() == shown.len() - 1);
    }
}

/// A number of things is shown as the number and the name of the thing, in the
/// plural unless there is one.
pub proof fn law_things_are_counted(n: int, thing: Seq<char>)
    ensures
        n == 1 ==> counted(n, thing) == decimal_int(n) + " "@ + thing,
        n != 1 ==> counted(n, thing) == decimal_int(n) + " "@ + thing + "s"@,
{
    reveal_strlit("");
    if n == 1 {
        assert(counted(n, thing) =~= decimal_int(n) + " "@ + thing);
    }
}

/// Whole rates and latencies: no errors and an answer within a second are healthy,
/// an answer that takes longer is degraded, and errors throughout are unhealthy.
pub proof fn law_health_of_whole_numbers(ms: int)
    requires
        0 <= ms < FRACTION_END,
    ensures
        health_of(0, int_double(ms) as u64) == Health::Healthy <==> ms <= 1_000,
        health_of(0, int_double(ms) as u64) != Health::Unhealthy,
        health_of(int_double(1) as u64, int_double(ms) as u64) == Health::Unhealthy,
{
    law_doubles_keep_the_order(1_000, ms);
    law_doubles_keep_the_order(0, 1);
    lemma_round_numbers();
    assert(int_double(0) == 0);
}

/// A line stands for its ends and its call.
pub proof fn law_line_stands_for_its_fields(lines: Seq<Line>, i: int)
    requires
        0 <= i < lines.len(),
    ensures
        line_views(lines).len() == lines.len(),
        line_views(lines)[i].0 == lines[i].from,
        line_views(lines)[i].1 == lines[i].to,
        line_views(lines)[i].2 == lines[i].call,
{
}

} // verus!
