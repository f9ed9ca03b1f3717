//! Timing decisions: the round-trip time of a probed port, the ports that
//! are sampled for it, the timeout derived from the samples, and the pause
//! between two probes of a careful scan.
use vstd::prelude::*;
use vstd::relations::{sorted_by, total_ordering};
use vstd::seq_lib::{lemma_sorted_unique, to_multiset_build, to_multiset_insert};
use crate::probe::ConnectOutcome;

verus! {

/// The order of samples: ascending.
pub open spec fn sample_leq() -> spec_fn(u64, u64) -> bool {
    |a: u64, b: u64| a <= b
}

/// The samples in ascending order.
pub open spec fn sorted_samples(s: Seq<u64>) -> Seq<u64> {
    s.sort_by(sample_leq())
}

/// The median the scanner uses: the element at position `len / 2` of the
/// samples in ascending order (the upper median for an even count).
pub open spec fn median(s: Seq<u64>) -> u64
    recommends
        s.len() > 0,
{
    sorted_samples(s)[(s.len() / 2) as int]
}

/// Ascending order of `u64` values is a total order.
pub proof fn lemma_sample_leq_total()
    ensures
        total_ordering(sample_leq()),
{
    let leq = sample_leq();
    assert(vstd::relations::reflexive(leq));
    assert(vstd::relations::antisymmetric(leq));
    assert(vstd::relations::transitive(leq));
    assert(vstd::relations::strongly_connected(leq));
}

/// A sorted permutation of `s` is the sorted form of `s`.
pub proof fn lemma_sorted_is_sorted_samples(s: Seq<u64>, t: Seq<u64>)
    requires
        sorted_by(t, sample_leq()),
        t.to_multiset() == s.to_multiset(),
    ensures
        t == sorted_samples(s),
{
    lemma_sample_leq_total();
    s.lemma_sort_by_ensures(sample_leq());
    lemma_sorted_unique(t, sorted_samples(s), sample_leq());
}

/// Sorts the samples in ascending order, by insertion.
pub fn sort_samples(v: &Vec<u64>) -> (r: Vec<u64>)
    ensures
        r@ == sorted_samples(v@),
{
    let mut out: Vec<u64> = Vec::new();
    let n = v.len();
    let mut i: usize = 0;
    assert(v@.take(0) =~= Seq::<u64>::empty());
    while i < n
        invariant
            i <= n,
            n == v@.len(),
            sorted_by(out@, sample_leq()),
            out@.to_multiset() == v@.take(i as int).to_multiset(),
        decreases n - i,
    {
        let x = v[i];
        let m = out.len();
        let mut p: usize = 0;
        while p < m && out[p] <= x
            invariant
                p <= m,
                m == out@.len(),
                forall|k: int| 0 <= k < p ==> out@[k] <= x,
            decreases m - p,
        {
            p = p + 1;
        }
        let ghost before = out@;
        out.insert(p, x);
        proof {
            to_multiset_insert(before, p as int, x);
            assert(v@.take(i + 1) =~= v@.take(i as int).push(x));
            to_multiset_build(v@.take(i as int), x);
            assert forall|a: int, b: int| 0 <= a < b < out@.len() implies #[trigger] sample_leq()(
                out@[a],
                out@[b],
            ) by {
                assert(sorted_by(before, sample_leq()));
                if b < p {
                    assert(sample_leq()(before[a], before[b]));
                } else if b == p {
                } else if a < p {
                    assert(sample_leq()(before[a], before[b - 1]));
                } else if a == p {
                    assert(before[p as int] > x);
                    if b - 1 > p {
                        assert(sample_leq()(before[p as int], before[b - 1]));
                    }
                } else {
                    assert(sample_leq()(before[a - 1], before[b - 1]));
                }
            }
        }
        i = i + 1;
    }
    assert(v@.take(n as int) =~= v@);
    proof {
        lemma_sorted_is_sorted_samples(v@, out@);
    }
    out
}

/// The median of the samples, or `None` when there is none.
pub fn median_of(v: &Vec<u64>) -> (r: Option<u64>)
    ensures
        r == if v@.len() == 0 {
            None
        } else {
            Some(median(v@))
        },
{
    if v.len() == 0 {
        return None;
    }
    let sorted = sort_samples(v);
    proof {
        lemma_sample_leq_total();
        v@.lemma_sort_by_ensures(sample_leq());
    }
    assert(sorted@.len() == v@.len()) by {
        broadcast use vstd::seq_lib::group_to_multiset_ensures;

        assert(sorted@.to_multiset().len() == v@.to_multiset().len());
    }
    Some(sorted[v.len() / 2])
}

/// The median does not depend on the order in which the samples came.
pub proof fn law_median_ignores_order(s: Seq<u64>, t: Seq<u64>)
    requires
        s.to_multiset() == t.to_multiset(),
    ensures
        sorted_samples(s) == sorted_samples(t),
        s.len() == t.len(),
        s.len() > 0 ==> median(s) == median(t),
{
    lemma_sample_leq_total();
    s.lemma_sort_by_ensures(sample_leq());
    lemma_sorted_is_sorted_samples(t, sorted_samples(s));
    vstd::seq_lib::to_multiset_len(s);
    vstd::seq_lib::to_multiset_len(t);
}

/// The median is one of the samples, no more than half of the samples lie
/// below it and no more than half lie above it.
pub proof fn law_median_is_a_sample(s: Seq<u64>)
    requires
        s.len() > 0,
    ensures
        s.contains(median(s)),
        forall|i: int| 0 <= i < s.len() / 2 ==> #[trigger] sorted_samples(s)[i] <= median(s),
        forall|i: int|
            s.len() / 2 <= i < s.len() ==> median(s) <= #[trigger] sorted_samples(s)[i],
{
    broadcast use vstd::seq_lib::group_to_multiset_ensures;

    lemma_sample_leq_total();
    s.lemma_sort_by_ensures(sample_leq());
    let t = sorted_samples(s);
    assert(t.len() == s.len()) by {
        assert(t.to_multiset().len() == s.to_multiset().len());
    }
    let k = (s.len() / 2) as int;
    assert(t.contains(t[k]));
    assert(t.to_multiset().count(t[k]) > 0);
    assert forall|i: int| 0 <= i < s.len() / 2 implies #[trigger] t[i] <= median(s) by {
        assert(sample_leq()(t[i], t[k]));
    }
    assert forall|i: int| s.len() / 2 <= i < s.len() implies median(s) <= #[trigger] t[i] by {
        if i > k {
            assert(sample_leq()(t[k], t[i]));
        }
    }
}

/// One connection attempt made to measure the round-trip time, with the
/// milliseconds it took.
pub struct Probe {
    pub outcome: ConnectOutcome,
    pub elapsed_ms: u64,
}

/// How many connection attempts measure the round-trip time of a port.
pub open spec fn rtt_attempts() -> nat {
    3
}

/// The timeout of each attempt that measures a round-trip time.
pub open spec fn rtt_attempt_timeout_ms() -> u64 {
    1000
}

/// What follows `made` attempts of a round-trip measurement: another
/// attempt with the timeout `Some(ms)`, or `None` when it is complete.
pub open spec fn spec_next_rtt_attempt(made: nat) -> Option<u64> {
    if made < rtt_attempts() {
        Some(rtt_attempt_timeout_ms())
    } else {
        None
    }
}

/// Tells what follows `made` attempts of a round-trip measurement: another
/// attempt with the timeout `Some(ms)`, or `None` when it is complete.
pub fn next_rtt_attempt(made: usize) -> (next: Option<u64>)
    ensures
        next == spec_next_rtt_attempt(made as nat),
{
    if made < 3 {
        Some(1000)
    } else {
        None
    }
}

/// A measurement that asks `next_rtt_attempt` before each attempt, uses the
/// timeout it gives, and stops at its first `None`, makes exactly three
/// attempts, each with a timeout of 1000 milliseconds.
pub proof fn law_rtt_attempt_plan(timeouts: Seq<u64>)
    requires
        forall|k: int| 0 <= k < timeouts.len() ==> spec_next_rtt_attempt(k as nat) == Some(
            #[trigger] timeouts[k],
        ),
        spec_next_rtt_attempt(timeouts.len()) is None,
    ensures
        timeouts.len() == rtt_attempts(),
        forall|k: int| 0 <= k < timeouts.len() ==> #[trigger] timeouts[k] == rtt_attempt_timeout_ms(),
{
    if timeouts.len() > rtt_attempts() {
        assert(spec_next_rtt_attempt(3) == Some(timeouts[3]));
    }
}

/// The attempt got an answer from the host: it was accepted or refused.
pub open spec fn answered(o: ConnectOutcome) -> bool {
    o is Connected || o is Refused
}

/// The times of the attempts that got an answer, in order.
pub open spec fn answered_times(p: Seq<Probe>) -> Seq<u64>
    decreases p.len(),
{
    if p.len() == 0 {
        Seq::<u64>::empty()
    } else if answered(p.last().outcome) {
        answered_times(p.drop_last()).push(p.last().elapsed_ms)
    } else {
        answered_times(p.drop_last())
    }
}

/// The round-trip time of a port: the median time of the attempts that got
/// an answer, or `None` when none did.
pub fn measure_rtt(probes: &Vec<Probe>) -> (r: Option<u64>)
    ensures
        r == if answered_times(probes@).len() == 0 {
            None
        } else {
            Some(median(answered_times(probes@)))
        },
{
    let mut rtts: Vec<u64> = Vec::new();
    let n = probes.len();
    let mut i: usize = 0;
    while i < n
        invariant
            i <= n,
            n == probes@.len(),
            rtts@ == answered_times(probes@.take(i as int)),
        decreases n - i,
    {
        assert(probes@.take(i + 1).drop_last() =~= probes@.take(i as int));
        assert(probes@.take(i + 1).last() == probes@[i as int]);
        let probe = &probes[i];
        match probe.outcome {
            ConnectOutcome::Connected | ConnectOutcome::Refused => {
                rtts.push(probe.elapsed_ms);
            },
            _ => {},
        }
        i = i + 1;
    }
    assert(probes@.take(n as int) =~= probes@);
    median_of(&rtts)
}

/// The ports that are preferred for sampling.
pub open spec fn preferred_ports() -> Seq<u16> {
    seq![22u16, 80u16, 443u16]
}

/// The preferred ports that are in `range`, in the preferred order.
pub open spec fn preferred_in(range: Seq<u16>) -> Seq<u16> {
    preferred_ports().filter(|p: u16| range.contains(p))
}

/// The ports whose round-trip time is measured: the preferred ports in the
/// range, topped up to three with the first ports of the range (which may
/// repeat a preferred one), or the whole range when that leaves none.
pub open spec fn spec_sample_ports(range: Seq<u16>) -> Seq<u16> {
    let pref = preferred_in(range);
    let sample = if pref.len() < 3 {
        let wanted = 3 - pref.len();
        pref + range.take(if wanted < range.len() { wanted } else { range.len() as int })
    } else {
        pref
    };
    if sample.len() == 0 {
        range
    } else {
        sample
    }
}

/// Tells whether `port` is in `ports`.
fn contains_port(ports: &Vec<u16>, port: u16) -> (b: bool)
    ensures
        b == ports@.contains(port),
{
    let n = ports.len();
    let mut i: usize = 0;
    while i < n
        invariant
            i <= n,
            n == ports@.len(),
            forall|j: int| 0 <= j < i ==> ports@[j] != port,
        decreases n - i,
    {
        if ports[i] == port {
            return true;
        }
        i = i + 1;
    }
    false
}

/// Chooses the ports whose round-trip time is measured.
pub fn sample_ports(port_range: &Vec<u16>) -> (r: Vec<u16>)
    ensures
        r@ == spec_sample_ports(port_range@),
{
    let ghost range = port_range@;
    let preferred: Vec<u16> = vec![22, 80, 443];
    let mut sample: Vec<u16> = Vec::new();
    let mut i: usize = 0;
    assert(preferred@ =~= preferred_ports());
    assert(preferred_ports().take(0).filter(|p: u16| range.contains(p)) =~= Seq::<u16>::empty());
    while i < 3
        invariant
            i <= 3,
            range == port_range@,
            preferred@ == preferred_ports(),
            sample@ == preferred_ports().take(i as int).filter(|p: u16| range.contains(p)),
        decreases 3 - i,
    {
        reveal_with_fuel(Seq::<_>::filter, 1);
        assert(preferred_ports().take(i + 1).drop_last() =~= preferred_ports().take(i as int));
        let p = preferred[i];
        if contains_port(port_range, p) {
            sample.push(p);
        }
        i = i + 1;
    }
    assert(preferred_ports().take(3) =~= preferred_ports());
    let k = sample.len();
    if k < 3 {
        let wanted = 3 - k;
        let limit = if wanted < port_range.len() {
            wanted
        } else {
            port_range.len()
        };
        let ghost pref = sample@;
        let mut j: usize = 0;
        while j < limit
            invariant
                j <= limit,
                limit <= port_range@.len(),
                sample@ =~= pref + port_range@.take(j as int),
            decreases limit - j,
        {
            sample.push(port_range[j]);
            assert(port_range@.take(j + 1) =~= port_range@.take(j as int).push(port_range@[j as int]));
            j = j + 1;
        }
    }
    if sample.len() == 0 {
        let mut all: Vec<u16> = Vec::new();
        let n = port_range.len();
        let mut j: usize = 0;
        while j < n
            invariant
                j <= n,
                n == port_range@.len(),
                all@ =~= port_range@.take(j as int),
            decreases n - j,
        {
            all.push(port_range[j]);
            assert(port_range@.take(j + 1) =~= port_range@.take(j as int).push(port_range@[j as int]));
            j = j + 1;
        }
        assert(port_range@.take(n as int) =~= port_range@);
        return all;
    }
    sample
}

/// The round-trip times that were measured, in order.
pub open spec fn measured(m: Seq<Option<u64>>) -> Seq<u64>
    decreases m.len(),
{
    if m.len() == 0 {
        Seq::<u64>::empty()
    } else {
        match m.last() {
            Some(t) => measured(m.drop_last()).push(t),
            None => measured(m.drop_last()),
        }
    }
}

/// The timeout used when nothing could be measured.
pub open spec fn fallback_timeout() -> u64 {
    2000
}

/// The timeout derived from the measured round-trip times: three times
/// their median, kept between 50 and 2000 milliseconds; 2000 when nothing
/// was measured.
pub open spec fn dynamic_timeout(m: Seq<Option<u64>>) -> u64 {
    let s = measured(m);
    if s.len() == 0 {
        fallback_timeout()
    } else {
        let t = median(s) * 3;
        if t < 50 {
            50
        } else if t > 2000 {
            2000
        } else {
            t as u64
        }
    }
}

/// Derives the scan timeout from the round-trip times measured on the
/// sample ports (`None` for a port that gave none). Returns the median of
/// the measured times (`None` when there is none) and the timeout.
pub fn calculate_dynamic_timeout(rtts: &Vec<Option<u64>>) -> (r: (Option<u64>, u64))
    requires
        measured(rtts@).len() > 0 ==> median(measured(rtts@)) * 3 <= u64::MAX,
    ensures
        r.0 == if measured(rtts@).len() == 0 {
            None
        } else {
            Some(median(measured(rtts@)))
        },
        r.1 == dynamic_timeout(rtts@),
{
    let mut measured_rtts: Vec<u64> = Vec::new();
    let n = rtts.len();
    let mut i: usize = 0;
    while i < n
        invariant
            i <= n,
            n == rtts@.len(),
            measured_rtts@ == measured(rtts@.take(i as int)),
        decreases n - i,
    {
        assert(rtts@.take(i + 1).drop_last() =~= rtts@.take(i as int));
        assert(rtts@.take(i + 1).last() == rtts@[i as int]);
        if let Some(rtt) = rtts[i] {
            measured_rtts.push(rtt);
        }
        i = i + 1;
    }
    assert(rtts@.take(n as int) =~= rtts@);
    match median_of(&measured_rtts) {
        None => (None, 2000),
        Some(median_rtt) => {
            let timeout = median_rtt * 3;
            let clamped = if timeout < 50 {
                50
            } else if timeout > 2000 {
                2000
            } else {
                timeout
            };
            (Some(median_rtt), clamped)
        },
    }
}

/// The timeout always lies between 50 and 2000 milliseconds, and it does
/// not depend on the order in which the sample ports answered.
pub proof fn law_timeout_bounds_and_order(m: Seq<Option<u64>>, n: Seq<Option<u64>>)
    requires
        measured(m).to_multiset() == measured(n).to_multiset(),
    ensures
        50 <= dynamic_timeout(m) <= 2000,
        dynamic_timeout(m) == dynamic_timeout(n),
{
    law_median_ignores_order(measured(m), measured(n));
    vstd::seq_lib::to_multiset_len(measured(m));
    vstd::seq_lib::to_multiset_len(measured(n));
}

/// Draws a number from `rand::random`, the thread-local generator of the
/// `rand` crate. Nothing is promised of the value.
#[verifier::external_body]
fn random_u64() -> u64 {
    rand::random::<u64>()
}

/// The pause between two probes of a careful scan, from a random number:
/// 50 milliseconds plus the number modulo 100.
pub fn pacing_delay_from(random: u64) -> (ms: u64)
    ensures
        ms == random % 100 + 50,
        50 <= ms < 150,
{
    random % 100 + 50
}

/// A random pause between two probes of a careful scan, from 50 up to 149
/// milliseconds.
pub fn pacing_delay_ms() -> (ms: u64)
    ensures
        50 <= ms < 150,
{
    pacing_delay_from(random_u64())
}

/// The measured round-trip times are the values of all the `Some`s, in
/// order: none is left out and none is added.
pub proof fn law_measured_is_every_some(m: Seq<Option<u64>>)
    ensures
        measured(m) == m.filter(|x: Option<u64>| x is Some).map_values(|x: Option<u64>| x.unwrap()),
    decreases m.len(),
{
    reveal_with_fuel(Seq::<_>::filter, 1);
    if m.len() > 0 {
        law_measured_is_every_some(m.drop_last());
        let sub = m.drop_last().filter(|x: Option<u64>| x is Some);
        let f = |x: Option<u64>| x.unwrap();
        if m.last() is Some {
            assert(sub.push(m.last()).map_values(f) =~= sub.map_values(f).push(m.last().unwrap()));
        }
    } else {
        assert(m.filter(|x: Option<u64>| x is Some).map_values(|x: Option<u64>| x.unwrap())
            =~= Seq::<u64>::empty());
    }
}

/// The timeout is three times the median of every measured round-trip time
/// (the values of all the `Some`s), kept within 50..2000 ms, and 2000 ms
/// when nothing was measured.
pub proof fn law_timeout_from_every_measurement(m: Seq<Option<u64>>)
    ensures
        ({
            let all = m.filter(|x: Option<u64>| x is Some).map_values(|x: Option<u64>| x.unwrap());
            &&& all.len() == 0 ==> dynamic_timeout(m) == 2000
            &&& all.len() > 0 ==> dynamic_timeout(m) == if median(all) * 3 < 50 {
                50
            } else if median(all) * 3 > 2000 {
                2000
            } else {
                (median(all) * 3) as u64
            }
        }),
{
    law_measured_is_every_some(m);
}

/// The answered times are the times of all the accepted or refused
/// attempts, in order: none is left out and none is added.
pub proof fn law_answered_times_are_every_answer(p: Seq<Probe>)
    ensures
        answered_times(p) == p.filter(
            |x: Probe| x.outcome is Connected || x.outcome is Refused,
        ).map_values(|x: Probe| x.elapsed_ms),
    decreases p.len(),
{
    reveal_with_fuel(Seq::<_>::filter, 1);
    let pred = |x: Probe| x.outcome is Connected || x.outcome is Refused;
    let f = |x: Probe| x.elapsed_ms;
    if p.len() > 0 {
        law_answered_times_are_every_answer(p.drop_last());
        let sub = p.drop_last().filter(pred);
        if pred(p.last()) {
            assert(sub.push(p.last()).map_values(f) =~= sub.map_values(f).push(p.last().elapsed_ms));
        }
    } else {
        assert(p.filter(pred).map_values(f) =~= Seq::<u64>::empty());
    }
}

/// The round-trip time of a port is the median of the times of all its
/// accepted or refused attempts, and `None` when no attempt got an answer.
pub proof fn law_rtt_from_every_answer(p: Seq<Probe>)
    ensures
        ({
            let all = p.filter(|x: Probe| x.outcome is Connected || x.outcome is Refused).map_values(
                |x: Probe| x.elapsed_ms,
            );
            &&& answered_times(p) == all
            &&& all.len() == p.filter(|x: Probe| x.outcome is Connected || x.outcome is Refused).len()
        }),
{
    law_answered_times_are_every_answer(p);
}

/// How many of the preferred ports 22, 80 and 443 lie in `range`.
pub open spec fn preferred_count(range: Seq<u16>) -> int {
    (if range.contains(22u16) {
        1int
    } else {
        0int
    }) + (if range.contains(80u16) {
        1int
    } else {
        0int
    }) + (if range.contains(443u16) {
        1int
    } else {
        0int
    })
}

/// The sampled ports: all of them lie in the range; every preferred port in
/// the range is sampled, first and in the order 22, 80, 443; when fewer than
/// three preferred ports lie in the range, the first ports of the range
/// follow until there are three (or the range is used up); so a range of at
/// least three ports gives exactly three sampled ports, and an empty range
/// none.
pub proof fn law_sample_ports_shape(range: Seq<u16>)
    ensures
        ({
            let s = spec_sample_ports(range);
            let k = preferred_count(range);
            let pref = seq![22u16, 80u16, 443u16].filter(|p: u16| range.contains(p));
            &&& forall|i: int| 0 <= i < s.len() ==> range.contains(#[trigger] s[i])
            &&& range.len() >= 3 ==> s.len() == 3
            &&& range.len() == 0 ==> s.len() == 0
            &&& pref.len() == k
            &&& range.len() > 0 ==> s.take(k) == pref
            &&& range.len() > 0 && k < 3 ==> s.len() == k + if 3 - k < range.len() {
                3 - k
            } else {
                range.len() as int
            }
            &&& range.len() > 0 && k < 3 ==> s.skip(k) == range.take(s.len() - k)
            &&& k == 3 ==> s == seq![22u16, 80u16, 443u16]
        }),
{
    reveal_with_fuel(Seq::<_>::filter, 4);
    let pref = seq![22u16, 80u16, 443u16].filter(|p: u16| range.contains(p));
    assert(preferred_ports() =~= seq![22u16, 80u16, 443u16]);
    assert(seq![22u16, 80u16, 443u16].drop_last() =~= seq![22u16, 80u16]);
    assert(seq![22u16, 80u16].drop_last() =~= seq![22u16]);
    assert(seq![22u16].drop_last() =~= Seq::<u16>::empty());
    assert(pref.len() == preferred_count(range));
    assert(preferred_in(range) == pref);
    assert forall|i: int| 0 <= i < pref.len() implies range.contains(#[trigger] pref[i]) by {
        seq![22u16, 80u16, 443u16].lemma_filter_contains_rev(|p: u16| range.contains(p), pref[i]);
        assert(pref.contains(pref[i]));
    }
    let s = spec_sample_ports(range);
    let k = preferred_count(range);
    if range.len() > 0 {
        if k < 3 {
            let w = if 3 - k < range.len() { 3 - k } else { range.len() as int };
            assert(s =~= pref + range.take(w));
            assert(s.take(k) =~= pref);
            assert(s.skip(k) =~= range.take(w));
        } else {
            assert(s.take(k) =~= pref);
        }
        assert forall|i: int| 0 <= i < s.len() implies range.contains(#[trigger] s[i]) by {
            if i < k {
                assert(s[i] == pref[i]);
            } else {
                assert(s[i] == range[i - k]);
            }
        }
    }
    if k == 3 {
        assert(pref =~= seq![22u16, 80u16, 443u16]);
    }
}

/// When no element from position `k` on satisfies `p`, at most `k` do.
proof fn lemma_filter_len_at_most(t: Seq<u64>, p: spec_fn(u64) -> bool, k: int)
    requires
        0 <= k,
        forall|i: int| k <= i < t.len() ==> !p(#[trigger] t[i]),
    ensures
        t.filter(p).len() <= k,
    decreases t.len(),
{
    t.lemma_filter_len(p);
    if t.len() > k {
        let u = t.drop_last();
        assert forall|i: int| k <= i < u.len() implies !p(#[trigger] u[i]) by {
            assert(u[i] == t[i]);
        }
        lemma_filter_len_at_most(u, p, k);
        u.lemma_filter_len_push(p, t.last());
        assert(u.push(t.last()) =~= t);
    }
}

/// When the first `k` elements satisfy `p`, at least `k` do.
proof fn lemma_filter_len_at_least(t: Seq<u64>, p: spec_fn(u64) -> bool, k: int)
    requires
        0 <= k <= t.len(),
        forall|i: int| 0 <= i < k ==> p(#[trigger] t[i]),
    ensures
        t.filter(p).len() >= k,
    decreases t.len(),
{
    if t.len() > 0 {
        let u = t.drop_last();
        u.lemma_filter_len_push(p, t.last());
        assert(u.push(t.last()) =~= t);
        if t.len() > k {
            assert forall|i: int| 0 <= i < k implies p(#[trigger] u[i]) by {
                assert(u[i] == t[i]);
            }
            lemma_filter_len_at_least(u, p, k);
        } else if k > 0 {
            assert forall|i: int| 0 <= i < k - 1 implies p(#[trigger] u[i]) by {
                assert(u[i] == t[i]);
            }
            lemma_filter_len_at_least(u, p, k - 1);
            assert(p(t[k - 1]));
        }
    }
}

/// Two sequences with the same elements have as many elements that satisfy
/// any predicate.
proof fn lemma_permutation_filter_len(s: Seq<u64>, t: Seq<u64>, p: spec_fn(u64) -> bool)
    requires
        s.to_multiset() == t.to_multiset(),
    ensures
        s.filter(p).len() == t.filter(p).len(),
    decreases s.len(),
{
    broadcast use vstd::seq_lib::group_to_multiset_ensures;
    broadcast use vstd::multiset::group_multiset_axioms;

    vstd::seq_lib::to_multiset_len(s);
    vstd::seq_lib::to_multiset_len(t);
    if s.len() == 0 {
        assert(t.len() == 0);
        assert(s =~= t);
    } else {
        let x = s.last();
        let u = s.drop_last();
        assert(u.push(x) =~= s);
        assert(s.to_multiset().count(x) > 0);
        assert(t.to_multiset().count(x) > 0);
        assert(t.contains(x));
        let j = choose|j: int| 0 <= j < t.len() && t[j] == x;
        let v = t.remove(j);
        assert(v.to_multiset() =~= t.to_multiset().remove(x));
        assert(u.to_multiset() =~= s.to_multiset().remove(x)) by {
            assert(s.to_multiset() =~= u.to_multiset().insert(x));
        }
        lemma_permutation_filter_len(u, v, p);
        u.lemma_filter_len_push(p, x);
        let a = t.subrange(0, j);
        let b = t.subrange(j + 1, t.len() as int);
        assert(t =~= a + seq![x] + b);
        assert(v =~= a + b);
        reveal_with_fuel(Seq::<_>::filter, 2);
        assert(seq![x].drop_last() =~= Seq::<u64>::empty());
        Seq::filter_distributes_over_add(a + seq![x], b, p);
        Seq::filter_distributes_over_add(a, seq![x], p);
        Seq::filter_distributes_over_add(a, b, p);
    }
}

/// The median is the sample at the middle of the order: at most half of the
/// samples (rounded down) are smaller than it, and more than half of them
/// are at most it. This fixes the median among the samples.
pub proof fn law_median_is_middle(s: Seq<u64>)
    requires
        s.len() > 0,
    ensures
        s.contains(median(s)),
        s.filter(|x: u64| x < median(s)).len() <= s.len() / 2,
        s.len() / 2 < s.filter(|x: u64| x <= median(s)).len(),
{
    law_median_is_a_sample(s);
    lemma_sample_leq_total();
    s.lemma_sort_by_ensures(sample_leq());
    let t = sorted_samples(s);
    let m = median(s);
    let k = (s.len() / 2) as int;
    vstd::seq_lib::to_multiset_len(s);
    vstd::seq_lib::to_multiset_len(t);
    let below = |x: u64| x < m;
    let upto = |x: u64| x <= m;
    assert forall|i: int| k <= i < t.len() implies !below(#[trigger] t[i]) by {
        if i > k {
            assert(sample_leq()(t[k], t[i]));
        }
    }
    lemma_filter_len_at_most(t, below, k);
    assert forall|i: int| 0 <= i < k + 1 implies upto(#[trigger] t[i]) by {
        if i < k {
            assert(sample_leq()(t[i], t[k]));
        }
    }
    lemma_filter_len_at_least(t, upto, k + 1);
    lemma_permutation_filter_len(s, t, below);
    lemma_permutation_filter_len(s, t, upto);
}

} // verus!
