//! Scan results: the verdict for one port, its text form, and the ordered
//! set of all verdicts of a scan.
use vstd::prelude::*;
use crate::text::{
    append_decimal, chars_lt, decimal, lemma_chars_lt_irreflexive, lemma_chars_lt_total,
    lemma_chars_lt_transitive, str_eq, str_lt,
};

verus! {

/// What a scan found out about one port.
#[derive(Debug, Clone, Copy, PartialEq, Eq, PartialOrd, Ord, Structural)]
pub enum ResultType {
    Open,
    Closed,
    Filtered,
    Error,
}

/// The position of a verdict kind in the order of declaration, by which
/// results with the same port are ordered.
pub open spec fn rank(r: ResultType) -> int {
    match r {
        ResultType::Open => 0,
        ResultType::Closed => 1,
        ResultType::Filtered => 2,
        ResultType::Error => 3,
    }
}

fn rank_of(r: ResultType) -> (n: u8)
    ensures
        n == rank(r),
{
    match r {
        ResultType::Open => 0,
        ResultType::Closed => 1,
        ResultType::Filtered => 2,
        ResultType::Error => 3,
    }
}

/// The name of a verdict kind, as its debug form prints it.
pub open spec fn result_name(r: ResultType) -> Seq<char> {
    match r {
        ResultType::Open => "Open"@,
        ResultType::Closed => "Closed"@,
        ResultType::Filtered => "Filtered"@,
        ResultType::Error => "Error"@,
    }
}

fn result_name_str(r: ResultType) -> (s: &'static str)
    ensures
        s@ == result_name(r),
{
    match r {
        ResultType::Open => "Open",
        ResultType::Closed => "Closed",
        ResultType::Filtered => "Filtered",
        ResultType::Error => "Error",
    }
}

/// The verdict for one port, with an optional explanation.
#[derive(Debug, Clone, PartialEq, Eq, PartialOrd, Ord)]
pub struct ScanResult {
    pub port: u16,
    pub result: ResultType,
    pub additional_info: Option<String>,
}

/// A scan result as plain values.
pub struct ScanResultView {
    pub port: u16,
    pub result: ResultType,
    pub additional_info: Option<Seq<char>>,
}

/// The characters of an optional message.
pub open spec fn info_view(info: Option<String>) -> Option<Seq<char>> {
    match info {
        Some(s) => Some(s@),
        None => None,
    }
}

impl View for ScanResult {
    type V = ScanResultView;

    open spec fn view(&self) -> ScanResultView {
        ScanResultView {
            port: self.port,
            result: self.result,
            additional_info: info_view(self.additional_info),
        }
    }
}

/// The text that describes a result: `Port <port> is <kind>`, followed by
/// `: <message>` when there is a message.
pub open spec fn describe(v: ScanResultView) -> Seq<char> {
    let base = "Port "@ + decimal(v.port as nat) + " is "@ + result_name(v.result);
    match v.additional_info {
        Some(m) => base + ": "@ + m,
        None => base,
    }
}

impl ScanResult {
    /// Describes the result in one line of text.
    pub fn to_string(&self) -> (s: String)
        ensures
            s@ == describe(self@),
    {
        let mut s = String::new();
        s.append("Port ");
        append_decimal(&mut s, self.port);
        s.append(" is ");
        s.append(result_name_str(self.result));
        match &self.additional_info {
            Some(msg) => {
                s.append(": ");
                s.append(msg.as_str());
            },
            None => {},
        }
        s
    }

    /// A copy of this result.
    pub fn duplicate(&self) -> (r: ScanResult)
        ensures
            r@ == self@,
    {
        let info = match &self.additional_info {
            Some(msg) => Some(msg.clone()),
            None => None,
        };
        ScanResult { port: self.port, result: self.result, additional_info: info }
    }
}

/// The order of optional messages: no message comes first, then messages
/// in lexicographic order.
pub open spec fn info_lt(a: Option<Seq<char>>, b: Option<Seq<char>>) -> bool {
    match (a, b) {
        (None, Some(_)) => true,
        (Some(x), Some(y)) => chars_lt(x, y),
        _ => false,
    }
}

/// The order of scan results: by port, then by verdict kind, then by message.
pub open spec fn result_lt(a: ScanResultView, b: ScanResultView) -> bool {
    ||| a.port < b.port
    ||| a.port == b.port && rank(a.result) < rank(b.result)
    ||| a.port == b.port && a.result == b.result && info_lt(a.additional_info, b.additional_info)
}

/// No result comes before itself.
pub proof fn lemma_result_lt_irreflexive(a: ScanResultView)
    ensures
        !result_lt(a, a),
{
    if let Some(x) = a.additional_info {
        lemma_chars_lt_irreflexive(x);
    }
}

/// The order of results is transitive.
pub proof fn lemma_result_lt_transitive(a: ScanResultView, b: ScanResultView, c: ScanResultView)
    requires
        result_lt(a, b),
        result_lt(b, c),
    ensures
        result_lt(a, c),
{
    if a.port == b.port && b.port == c.port && a.result == b.result && b.result == c.result {
        match (a.additional_info, b.additional_info, c.additional_info) {
            (Some(x), Some(y), Some(z)) => {
                lemma_chars_lt_transitive(x, y, z);
            },
            _ => {},
        }
    }
}

/// Of two different results, one comes before the other.
pub proof fn lemma_result_lt_total(a: ScanResultView, b: ScanResultView)
    requires
        a != b,
    ensures
        result_lt(a, b) || result_lt(b, a),
{
    if a.port == b.port && a.result == b.result {
        match (a.additional_info, b.additional_info) {
            (Some(x), Some(y)) => {
                lemma_chars_lt_total(x, y);
            },
            _ => {},
        }
    }
}

/// Tells whether `a` comes strictly before `b` in the order of results.
pub fn result_precedes(a: &ScanResult, b: &ScanResult) -> (r: bool)
    ensures
        r == result_lt(a@, b@),
{
    if a.port != b.port {
        return a.port < b.port;
    }
    let ra = rank_of(a.result);
    let rb = rank_of(b.result);
    if ra != rb {
        return ra < rb;
    }
    match (&a.additional_info, &b.additional_info) {
        (None, Some(_)) => true,
        (Some(x), Some(y)) => str_lt(x.as_str(), y.as_str()),
        _ => false,
    }
}

/// Tells whether two results hold the same values.
pub fn result_same(a: &ScanResult, b: &ScanResult) -> (r: bool)
    ensures
        r == (a@ == b@),
{
    if a.port != b.port || a.result != b.result {
        return false;
    }
    match (&a.additional_info, &b.additional_info) {
        (None, None) => true,
        (Some(x), Some(y)) => str_eq(x.as_str(), y.as_str()),
        _ => false,
    }
}

/// The results of a sequence, as plain values.
pub open spec fn views(s: Seq<ScanResult>) -> Seq<ScanResultView> {
    s.map_values(|r: ScanResult| r@)
}

/// Each result comes strictly before every later one.
pub open spec fn strictly_ascending(s: Seq<ScanResultView>) -> bool {
    forall|i: int, j: int| 0 <= i < j < s.len() ==> result_lt(s[i], s[j])
}

/// Inserts `r` at its place in the ascending vector `items`, unless an
/// equal result is there already.
fn insert_sorted(items: &mut Vec<ScanResult>, r: ScanResult) -> (added: bool)
    requires
        strictly_ascending(views(old(items)@)),
    ensures
        strictly_ascending(views(final(items)@)),
        views(final(items)@).to_set() == views(old(items)@).to_set().insert(r@),
        added == !views(old(items)@).contains(r@),
        views(final(items)@).len() == views(old(items)@).len() + if added {
            1int
        } else {
            0int
        },
{
    let ghost old_v = views(items@);
    let n = items.len();
    let mut p: usize = 0;
    let mut found_place = false;
    while p < n && !found_place
        invariant
            p <= n,
            n == items@.len(),
            views(items@) == old_v,
            found_place ==> p < n && !result_lt(old_v[p as int], r@),
            forall|k: int| 0 <= k < p ==> result_lt(#[trigger] old_v[k], r@),
        decreases (n - p) + if found_place {
            0int
        } else {
            1int
        },
    {
        if result_precedes(&items[p], &r) {
            p = p + 1;
        } else {
            found_place = true;
        }
    }
    if p < n && result_same(&items[p], &r) {
        assert(old_v[p as int] == r@);
        assert(old_v.to_set().insert(r@) =~= old_v.to_set());
        return false;
    }
    proof {
        if p < n {
            lemma_result_lt_total(old_v[p as int], r@);
        }
        assert forall|k: int| p <= k < n implies result_lt(r@, #[trigger] old_v[k]) by {
            if k > p {
                lemma_result_lt_transitive(r@, old_v[p as int], old_v[k]);
            }
        }
        assert forall|k: int| 0 <= k < n implies #[trigger] old_v[k] != r@ by {
            lemma_result_lt_irreflexive(r@);
        }
    }
    items.insert(p, r);
    let ghost new_v = views(items@);
    assert(new_v =~= old_v.subrange(0, p as int).push(r@) + old_v.subrange(p as int, n as int));
    assert forall|i: int, j: int| 0 <= i < j < new_v.len() implies result_lt(new_v[i], new_v[j]) by {
        if j < p {
            assert(new_v[i] == old_v[i] && new_v[j] == old_v[j]);
        } else if j == p {
            assert(new_v[i] == old_v[i]);
        } else if i < p {
            assert(new_v[i] == old_v[i] && new_v[j] == old_v[j - 1]);
            lemma_result_lt_transitive(old_v[i], r@, old_v[j - 1]);
        } else if i == p {
            assert(new_v[j] == old_v[j - 1]);
        } else {
            assert(new_v[i] == old_v[i - 1] && new_v[j] == old_v[j - 1]);
        }
    }
    assert(new_v.to_set() =~= old_v.to_set().insert(r@)) by {
        assert forall|x: ScanResultView| new_v.contains(x) implies old_v.to_set().insert(
            r@,
        ).contains(x) by {
            let i = choose|i: int| 0 <= i < new_v.len() && new_v[i] == x;
            if i < p {
                assert(old_v[i] == x);
            } else if i > p {
                assert(old_v[i - 1] == x);
            }
        }
        assert forall|x: ScanResultView| old_v.to_set().insert(r@).contains(x) implies new_v.contains(
            x,
        ) by {
            if x == r@ {
                assert(new_v[p as int] == x);
            } else {
                let i = choose|i: int| 0 <= i < old_v.len() && old_v[i] == x;
                if i < p {
                    assert(new_v[i] == x);
                } else {
                    assert(new_v[i + 1] == x);
                }
            }
        }
    }
    true
}

/// The first element of a strictly ascending sequence comes before all the
/// others, so it differs from them.
proof fn lemma_first_is_least(s: Seq<ScanResultView>, k: int)
    requires
        strictly_ascending(s),
        0 < k < s.len(),
    ensures
        result_lt(s[0], s[k]),
        s[0] != s[k],
{
    lemma_result_lt_irreflexive(s[0]);
}

/// Two strictly ascending sequences that hold the same results are equal:
/// the order of a set of results is determined by its contents.
#[verifier::spinoff_prover]
pub proof fn lemma_ascending_unique(s: Seq<ScanResultView>, t: Seq<ScanResultView>)
    requires
        strictly_ascending(s),
        strictly_ascending(t),
        s.to_set() == t.to_set(),
    ensures
        s == t,
    decreases s.len(),
{
    if s.len() == 0 {
        if t.len() > 0 {
            assert(t.to_set().contains(t[0]));
        }
        assert(s =~= t);
    } else {
        assert(s.to_set().contains(s[0]));
        assert(t.len() > 0);
        let j = choose|j: int| 0 <= j < t.len() && t[j] == s[0];
        assert(t.to_set().contains(t[0]));
        let i = choose|i: int| 0 <= i < s.len() && s[i] == t[0];
        if j > 0 {
            if i == 0 {
                lemma_result_lt_irreflexive(t[0]);
            } else {
                lemma_result_lt_transitive(s[0], s[i], s[0]);
                lemma_result_lt_irreflexive(s[0]);
            }
        }
        assert(s[0] == t[0]);
        let s1 = s.drop_first();
        let t1 = t.drop_first();
        assert(strictly_ascending(s1)) by {
            assert forall|a: int, b: int| 0 <= a < b < s1.len() implies result_lt(s1[a], s1[b]) by {
                assert(s1[a] == s[a + 1] && s1[b] == s[b + 1]);
            }
        }
        assert(strictly_ascending(t1)) by {
            assert forall|a: int, b: int| 0 <= a < b < t1.len() implies result_lt(t1[a], t1[b]) by {
                assert(t1[a] == t[a + 1] && t1[b] == t[b + 1]);
            }
        }
        assert(s1.to_set() =~= t1.to_set()) by {
            assert forall|x: ScanResultView| s1.to_set().contains(x) implies t1.to_set().contains(x) by {
                let a = choose|a: int| 0 <= a < s1.len() && s1[a] == x;
                assert(s[a + 1] == x);
                lemma_first_is_least(s, a + 1);
                assert(t.to_set().contains(x));
                let b = choose|b: int| 0 <= b < t.len() && t[b] == x;
                assert(b != 0);
                assert(t1[b - 1] == x);
            }
            assert forall|x: ScanResultView| t1.to_set().contains(x) implies s1.to_set().contains(x) by {
                let a = choose|a: int| 0 <= a < t1.len() && t1[a] == x;
                assert(t[a + 1] == x);
                lemma_first_is_least(t, a + 1);
                assert(s.to_set().contains(x));
                let b = choose|b: int| 0 <= b < s.len() && s[b] == x;
                assert(b != 0);
                assert(s1[b - 1] == x);
            }
        }
        lemma_ascending_unique(s1, t1);
        assert(s1.len() == t1.len());
        assert(s.len() == t.len());
        assert(s =~= t) by {
            assert forall|k: int| 0 <= k < s.len() implies s[k] == t[k] by {
                if k > 0 {
                    assert(s[k] == s1[k - 1]);
                    assert(t[k] == t1[k - 1]);
                }
            }
        }
    }
}

/// The results of a scan do not depend on the order in which the ports
/// report: inserting `a` then `b` gives the same ascending sequence as
/// inserting `b` then `a`.
pub proof fn law_insertion_order_irrelevant(
    start: Seq<ScanResultView>,
    a: ScanResultView,
    b: ScanResultView,
    ab: Seq<ScanResultView>,
    ba: Seq<ScanResultView>,
)
    requires
        strictly_ascending(ab),
        strictly_ascending(ba),
        ab.to_set() == start.to_set().insert(a).insert(b),
        ba.to_set() == start.to_set().insert(b).insert(a),
    ensures
        ab == ba,
{
    assert(ab.to_set() =~= ba.to_set());
    lemma_ascending_unique(ab, ba);
}

/// The results a scan records: port `ports[i]` with the verdict and the
/// message `verdicts[i]`.
pub open spec fn verdict_results(
    ports: Seq<u16>,
    verdicts: Seq<(ResultType, Option<String>)>,
) -> Seq<ScanResultView> {
    Seq::new(
        ports.len(),
        |i: int|
            ScanResultView {
                port: ports[i],
                result: verdicts[i].0,
                additional_info: info_view(verdicts[i].1),
            },
    )
}

/// `s` holds exactly one result for each port of `ports` and no other
/// result: the result that `fresh` gives for that port.
pub open spec fn one_result_per_port(
    s: Seq<ScanResultView>,
    ports: Seq<u16>,
    fresh: Seq<ScanResultView>,
) -> bool {
    &&& s.len() == ports.len()
    &&& forall|i: int| 0 <= i < ports.len() ==> s.contains(#[trigger] fresh[i])
    &&& forall|j: int| 0 <= j < s.len() ==> ports.contains(#[trigger] s[j].port)
    &&& forall|j: int, k: int| 0 <= j < s.len() && 0 <= k < s.len() && #[trigger] s[j].port == #[trigger] s[k].port ==> j == k
}

/// A scan that records one verdict for each of its ports, all different,
/// into an empty set of results, holds exactly one result per port.
pub proof fn law_one_result_per_port(
    ports: Seq<u16>,
    verdicts: Seq<(ResultType, Option<String>)>,
    s: Seq<ScanResultView>,
)
    requires
        ports.len() == verdicts.len(),
        ports.no_duplicates(),
        strictly_ascending(s),
        s.to_set() == verdict_results(ports, verdicts).to_set(),
    ensures
        one_result_per_port(s, ports, verdict_results(ports, verdicts)),
{
    let fresh = verdict_results(ports, verdicts);
    assert(fresh.no_duplicates()) by {
        assert forall|a: int, b: int| 0 <= a < fresh.len() && 0 <= b < fresh.len() && a != b
            implies fresh[a] != fresh[b] by {
            assert(fresh[a].port == ports[a] && fresh[b].port == ports[b]);
        }
    }
    assert(s.no_duplicates()) by {
        assert forall|a: int, b: int| 0 <= a < s.len() && 0 <= b < s.len() && a != b implies s[a]
            != s[b] by {
            lemma_result_lt_irreflexive(s[a]);
        }
    }
    fresh.unique_seq_to_set();
    s.unique_seq_to_set();
    assert forall|i: int| 0 <= i < ports.len() implies s.contains(#[trigger] fresh[i]) by {
        assert(fresh.to_set().contains(fresh[i]));
    }
    assert forall|j: int| 0 <= j < s.len() implies ports.contains(#[trigger] s[j].port) by {
        assert(s.to_set().contains(s[j]));
        let i = choose|i: int| 0 <= i < fresh.len() && fresh[i] == s[j];
        assert(ports[i] == s[j].port);
    }
    assert forall|j: int, k: int|
        0 <= j < s.len() && 0 <= k < s.len() && #[trigger] s[j].port == #[trigger] s[k].port implies j
        == k by {
        assert(s.to_set().contains(s[j]));
        assert(s.to_set().contains(s[k]));
        let a = choose|a: int| 0 <= a < fresh.len() && fresh[a] == s[j];
        let b = choose|b: int| 0 <= b < fresh.len() && fresh[b] == s[k];
        assert(ports[a] == ports[b]);
        if j != k {
            lemma_result_lt_irreflexive(s[j]);
        }
    }
}

/// The verdicts of a scan, kept in ascending order without duplicates.
pub struct ScanResults {
    items: Vec<ScanResult>,
}

impl View for ScanResults {
    type V = Seq<ScanResultView>;

    closed spec fn view(&self) -> Seq<ScanResultView> {
        views(self.items@)
    }
}

impl ScanResults {
    #[verifier::type_invariant]
    spec fn ascending(self) -> bool {
        strictly_ascending(views(self.items@))
    }

    /// An empty set of results.
    pub fn new() -> (r: ScanResults)
        ensures
            r@ == Seq::<ScanResultView>::empty(),
    {
        let r = ScanResults { items: Vec::new() };
        assert(views(r.items@) =~= Seq::<ScanResultView>::empty());
        r
    }

    /// Adds a result; a result equal to one already held is not added twice.
    pub fn insert(&mut self, r: ScanResult) -> (added: bool)
        ensures
            strictly_ascending(final(self)@),
            final(self)@.to_set() == old(self)@.to_set().insert(r@),
            added == !old(self)@.contains(r@),
            final(self)@.len() == old(self)@.len() + if added {
                1int
            } else {
                0int
            },
    {
        proof {
            use_type_invariant(&*self);
        }
        let mut items = Vec::new();
        std::mem::swap(&mut items, &mut self.items);
        let added = insert_sorted(&mut items, r);
        self.items = items;
        added
    }

    /// Records the verdicts of a scan: `verdicts[i]` is the verdict on
    /// `ports[i]`. When the set was empty and no port repeats, it then holds
    /// exactly one result per port.
    pub fn record_scan(&mut self, ports: &Vec<u16>, verdicts: &Vec<(ResultType, Option<String>)>)
        requires
            ports@.len() == verdicts@.len(),
        ensures
            strictly_ascending(final(self)@),
            final(self)@.to_set() == old(self)@.to_set() + verdict_results(ports@, verdicts@).to_set(),
            old(self)@.len() == 0 && ports@.no_duplicates() ==> one_result_per_port(
                final(self)@,
                ports@,
                verdict_results(ports@, verdicts@),
            ),
    {
        let ghost fresh = verdict_results(ports@, verdicts@);
        let ghost start = self@;
        let n = ports.len();
        let mut i: usize = 0;
        assert(fresh.take(0).to_set() =~= Set::<ScanResultView>::empty());
        assert(start.to_set() + Set::<ScanResultView>::empty() =~= start.to_set());
        while i < n
            invariant
                i <= n,
                n == ports@.len(),
                n == verdicts@.len(),
                fresh == verdict_results(ports@, verdicts@),
                self@.to_set() == start.to_set() + fresh.take(i as int).to_set(),
            decreases n - i,
        {
            let (kind, info) = (verdicts[i].0, &verdicts[i].1);
            let copy = match info {
                Some(m) => Some(m.clone()),
                None => None,
            };
            let r = ScanResult { port: ports[i], result: kind, additional_info: copy };
            assert(r@ == fresh[i as int]);
            self.insert(r);
            assert(fresh.take(i + 1) =~= fresh.take(i as int).push(fresh[i as int]));
            proof {
                fresh.take(i as int).lemma_push_to_set_commute(fresh[i as int]);
            }
            assert(self@.to_set() =~= start.to_set() + fresh.take(i + 1).to_set());
            i = i + 1;
        }
        assert(fresh.take(n as int) =~= fresh);
        proof {
            use_type_invariant(&*self);
            if start.len() == 0 && ports@.no_duplicates() {
                assert(start.to_set() =~= Set::<ScanResultView>::empty());
                assert(self@.to_set() =~= fresh.to_set());
                law_one_result_per_port(ports@, verdicts@, self@);
            }
        }
    }

    /// Removes every result.
    pub fn clear(&mut self)
        ensures
            final(self)@ == Seq::<ScanResultView>::empty(),
    {
        self.items = Vec::new();
        assert(views(self.items@) =~= Seq::<ScanResultView>::empty());
    }

    /// The number of results.
    pub fn len(&self) -> (n: usize)
        ensures
            n == self@.len(),
    {
        self.items.len()
    }

    /// The result at position `i` in ascending order.
    pub fn get(&self, i: usize) -> (r: &ScanResult)
        requires
            i < self@.len(),
        ensures
            r@ == self@[i as int],
    {
        &self.items[i]
    }

    /// Copies of the results of the kind `kind`, in ascending order.
    pub fn results_of(&self, kind: ResultType) -> (out: Vec<ScanResult>)
        ensures
            views(out@) == self@.filter(|v: ScanResultView| v.result == kind),
    {
        let ghost pred = |v: ScanResultView| v.result == kind;
        let mut out: Vec<ScanResult> = Vec::new();
        let n = self.items.len();
        let mut i: usize = 0;
        assert(views(out@) =~= self@.take(0).filter(pred));
        while i < n
            invariant
                i <= n,
                n == self@.len(),
                pred == (|v: ScanResultView| v.result == kind),
                views(out@) =~= self@.take(i as int).filter(pred),
            decreases n - i,
        {
            reveal_with_fuel(Seq::<_>::filter, 1);
            let item = &self.items[i];
            assert(self@.take(i + 1).drop_last() =~= self@.take(i as int));
            assert(self@.take(i + 1).last() == item@);
            let ghost before = out@;
            if item.result == kind {
                let copy = item.duplicate();
                out.push(copy);
                assert(views(out@) =~= views(before).push(item@));
            }
            i = i + 1;
        }
        assert(self@.take(n as int) =~= self@);
        out
    }
}

/// Removes every result of an earlier scan.
pub fn reset_results(results: &mut ScanResults)
    ensures
        final(results)@ == Seq::<ScanResultView>::empty(),
{
    results.clear();
}

} // verus!
