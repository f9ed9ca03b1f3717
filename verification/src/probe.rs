//! The verdict on a port from the outcome of connecting to it, and the
//! verdict from several attempts.
use vstd::prelude::*;
use crate::results::ResultType;
use crate::text::{contains_chars, occurs_at, str_contains};

verus! {

/// How an attempt to open a TCP connection ended.
pub enum ConnectOutcome {
    /// The connection was accepted.
    Connected,
    /// The host answered that nothing listens on the port.
    Refused,
    /// No answer came within the timeout.
    TimedOut,
    /// Any other failure, with its description.
    Failed(String),
}

/// The message for an attempt that timed out.
pub open spec fn timed_out_message() -> Seq<char> {
    "Connection timed out - host may be unreachable"@
}

/// The verdict on a port from the outcome of one attempt, with the message
/// that explains an error.
pub open spec fn spec_check_port(outcome: ConnectOutcome) -> (ResultType, Option<Seq<char>>) {
    match outcome {
        ConnectOutcome::Connected => (ResultType::Open, None),
        ConnectOutcome::Refused => (ResultType::Closed, None),
        ConnectOutcome::TimedOut => (ResultType::Error, Some(timed_out_message())),
        ConnectOutcome::Failed(msg) => (ResultType::Error, Some(msg@)),
    }
}

/// An attempt's verdict and message, as plain values.
pub open spec fn attempt_view(a: (ResultType, Option<String>)) -> (ResultType, Option<Seq<char>>) {
    (
        a.0,
        match a.1 {
            Some(m) => Some(m@),
            None => None,
        },
    )
}

/// Decides the verdict on a port from the outcome of one connection attempt.
pub fn check_port(outcome: ConnectOutcome) -> (r: (ResultType, Option<String>))
    ensures
        attempt_view(r) == spec_check_port(outcome),
{
    match outcome {
        ConnectOutcome::Connected => (ResultType::Open, None),
        ConnectOutcome::Refused => (ResultType::Closed, None),
        ConnectOutcome::TimedOut => (
            ResultType::Error,
            Some(String::from_str("Connection timed out - host may be unreachable")),
        ),
        ConnectOutcome::Failed(msg) => (ResultType::Error, Some(msg)),
    }
}

/// An attempt with this verdict settles the port, so no further attempt is
/// made.
pub open spec fn conclusive(r: ResultType) -> bool {
    r == ResultType::Open || r == ResultType::Closed
}

/// Tells whether an attempt with the verdict `r` settles the port.
pub fn is_conclusive(r: ResultType) -> (b: bool)
    ensures
        b == conclusive(r),
{
    r == ResultType::Open || r == ResultType::Closed
}

/// The number of attempts whose verdict is `kind`.
pub open spec fn count_kind(a: Seq<(ResultType, Option<Seq<char>>)>, kind: ResultType) -> nat
    decreases a.len(),
{
    if a.len() == 0 {
        0
    } else {
        count_kind(a.drop_last(), kind) + if a.last().0 == kind {
            1nat
        } else {
            0nat
        }
    }
}

/// The messages of the attempts, in order.
pub open spec fn messages(a: Seq<(ResultType, Option<Seq<char>>)>) -> Seq<Seq<char>>
    decreases a.len(),
{
    if a.len() == 0 {
        Seq::<Seq<char>>::empty()
    } else {
        match a.last().1 {
            Some(m) => messages(a.drop_last()).push(m),
            None => messages(a.drop_last()),
        }
    }
}

/// Every message tells of a timeout (true when there is no message).
pub open spec fn all_timeouts(msgs: Seq<Seq<char>>) -> bool {
    forall|i: int|
        0 <= i < msgs.len() ==> contains_chars(#[trigger] msgs[i], "timed out"@) || contains_chars(
            msgs[i],
            "TimedOut"@,
        )
}

/// The message of a verdict of filtered ports.
pub open spec fn all_timed_out_message() -> Seq<char> {
    "All connection attempts timed out"@
}

/// The verdict from several attempts on one port: the kind that outnumbers
/// the other two wins; otherwise errors that are all timeouts mean the port
/// is filtered; otherwise errors that outnumber both give an error with the
/// first message; a tie prefers closed, then open, then filtered.
pub open spec fn retry_verdict(a: Seq<(ResultType, Option<Seq<char>>)>) -> (
    ResultType,
    Option<Seq<char>>,
) {
    let open = count_kind(a, ResultType::Open);
    let closed = count_kind(a, ResultType::Closed);
    let error = count_kind(a, ResultType::Error);
    let msgs = messages(a);
    if open > closed && open > error {
        (ResultType::Open, None)
    } else if closed > open && closed > error {
        (ResultType::Closed, None)
    } else if error > 0 && all_timeouts(msgs) {
        (ResultType::Filtered, Some(all_timed_out_message()))
    } else if error > open && error > closed {
        (ResultType::Error, if msgs.len() > 0 { Some(msgs[0]) } else { None })
    } else if closed >= open {
        (ResultType::Closed, None)
    } else if open >= error {
        (ResultType::Open, None)
    } else {
        (ResultType::Filtered, None)
    }
}

/// The attempts, as plain values.
pub open spec fn attempt_views(a: Seq<(ResultType, Option<String>)>) -> Seq<
    (ResultType, Option<Seq<char>>),
> {
    a.map_values(|x: (ResultType, Option<String>)| attempt_view(x))
}

/// Another attempt follows the attempts `a` on a port when fewer than
/// `retries + 1` were made and none of them settled the port.
pub open spec fn may_retry(a: Seq<(ResultType, Option<Seq<char>>)>, retries: u32) -> bool {
    &&& a.len() <= retries
    &&& forall|i: int| 0 <= i < a.len() ==> !conclusive(#[trigger] a[i].0)
}

/// Tells whether another attempt follows the attempts made so far on a
/// port, given how many retries may follow the first attempt.
pub fn another_attempt(attempts: &Vec<(ResultType, Option<String>)>, retries: u32) -> (more: bool)
    ensures
        more == may_retry(attempt_views(attempts@), retries),
{
    let ghost a = attempt_views(attempts@);
    let n = attempts.len();
    if n as u64 > retries as u64 {
        return false;
    }
    let mut i: usize = 0;
    while i < n
        invariant
            i <= n,
            n == attempts@.len(),
            a == attempt_views(attempts@),
            forall|j: int| 0 <= j < i ==> !conclusive(#[trigger] a[j].0),
        decreases n - i,
    {
        assert(a[i as int].0 == attempts@[i as int].0);
        if is_conclusive(attempts[i].0) {
            return false;
        }
        i = i + 1;
    }
    true
}

/// The attempts made on a port, when `another_attempt` is asked before each
/// one, number at most `retries + 1`, and none follows an attempt that was
/// accepted or refused.
pub proof fn law_retry_plan(a: Seq<(ResultType, Option<Seq<char>>)>, retries: u32)
    requires
        forall|k: int| 0 <= k < a.len() ==> may_retry(#[trigger] a.take(k), retries),
    ensures
        a.len() <= retries + 1,
        forall|i: int| 0 <= i < a.len() - 1 ==> !conclusive(#[trigger] a[i].0),
{
    if a.len() > 0 {
        let k = a.len() - 1;
        assert(may_retry(a.take(k), retries));
        assert forall|i: int| 0 <= i < a.len() - 1 implies !conclusive(#[trigger] a[i].0) by {
            assert(a.take(k)[i] == a[i]);
        }
    }
}

/// Tells whether a message tells of a timeout.
fn tells_of_timeout(m: &String) -> (b: bool)
    ensures
        b == (contains_chars(m@, "timed out"@) || contains_chars(m@, "TimedOut"@)),
{
    str_contains(m.as_str(), "timed out") || str_contains(m.as_str(), "TimedOut")
}

/// Decides the verdict on a port from the verdicts and messages of the
/// attempts made on it, in order.
pub fn check_port_with_retries(attempts: &Vec<(ResultType, Option<String>)>) -> (r: (
    ResultType,
    Option<String>,
))
    ensures
        attempt_view(r) == retry_verdict(attempt_views(attempts@)),
{
    let ghost a = attempt_views(attempts@);
    let n = attempts.len();
    let mut open_count: usize = 0;
    let mut closed_count: usize = 0;
    let mut error_count: usize = 0;
    let mut all_timeout = true;
    let mut first_msg: Option<String> = None;
    let mut i: usize = 0;
    while i < n
        invariant
            i <= n,
            n == attempts@.len(),
            a == attempt_views(attempts@),
            open_count == count_kind(a.take(i as int), ResultType::Open),
            closed_count == count_kind(a.take(i as int), ResultType::Closed),
            error_count == count_kind(a.take(i as int), ResultType::Error),
            open_count + closed_count + error_count <= i,
            all_timeout == all_timeouts(messages(a.take(i as int))),
            match first_msg {
                Some(m) => messages(a.take(i as int)).len() > 0 && m@ == messages(
                    a.take(i as int),
                )[0],
                None => messages(a.take(i as int)).len() == 0,
            },
        decreases n - i,
    {
        let ghost prefix = a.take(i as int);
        let ghost next = a.take(i + 1);
        assert(next.drop_last() =~= prefix);
        assert(next.last() == attempt_view(attempts@[i as int]));
        let (result, msg) = (attempts[i].0, &attempts[i].1);
        if result == ResultType::Open {
            open_count = open_count + 1;
        } else if result == ResultType::Closed {
            closed_count = closed_count + 1;
        } else if result == ResultType::Error {
            error_count = error_count + 1;
        }
        match msg {
            Some(m) => {
                let timeout = tells_of_timeout(m);
                proof {
                    assert(messages(next) =~= messages(prefix).push(m@));
                    assert forall|k: int| 0 <= k < messages(prefix).len() implies messages(next)[k]
                        == messages(prefix)[k] by {}
                    if all_timeouts(messages(prefix)) && timeout {
                        assert(all_timeouts(messages(next)));
                    }
                    if !all_timeouts(messages(prefix)) {
                        let k = choose|k: int|
                            0 <= k < messages(prefix).len() && !(contains_chars(
                                #[trigger] messages(prefix)[k],
                                "timed out"@,
                            ) || contains_chars(messages(prefix)[k], "TimedOut"@));
                        assert(messages(next)[k] == messages(prefix)[k]);
                    }
                    if !timeout {
                        assert(messages(next)[messages(prefix).len() as int] == m@);
                    }
                }
                all_timeout = all_timeout && timeout;
                if first_msg.is_none() {
                    first_msg = Some(m.clone());
                }
            },
            None => {},
        }
        i = i + 1;
    }
    assert(a.take(n as int) =~= a);
    let open_count = open_count;
    if open_count > closed_count && open_count > error_count {
        (ResultType::Open, None)
    } else if closed_count > open_count && closed_count > error_count {
        (ResultType::Closed, None)
    } else if error_count > 0 && all_timeout {
        (ResultType::Filtered, Some(String::from_str("All connection attempts timed out")))
    } else if error_count > open_count && error_count > closed_count {
        (ResultType::Error, first_msg)
    } else {
        if closed_count >= open_count {
            (ResultType::Closed, None)
        } else if open_count >= error_count {
            (ResultType::Open, None)
        } else {
            (ResultType::Filtered, None)
        }
    }
}

/// The timeout message tells of a timeout.
pub proof fn lemma_timed_out_message_tells_of_timeout()
    ensures
        contains_chars(timed_out_message(), "timed out"@),
{
    reveal_strlit("Connection timed out - host may be unreachable");
    reveal_strlit("timed out");
    assert(timed_out_message().subrange(11, 20) =~= "timed out"@);
    assert(occurs_at(timed_out_message(), "timed out"@, 11));
}

/// Counting and collecting messages over attempts that all timed out.
proof fn lemma_all_timed_out_counts(a: Seq<(ResultType, Option<Seq<char>>)>)
    requires
        forall|i: int| 0 <= i < a.len() ==> #[trigger] a[i] == spec_check_port(ConnectOutcome::TimedOut),
    ensures
        count_kind(a, ResultType::Open) == 0,
        count_kind(a, ResultType::Closed) == 0,
        count_kind(a, ResultType::Error) == a.len(),
        messages(a).len() == a.len(),
        forall|i: int| 0 <= i < messages(a).len() ==> #[trigger] messages(a)[i] == timed_out_message(),
    decreases a.len(),
{
    if a.len() > 0 {
        let b = a.drop_last();
        assert forall|i: int| 0 <= i < b.len() implies #[trigger] b[i] == spec_check_port(
            ConnectOutcome::TimedOut,
        ) by {
            assert(b[i] == a[i]);
        }
        lemma_all_timed_out_counts(b);
        assert(a.last() == a[a.len() - 1]);
        assert forall|i: int| 0 <= i < messages(a).len() implies #[trigger] messages(a)[i]
            == timed_out_message() by {
            if i < messages(b).len() {
                assert(messages(a)[i] == messages(b)[i]);
            }
        }
    }
}

/// A port whose every attempt timed out is reported as filtered.
pub proof fn law_only_timeouts_mean_filtered(a: Seq<(ResultType, Option<Seq<char>>)>)
    requires
        a.len() > 0,
        forall|i: int| 0 <= i < a.len() ==> #[trigger] a[i] == spec_check_port(ConnectOutcome::TimedOut),
    ensures
        retry_verdict(a) == (ResultType::Filtered, Some(all_timed_out_message())),
{
    lemma_all_timed_out_counts(a);
    lemma_timed_out_message_tells_of_timeout();
    assert(all_timeouts(messages(a)));
}

/// When the first connection attempt is accepted or refused, no retry
/// follows it, and the verdict is the one that attempt gave.
pub proof fn law_first_answer_decides(o: ConnectOutcome)
    requires
        o is Connected || o is Refused,
    ensures
        conclusive(spec_check_port(o).0),
        retry_verdict(seq![spec_check_port(o)]) == (spec_check_port(o).0, None::<Seq<char>>),
{
    let a = seq![spec_check_port(o)];
    assert(a.drop_last() =~= Seq::<(ResultType, Option<Seq<char>>)>::empty());
    assert(a.last() == spec_check_port(o));
    let e = Seq::<(ResultType, Option<Seq<char>>)>::empty();
    assert(count_kind(e, ResultType::Open) == 0);
    assert(count_kind(e, ResultType::Closed) == 0);
    assert(count_kind(e, ResultType::Error) == 0);
    assert(messages(e).len() == 0);
    assert(count_kind(a, ResultType::Error) == 0);
    if o is Connected {
        assert(count_kind(a, ResultType::Open) == 1);
        assert(count_kind(a, ResultType::Closed) == 0);
    } else {
        assert(count_kind(a, ResultType::Open) == 0);
        assert(count_kind(a, ResultType::Closed) == 1);
    }
}

/// How many of the attempts `a` have the verdict `kind`, by filtering.
pub open spec fn tally(a: Seq<(ResultType, Option<Seq<char>>)>, kind: ResultType) -> nat {
    a.filter(|x: (ResultType, Option<Seq<char>>)| x.0 == kind).len()
}

/// Every message among the attempts `a` tells of a timeout.
pub open spec fn every_message_tells_of_timeout(a: Seq<(ResultType, Option<Seq<char>>)>) -> bool {
    forall|i: int|
        0 <= i < a.len() && (#[trigger] a[i]).1 is Some ==> contains_chars(
            a[i].1.unwrap(),
            "timed out"@,
        ) || contains_chars(a[i].1.unwrap(), "TimedOut"@)
}

/// Counting attempts of one kind step by step is counting them by filtering.
proof fn lemma_count_kind_is_tally(a: Seq<(ResultType, Option<Seq<char>>)>, kind: ResultType)
    ensures
        count_kind(a, kind) == tally(a, kind),
    decreases a.len(),
{
    reveal_with_fuel(Seq::<_>::filter, 1);
    if a.len() > 0 {
        lemma_count_kind_is_tally(a.drop_last(), kind);
    }
}

/// The messages of the attempts are their messages in order, and none other.
proof fn lemma_messages_in_order(a: Seq<(ResultType, Option<Seq<char>>)>)
    ensures
        forall|k: int|
            0 <= k < messages(a).len() ==> exists|i: int|
                0 <= i < a.len() && (#[trigger] a[i]).1 == Some(#[trigger] messages(a)[k]),
        forall|i: int|
            0 <= i < a.len() && (#[trigger] a[i]).1 is Some ==> messages(a).contains(
                a[i].1.unwrap(),
            ),
        forall|i: int|
            0 <= i < a.len() && (#[trigger] a[i]).1 is Some && (forall|j: int|
                0 <= j < i ==> a[j].1 is None) ==> messages(a).len() > 0 && messages(a)[0]
                == a[i].1.unwrap(),
    decreases a.len(),
{
    if a.len() > 0 {
        let b = a.drop_last();
        lemma_messages_in_order(b);
        let last = a.len() - 1;
        assert forall|k: int| 0 <= k < messages(a).len() implies exists|i: int|
            0 <= i < a.len() && (#[trigger] a[i]).1 == Some(#[trigger] messages(a)[k]) by {
            if k < messages(b).len() {
                assert(messages(a)[k] == messages(b)[k]);
                let i = choose|i: int| 0 <= i < b.len() && (#[trigger] b[i]).1 == Some(messages(b)[k]);
                assert(a[i] == b[i]);
            } else {
                assert(a[last].1 == Some(messages(a)[k]));
            }
        }
        assert forall|i: int| 0 <= i < a.len() && (#[trigger] a[i]).1 is Some implies messages(
            a,
        ).contains(a[i].1.unwrap()) by {
            if i < last {
                assert(b[i] == a[i]);
                let k = choose|k: int| 0 <= k < messages(b).len() && messages(b)[k] == b[i].1.unwrap();
                assert(messages(a)[k] == messages(b)[k]);
            } else {
                assert(messages(a)[messages(b).len() as int] == a[i].1.unwrap());
            }
        }
        assert forall|i: int|
            0 <= i < a.len() && (#[trigger] a[i]).1 is Some && (forall|j: int|
                0 <= j < i ==> a[j].1 is None) implies messages(a).len() > 0 && messages(a)[0]
            == a[i].1.unwrap() by {
            if i < last {
                assert(b[i] == a[i]);
                assert forall|j: int| 0 <= j < i implies b[j].1 is None by {
                    assert(b[j] == a[j]);
                }
                assert(messages(a)[0] == messages(b)[0]);
            } else {
                assert forall|j: int| 0 <= j < b.len() implies !((#[trigger] b[j]).1 is Some) by {
                    assert(b[j] == a[j]);
                }
                if messages(b).len() > 0 {
                    let j = choose|j: int| 0 <= j < b.len() && (#[trigger] b[j]).1 == Some(messages(b)[0]);
                }
            }
        }
    }
}

/// All messages tell of a timeout exactly when every attempt's message does.
proof fn lemma_all_timeouts_iff(a: Seq<(ResultType, Option<Seq<char>>)>)
    ensures
        all_timeouts(messages(a)) <==> every_message_tells_of_timeout(a),
{
    lemma_messages_in_order(a);
    if all_timeouts(messages(a)) {
        assert forall|i: int| 0 <= i < a.len() && (#[trigger] a[i]).1 is Some implies contains_chars(
            a[i].1.unwrap(),
            "timed out"@,
        ) || contains_chars(a[i].1.unwrap(), "TimedOut"@) by {
            let k = choose|k: int| 0 <= k < messages(a).len() && messages(a)[k] == a[i].1.unwrap();
        }
    }
    if every_message_tells_of_timeout(a) {
        assert forall|k: int| 0 <= k < messages(a).len() implies contains_chars(
            #[trigger] messages(a)[k],
            "timed out"@,
        ) || contains_chars(messages(a)[k], "TimedOut"@) by {
            let i = choose|i: int| 0 <= i < a.len() && (#[trigger] a[i]).1 == Some(messages(a)[k]);
        }
    }
}

/// The verdict on a port, by the counts of its attempts' kinds: a kind that
/// outnumbers both others wins; otherwise, when there was an error and every
/// message tells of a timeout, the port is filtered; otherwise, when errors
/// outnumber both others, the verdict is an error with the first message;
/// otherwise a tie prefers closed, then open, then filtered.
pub proof fn law_retry_verdict_by_counts(a: Seq<(ResultType, Option<Seq<char>>)>)
    ensures
        ({
            let open = tally(a, ResultType::Open);
            let closed = tally(a, ResultType::Closed);
            let error = tally(a, ResultType::Error);
            let v = retry_verdict(a);
            &&& open > closed && open > error ==> v == (ResultType::Open, None::<Seq<char>>)
            &&& closed > open && closed > error ==> v == (ResultType::Closed, None::<Seq<char>>)
            &&& !(open > closed && open > error) && !(closed > open && closed > error) && error > 0
                && every_message_tells_of_timeout(a) ==> v == (
                ResultType::Filtered,
                Some("All connection attempts timed out"@),
            )
            &&& !(open > closed && open > error) && !(closed > open && closed > error) && !(error
                > 0 && every_message_tells_of_timeout(a)) && error > open && error > closed ==> v.0
                == ResultType::Error && (forall|i: int|
                0 <= i < a.len() && (#[trigger] a[i]).1 is Some && (forall|j: int|
                    0 <= j < i ==> a[j].1 is None) ==> v.1 == a[i].1)
            &&& !(open > closed && open > error) && !(closed > open && closed > error) && !(error
                > 0 && every_message_tells_of_timeout(a)) && !(error > open && error > closed) ==> v
                == if closed >= open {
                (ResultType::Closed, None::<Seq<char>>)
            } else if open >= error {
                (ResultType::Open, None::<Seq<char>>)
            } else {
                (ResultType::Filtered, None::<Seq<char>>)
            }
        }),
{
    lemma_count_kind_is_tally(a, ResultType::Open);
    lemma_count_kind_is_tally(a, ResultType::Closed);
    lemma_count_kind_is_tally(a, ResultType::Error);
    lemma_all_timeouts_iff(a);
    lemma_messages_in_order(a);
}

/// One attempt that timed out followed by one that was refused (or accepted)
/// makes a filtered port: neither kind outnumbers the timeout.
pub proof fn law_timeout_then_answer_is_filtered(o: ConnectOutcome)
    requires
        o is Refused || o is Connected,
    ensures
        retry_verdict(seq![spec_check_port(ConnectOutcome::TimedOut), spec_check_port(o)]) == (
            ResultType::Filtered,
            Some("All connection attempts timed out"@),
        ),
{
    let a = seq![spec_check_port(ConnectOutcome::TimedOut), spec_check_port(o)];
    law_retry_verdict_by_counts(a);
    reveal_with_fuel(Seq::<_>::filter, 3);
    assert(a.drop_last() =~= seq![spec_check_port(ConnectOutcome::TimedOut)]);
    assert(a.drop_last().drop_last() =~= Seq::<(ResultType, Option<Seq<char>>)>::empty());
    lemma_timed_out_message_tells_of_timeout();
    assert(every_message_tells_of_timeout(a)) by {
        assert forall|i: int| 0 <= i < a.len() && (#[trigger] a[i]).1 is Some implies contains_chars(
            a[i].1.unwrap(),
            "timed out"@,
        ) || contains_chars(a[i].1.unwrap(), "TimedOut"@) by {
            assert(i == 0);
        }
    }
    assert(tally(a, ResultType::Error) == 1);
}

/// Whether another attempt follows depends only on how many attempts were
/// made and on their kinds: it follows exactly when at most `retries` were
/// made and none was accepted or refused, whatever the messages say.
pub proof fn law_retry_depends_on_count_and_kinds(
    a: Seq<(ResultType, Option<Seq<char>>)>,
    retries: u32,
)
    ensures
        may_retry(a, retries) <==> (a.len() <= retries && forall|i: int|
            0 <= i < a.len() ==> (#[trigger] a[i]).0 != ResultType::Open && a[i].0
                != ResultType::Closed),
{
}

/// An accepted connection makes an open port, a refusal a closed one, and a
/// timeout or any other failure an error, with a message that tells of the
/// timeout or is the failure's own description.
pub proof fn law_check_port_outcomes(msg: String)
    ensures
        spec_check_port(ConnectOutcome::Connected) == (ResultType::Open, None::<Seq<char>>),
        spec_check_port(ConnectOutcome::Refused) == (ResultType::Closed, None::<Seq<char>>),
        spec_check_port(ConnectOutcome::TimedOut) == (
            ResultType::Error,
            Some("Connection timed out - host may be unreachable"@),
        ),
        spec_check_port(ConnectOutcome::Failed(msg)) == (ResultType::Error, Some(msg@)),
{
}

} // verus!
