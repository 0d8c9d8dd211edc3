use vstd::prelude::*;

use crate::record::RecordView;
use crate::registry::{after_invocation, exhausted, invocation, registered, Contents};

verus! {

/// The contents after `n` successful invocations of (t, k).
pub open spec fn invoked_times(m: Contents, t: Seq<char>, k: Seq<char>, n: nat) -> Contents
    decreases n,
{
    if n == 0 {
        m
    } else {
        after_invocation(invoked_times(m, t, k, (n - 1) as nat), t, k)
    }
}

/// Registering a trigger a second time replaces its record: whatever the earlier
/// record's count was, the stored record is fresh and the next invocation returns
/// the new output and author with a count of one.
pub proof fn reregistration_replaces(
    m: Contents,
    t: Seq<char>,
    k: Seq<char>,
    o: Seq<char>,
    a: Seq<char>,
    o2: Seq<char>,
    a2: Seq<char>,
)
    ensures
        registered(registered(m, t, k, o, a), t, k, o2, a2)[(t, k)] == RecordView::fresh(o2, a2),
        !exhausted(registered(registered(m, t, k, o, a), t, k, o2, a2), t, k),
        invocation(registered(registered(m, t, k, o, a), t, k, o2, a2), t, k) == Some(
            RecordView { output: o2, author_id: a2, invocation_count: 1 },
        ),
{
}

/// Successive invocations of one registered trigger, with nothing registered or
/// removed between them, count up by one each: the j-th of them (from zero)
/// succeeds and returns the count it started with plus j + 1.
pub proof fn invocations_count_in_order(m: Contents, t: Seq<char>, k: Seq<char>, n: nat, j: nat)
    requires
        m.contains_key((t, k)),
        j < n,
        m[(t, k)].invocation_count + n <= usize::MAX,
    ensures
        !exhausted(invoked_times(m, t, k, j), t, k),
        invocation(invoked_times(m, t, k, j), t, k) == Some(
            RecordView { invocation_count: m[(t, k)].invocation_count + j + 1, ..m[(t, k)] },
        ),
{
    lemma_invoked_times(m, t, k, j);
}

proof fn lemma_invoked_times(m: Contents, t: Seq<char>, k: Seq<char>, j: nat)
    requires
        m.contains_key((t, k)),
    ensures
        invoked_times(m, t, k, j).contains_key((t, k)),
        invoked_times(m, t, k, j)[(t, k)] == (RecordView {
            invocation_count: m[(t, k)].invocation_count + j,
            ..m[(t, k)]
        }),
    decreases j,
{
    if j > 0 {
        lemma_invoked_times(m, t, k, (j - 1) as nat);
    }
}

/// Registering a command in one tenant changes nothing of what the same trigger
/// does in another tenant.
pub proof fn tenants_are_isolated(
    m: Contents,
    t1: Seq<char>,
    t2: Seq<char>,
    k: Seq<char>,
    o: Seq<char>,
    a: Seq<char>,
)
    requires
        t1 != t2,
    ensures
        invocation(registered(m, t1, k, o, a), t2, k) == invocation(m, t2, k),
        exhausted(registered(m, t1, k, o, a), t2, k) == exhausted(m, t2, k),
{
}

} // verus!
