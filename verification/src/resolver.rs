use vstd::prelude::*;
use vstd::string::*;
use crate::errors::HttpError;
use crate::strutil::str_to_string;

verus! {

/// An IP address as plain values: the four octets of a v4 address or
/// the eight groups of a v6 address.
#[derive(Debug, Clone, Copy, PartialEq, Eq, Structural)]
pub enum IpAddress {
    V4(u8, u8, u8, u8),
    V6(u16, u16, u16, u16, u16, u16, u16, u16),
}

/// What arrives first while a lookup races its timer: the lookup's
/// addresses, the lookup's failure, or the timer.
pub enum ResolveEvent {
    Resolved(Vec<IpAddress>),
    LookupFailed,
    TimedOut,
}

/// The resolver's decision once one outcome of the race is observed.
/// Exactly one outcome is acted on; there is no retry. A successful
/// lookup passes its addresses through unchanged, an empty list
/// included; a failed lookup is a resolution failure; the timer firing
/// first is a timeout error carrying the hostname and the timeout.
pub fn resolve_outcome(host: &str, timeout_ms: u64, ev: ResolveEvent) -> (r: Result<
    Vec<IpAddress>,
    HttpError,
>)
    ensures
        ev matches ResolveEvent::Resolved(addrs) ==> (r matches Ok(a) && a@ == addrs@),
        ev matches ResolveEvent::LookupFailed ==> (r matches Err(HttpError::ResolveFailed {
            host: h,
        }) && h@ == host@),
        ev matches ResolveEvent::TimedOut ==> (r matches Err(HttpError::ResolveTimedOut {
            host: h,
            timeout_ms: t,
        }) && h@ == host@ && t == timeout_ms),
{
    match ev {
        ResolveEvent::Resolved(addrs) => Ok(addrs),
        ResolveEvent::LookupFailed => Err(HttpError::ResolveFailed { host: str_to_string(host) }),
        ResolveEvent::TimedOut => Err(
            HttpError::ResolveTimedOut { host: str_to_string(host), timeout_ms },
        ),
    }
}

/// Where the connector stands: how many candidates were tried and how
/// many there are. Candidates are tried strictly in resolution order.
pub struct ConnectState {
    pub next: usize,
    pub total: usize,
}

/// What the connector does next: try the candidate at an index, or
/// give up because every candidate was tried.
#[derive(Debug, Clone, Copy, PartialEq, Eq, Structural)]
pub enum ConnectAction {
    Attempt(usize),
    GiveUp,
}

/// Start working through this many candidate addresses.
pub fn connect_init(total: usize) -> (r: ConnectState)
    ensures
        r.next == 0,
        r.total == total,
{
    ConnectState { next: 0, total }
}

/// The next step: the first untried candidate, in order; giving up
/// once none is left. An empty candidate list gives up at once.
pub fn connect_next(st: &ConnectState) -> (a: ConnectAction)
    ensures
        st.next < st.total ==> a == ConnectAction::Attempt(st.next),
        st.next >= st.total ==> a == ConnectAction::GiveUp,
{
    if st.next < st.total {
        ConnectAction::Attempt(st.next)
    } else {
        ConnectAction::GiveUp
    }
}

/// Record that the current attempt failed; the connector moves on to
/// the next candidate. Per-attempt failures are reported, not fatal.
pub fn connect_failed(st: &mut ConnectState)
    requires
        old(st).next < old(st).total,
    ensures
        final(st).next == old(st).next + 1,
        final(st).total == old(st).total,
{
    st.next += 1;
}

/// The index of the first reachable candidate: the first true outcome.
pub open spec fn spec_first_success(outcomes: Seq<bool>) -> Option<int>
    decreases outcomes.len(),
{
    if outcomes.len() == 0 {
        None
    } else if outcomes[0] {
        Some(0)
    } else {
        match spec_first_success(outcomes.drop_first()) {
            Some(i) => Some(i + 1),
            None => None,
        }
    }
}

proof fn lemma_first_success_skip(outcomes: Seq<bool>, i: int)
    requires
        0 <= i <= outcomes.len(),
        forall|j: int| 0 <= j < i ==> !outcomes[j],
    ensures
        spec_first_success(outcomes) == match spec_first_success(outcomes.skip(i)) {
            Some(k) => Some(k + i),
            None => None::<int>,
        },
    decreases i,
{
    if i == 0 {
        assert(outcomes.skip(0) =~= outcomes);
    } else {
        lemma_first_success_skip(outcomes, i - 1);
        let t = outcomes.skip(i - 1);
        assert(t[0] == outcomes[i - 1]);
        assert(!outcomes[i - 1]);
        assert(t.drop_first() =~= outcomes.skip(i));
    }
}

/// Run the connector over given per-candidate outcomes: try each in
/// order, move past failures, stop at the first success. The result is
/// the index of the first reachable candidate, none when all fail.
pub fn first_reachable(outcomes: &Vec<bool>) -> (r: Option<usize>)
    ensures
        r matches Some(i) ==> spec_first_success(outcomes@) == Some(i as int),
        r is None ==> spec_first_success(outcomes@) is None,
{
    let mut st = connect_init(outcomes.len());
    loop
        invariant
            st.total == outcomes@.len(),
            0 <= st.next <= st.total,
            forall|j: int| 0 <= j < st.next ==> !outcomes@[j],
        decreases st.total - st.next,
    {
        match connect_next(&st) {
            ConnectAction::Attempt(i) => {
                if outcomes[i] {
                    proof {
                        lemma_first_success_skip(outcomes@, i as int);
                        assert(outcomes@.skip(i as int)[0] == outcomes@[i as int]);
                    }
                    return Some(i);
                }
                connect_failed(&mut st);
            },
            ConnectAction::GiveUp => {
                proof {
                    lemma_first_success_skip(outcomes@, st.next as int);
                    assert(outcomes@.skip(st.next as int) =~= Seq::<bool>::empty());
                }
                return None;
            },
        }
    }
}

/// Law (ordered failover): when only the last of the candidates is
/// reachable, the connector's answer is exactly that last candidate,
/// after the first N-1 attempts each failed and advanced it by one.
pub proof fn lemma_connector_failover(outcomes: Seq<bool>)
    requires
        outcomes.len() > 0,
        forall|j: int| 0 <= j < outcomes.len() - 1 ==> !outcomes[j],
        outcomes.last(),
    ensures
        spec_first_success(outcomes) == Some(outcomes.len() - 1),
{
    lemma_first_success_skip(outcomes, outcomes.len() - 1);
    let t = outcomes.skip(outcomes.len() - 1);
    assert(t.len() == 1);
    assert(t[0] == outcomes.last());
}

/// Law (no reachable candidate): when every attempt fails, the
/// connector gives up with no connection, also on an empty list.
pub proof fn lemma_connector_exhaustion(outcomes: Seq<bool>)
    requires
        forall|j: int| 0 <= j < outcomes.len() ==> !outcomes[j],
    ensures
        spec_first_success(outcomes) is None,
{
    lemma_first_success_skip(outcomes, outcomes.len() as int);
    assert(outcomes.skip(outcomes.len() as int) =~= Seq::<bool>::empty());
}

} // verus!
