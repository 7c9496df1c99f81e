//! The external "has this player joined" lookup, polled once per tick so
//! that the tick never waits on the network.
use vstd::prelude::*;
use vstd::string::StringExecFns;
use vstd::utf8::encode_utf8;
use crate::crypto::sha1_of;
use crate::utils::{digest_text, mc_hex_digest};

verus! {

/// One signed property of a joined player's profile.
pub struct MojangHasJoinedResponseProperties {
    pub name: String,
    pub value: String,
    pub signature: String,
}

/// The profile the session service returns for a player who has joined.
pub struct MojangHasJoinedResponse {
    pub id: String,
    pub name: String,
    pub properties: Vec<MojangHasJoinedResponseProperties>,
}

/// Why a lookup gave no profile.
#[derive(Clone, Copy, Debug, PartialEq, Eq, Structural)]
pub enum MojangError {
    ConnectionError,
}

/// Where a lookup stands.
pub enum AuthStatus {
    /// Sent, with no answer yet.
    InFlight,
    /// Answered with a profile.
    Ready(MojangHasJoinedResponse),
    /// Answered with an error.
    Failed(MojangError),
}

/// What a finished lookup means for the client it was made for.
pub enum AuthOutcome {
    /// The player has joined: login may complete.
    Joined(MojangHasJoinedResponse),
    /// The service could not confirm the player.
    Failed(MojangError),
    /// No answer came in time.
    TimedOut,
}

/// One outstanding lookup.
pub struct Pending {
    pub client_id: u32,
    pub request_id: u64,
    pub username: String,
    pub status: AuthStatus,
    /// Ticks polled since it was submitted.
    pub age: u32,
}

/// The set of outstanding lookups, bounded in number and in age.
pub struct AuthPoller {
    pub pending: Vec<Pending>,
    pub next_request: u64,
    /// Polls an unanswered lookup survives; the next one reports it as timed
    /// out.
    pub timeout_ticks: u32,
    /// Most lookups that may be outstanding at once.
    pub max_pending: usize,
}

/// Whether the next poll removes `p`: it was answered, or its time is up.
pub open spec fn finished(p: Pending, timeout: u32) -> bool {
    !(p.status is InFlight) || p.age >= timeout
}

/// `p` one tick older.
pub open spec fn aged(p: Pending) -> Pending {
    Pending {
        client_id: p.client_id,
        request_id: p.request_id,
        username: p.username,
        status: p.status,
        age: (p.age + 1) as u32,
    }
}

/// The client of a finished lookup and what its answer means.
pub open spec fn outcome_of(p: Pending) -> (u32, AuthOutcome) {
    match p.status {
        AuthStatus::Ready(r) => (p.client_id, AuthOutcome::Joined(r)),
        AuthStatus::Failed(e) => (p.client_id, AuthOutcome::Failed(e)),
        AuthStatus::InFlight => (p.client_id, AuthOutcome::TimedOut),
    }
}

/// The lookups of `s` that a poll keeps, in order, one tick older.
pub open spec fn kept(s: Seq<Pending>, timeout: u32) -> Seq<Pending>
    decreases s.len(),
{
    if s.len() == 0 {
        Seq::empty()
    } else if finished(s.last(), timeout) {
        kept(s.drop_last(), timeout)
    } else {
        kept(s.drop_last(), timeout).push(aged(s.last()))
    }
}

/// The outcomes a poll of `s` hands out, in order.
pub open spec fn done(s: Seq<Pending>, timeout: u32) -> Seq<(u32, AuthOutcome)>
    decreases s.len(),
{
    if s.len() == 0 {
        Seq::empty()
    } else if finished(s.last(), timeout) {
        done(s.drop_last(), timeout).push(outcome_of(s.last()))
    } else {
        done(s.drop_last(), timeout)
    }
}

/// The lookups of `s` made for clients other than `client_id`.
pub open spec fn without_client(s: Seq<Pending>, client_id: u32) -> Seq<Pending>
    decreases s.len(),
{
    if s.len() == 0 {
        Seq::empty()
    } else if s.last().client_id == client_id {
        without_client(s.drop_last(), client_id)
    } else {
        without_client(s.drop_last(), client_id).push(s.last())
    }
}

impl AuthPoller {
    /// No lookup has survived more polls than the timeout, and there are no
    /// more of them than the bound.
    pub open spec fn wf(&self) -> bool {
        &&& self.timeout_ticks >= 1
        &&& self.pending@.len() <= self.max_pending
        &&& forall|i: int| 0 <= i < self.pending@.len() ==> #[trigger] self.pending@[i].age
            <= self.timeout_ticks
    }

    /// An empty poller whose lookups fail after `timeout_ticks` polls, with
    /// at most `max_pending` of them outstanding.
    pub fn new(timeout_ticks: u32, max_pending: usize) -> (r: AuthPoller)
        requires
            timeout_ticks >= 1,
        ensures
            r.wf(),
            r.pending@.len() == 0,
            r.next_request == 0,
            r.timeout_ticks == timeout_ticks,
            r.max_pending == max_pending,
    {
        AuthPoller { pending: Vec::new(), next_request: 0, timeout_ticks, max_pending }
    }

    /// Records a lookup for `client_id`, to be sent by the caller, and
    /// returns its request id; `None`, recording nothing, when the bound on
    /// outstanding lookups is reached or request ids are used up.
    pub fn submit(&mut self, client_id: u32, username: String) -> (r: Option<u64>)
        requires
            old(self).wf(),
        ensures
            final(self).wf(),
            final(self).timeout_ticks == old(self).timeout_ticks,
            final(self).max_pending == old(self).max_pending,
            old(self).pending@.len() < old(self).max_pending && old(self).next_request < u64::MAX
                ==> {
                &&& r == Some(old(self).next_request)
                &&& final(self).next_request == old(self).next_request + 1
                &&& final(self).pending@ == old(self).pending@.push(
                    Pending {
                        client_id,
                        request_id: old(self).next_request,
                        username,
                        status: AuthStatus::InFlight,
                        age: 0,
                    },
                )
            },
            !(old(self).pending@.len() < old(self).max_pending && old(self).next_request
                < u64::MAX) ==> r is None && final(self).pending@ == old(self).pending@
                && final(self).next_request == old(self).next_request,
    {
        if self.pending.len() >= self.max_pending || self.next_request == u64::MAX {
            return None;
        }
        let request_id = self.next_request;
        self.pending.push(
            Pending { client_id, request_id, username, status: AuthStatus::InFlight, age: 0 },
        );
        self.next_request = request_id + 1;
        Some(request_id)
    }

    /// Stores the answer to lookup `request_id` for the next poll; false,
    /// changing nothing, when no unanswered lookup has that id.
    pub fn complete(
        &mut self,
        request_id: u64,
        result: Result<MojangHasJoinedResponse, MojangError>,
    ) -> (r: bool)
        requires
            old(self).wf(),
        ensures
            final(self).wf(),
            final(self).timeout_ticks == old(self).timeout_ticks,
            final(self).max_pending == old(self).max_pending,
            final(self).next_request == old(self).next_request,
            final(self).pending@.len() == old(self).pending@.len(),
            r == exists|i: int|
                0 <= i < old(self).pending@.len() && old(self).pending@[i].request_id
                    == request_id && old(self).pending@[i].status is InFlight,
            r ==> exists|i: int|
                0 <= i < old(self).pending@.len() && old(self).pending@[i].request_id
                    == request_id && old(self).pending@[i].status is InFlight
                    && final(self).pending@ == old(self).pending@.update(
                    i,
                    Pending {
                        client_id: old(self).pending@[i].client_id,
                        request_id,
                        username: old(self).pending@[i].username,
                        status: match result {
                            Ok(p) => AuthStatus::Ready(p),
                            Err(e) => AuthStatus::Failed(e),
                        },
                        age: old(self).pending@[i].age,
                    },
                ),
            !r ==> final(self).pending@ == old(self).pending@,
    {
        let n = self.pending.len();
        let mut i: usize = 0;
        while i < n
            invariant
                n == self.pending@.len(),
                self.pending@ == old(self).pending@,
                self.timeout_ticks == old(self).timeout_ticks,
                self.max_pending == old(self).max_pending,
                self.next_request == old(self).next_request,
                old(self).wf(),
                i <= n,
                forall|j: int|
                    0 <= j < i ==> !(#[trigger] self.pending@[j].request_id == request_id
                        && self.pending@[j].status is InFlight),
            decreases n - i,
        {
            if self.pending[i].request_id == request_id && matches!(
                self.pending[i].status,
                AuthStatus::InFlight
            ) {
                let status = match result {
                    Ok(p) => AuthStatus::Ready(p),
                    Err(e) => AuthStatus::Failed(e),
                };
                let username = self.pending[i].username.clone();
                let entry = Pending {
                    client_id: self.pending[i].client_id,
                    request_id,
                    username,
                    status,
                    age: self.pending[i].age,
                };
                self.pending[i] = entry;
                proof {
                    assert(self.pending@ == old(self).pending@.update(i as int, self.pending@[i as int]));
                    assert(old(self).pending@[i as int].request_id == request_id
                        && old(self).pending@[i as int].status is InFlight);
                    assert forall|j: int| 0 <= j < self.pending@.len() implies #[trigger] self.pending@[j].age
                        <= self.timeout_ticks by {
                        assert(old(self).pending@[j].age <= old(self).timeout_ticks);
                    }
                }
                return true;
            }
            i = i + 1;
        }
        false
    }

    /// Looks once at every outstanding lookup, without waiting on any of
    /// them: the answered ones, and those whose time is up, leave the set
    /// and their outcomes are returned in order; the others stay, one tick
    /// older.
    pub fn poll_once(&mut self) -> (r: Vec<(u32, AuthOutcome)>)
        requires
            old(self).wf(),
        ensures
            final(self).wf(),
            final(self).timeout_ticks == old(self).timeout_ticks,
            final(self).max_pending == old(self).max_pending,
            final(self).next_request == old(self).next_request,
            final(self).pending@ == kept(old(self).pending@, old(self).timeout_ticks),
            r@ == done(old(self).pending@, old(self).timeout_ticks),
    {
        let ghost s = self.pending@;
        let timeout = self.timeout_ticks;
        let mut rest: Vec<Pending> = Vec::new();
        std::mem::swap(&mut rest, &mut self.pending);
        let mut out: Vec<(u32, AuthOutcome)> = Vec::new();
        let n = rest.len();
        let mut i: usize = 0;
        while i < n
            invariant
                s == old(self).pending@,
                timeout == old(self).timeout_ticks,
                n == s.len(),
                i <= n,
                rest@ == s.subrange(i as int, n as int),
                self.pending@ == kept(s.subrange(0, i as int), timeout),
                out@ == done(s.subrange(0, i as int), timeout),
                self.timeout_ticks == old(self).timeout_ticks,
                self.max_pending == old(self).max_pending,
                self.next_request == old(self).next_request,
                self.pending@.len() <= i,
                n <= self.max_pending,
                forall|j: int| 0 <= j < n ==> #[trigger] s[j].age <= timeout,
                forall|j: int| 0 <= j < self.pending@.len() ==> #[trigger] self.pending@[j].age <= timeout,
            decreases n - i,
        {
            let p = rest.remove(0);
            proof {
                assert(s.subrange(0, i + 1).drop_last() == s.subrange(0, i as int));
                assert(s.subrange(0, i + 1).last() == s[i as int]);
                assert(rest@ == s.subrange(i + 1, n as int));
            }
            let answered = !matches!(p.status, AuthStatus::InFlight);
            if answered || p.age >= timeout {
                let outcome = match p.status {
                    AuthStatus::Ready(r) => AuthOutcome::Joined(r),
                    AuthStatus::Failed(e) => AuthOutcome::Failed(e),
                    AuthStatus::InFlight => AuthOutcome::TimedOut,
                };
                out.push((p.client_id, outcome));
            } else {
                self.pending.push(
                    Pending {
                        client_id: p.client_id,
                        request_id: p.request_id,
                        username: p.username,
                        status: p.status,
                        age: p.age + 1,
                    },
                );
            }
            i = i + 1;
        }
        assert(s.subrange(0, n as int) == s);
        out
    }

    /// Drops every lookup made for `client_id`, whose connection has closed,
    /// without reporting any of them.
    pub fn discard_client(&mut self, client_id: u32)
        requires
            old(self).wf(),
        ensures
            final(self).wf(),
            final(self).timeout_ticks == old(self).timeout_ticks,
            final(self).max_pending == old(self).max_pending,
            final(self).next_request == old(self).next_request,
            final(self).pending@ == without_client(old(self).pending@, client_id),
    {
        let ghost s = self.pending@;
        let mut rest: Vec<Pending> = Vec::new();
        std::mem::swap(&mut rest, &mut self.pending);
        let n = rest.len();
        let mut i: usize = 0;
        while i < n
            invariant
                s == old(self).pending@,
                n == s.len(),
                i <= n,
                rest@ == s.subrange(i as int, n as int),
                self.pending@ == without_client(s.subrange(0, i as int), client_id),
                self.timeout_ticks == old(self).timeout_ticks,
                self.max_pending == old(self).max_pending,
                self.next_request == old(self).next_request,
                self.pending@.len() <= i,
                n <= self.max_pending,
                forall|j: int| 0 <= j < n ==> #[trigger] s[j].age <= self.timeout_ticks,
                forall|j: int|
                    0 <= j < self.pending@.len() ==> #[trigger] self.pending@[j].age
                        <= self.timeout_ticks,
            decreases n - i,
        {
            let p = rest.remove(0);
            proof {
                assert(s.subrange(0, i + 1).drop_last() == s.subrange(0, i as int));
                assert(s.subrange(0, i + 1).last() == s[i as int]);
                assert(rest@ == s.subrange(i + 1, n as int));
            }
            if p.client_id != client_id {
                self.pending.push(p);
            }
            i = i + 1;
        }
        assert(s.subrange(0, n as int) == s);
    }
}

/// The address of the session service's "has joined" lookup for
/// `username`: the name, and the digest of the name as server id.
pub fn has_joined_url(username: &String) -> (r: String)
    ensures
        exists|digest: Seq<char>|
            encode_utf8(digest) == digest_text(sha1_of(encode_utf8(username@))) && r@
                == "https://sessionserver.mojang.com/session/minecraft/hasJoined?username="@
                + username@ + "&serverId="@ + digest,
{
    let digest = mc_hex_digest(username.as_str());
    let mut url = String::from_str(
        "https://sessionserver.mojang.com/session/minecraft/hasJoined?username=",
    );
    url.append(username.as_str());
    url.append("&serverId=");
    url.append(digest.as_str());
    url
}

/// A poll before any answer has come in, and before any lookup's time is
/// up (a lookup just submitted has survived no poll, so its time is never
/// up), reports nothing and keeps every lookup: no client learns anything
/// from it.
pub proof fn lemma_poll_before_answer(s: Seq<Pending>, timeout: u32)
    requires
        forall|i: int|
            0 <= i < s.len() ==> (#[trigger] s[i]).status is InFlight && s[i].age < timeout,
    ensures
        done(s, timeout).len() == 0,
        kept(s, timeout).len() == s.len(),
        forall|i: int|
            0 <= i < s.len() ==> #[trigger] kept(s, timeout)[i] == aged(s[i]),
    decreases s.len(),
{
    if s.len() > 0 {
        let t = s.drop_last();
        assert forall|i: int| 0 <= i < t.len() implies (#[trigger] t[i]).status is InFlight
            && t[i].age < timeout by {
            assert(t[i] == s[i]);
        }
        lemma_poll_before_answer(t, timeout);
        assert(s.last() == s[s.len() - 1]);
        assert forall|i: int| 0 <= i < s.len() implies #[trigger] kept(s, timeout)[i] == aged(
            s[i],
        ) by {
            if i < s.len() - 1 {
                assert(t[i] == s[i]);
            }
        }
    }
}

} // verus!
