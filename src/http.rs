//! The HTTP transport's part that needs no network: its session, the status code
//! of each response, and the table in which responses wait for their requests.

use vstd::prelude::*;

use crate::brp::{BrpError, BrpId, BrpResponse, BrpResponseContent};
use crate::session::RemoteSessions;
use crate::{RemoteSerializationFormat, RemoteSession};

verus! {

/// The label of the HTTP transport's session.
pub const HTTP_SESSION_LABEL: &'static str = "HTTP";

/// The HTTP transport, which exchanges JSON requests and responses.
pub struct HttpRemotePlugin;

impl HttpRemotePlugin {
    /// Opens the HTTP session, in the JSON format. `None` when a session with its
    /// label is open already.
    pub fn build(&self, sessions: &mut RemoteSessions) -> (r: Option<RemoteSession>)
        requires
            old(sessions).wf(),
        ensures
            final(sessions).wf(),
            r.is_some() <==> forall|i: int| 0 <= i < old(sessions).sessions@.len()
                ==> old(sessions).sessions@[i].label@ != HTTP_SESSION_LABEL@,
            r.is_some() ==> r.unwrap().label@ == HTTP_SESSION_LABEL@
                && r.unwrap().serialization_format == RemoteSerializationFormat::Json,
            r.is_none() ==> final(sessions).sessions@ == old(sessions).sessions@,
    {
        sessions.open(HTTP_SESSION_LABEL.to_string(), RemoteSerializationFormat::Json)
    }
}

/// The HTTP status code of an error.
pub open spec fn error_status(e: BrpError) -> u16 {
    match e {
        BrpError::EntityNotFound => 404,
        BrpError::ComponentNotFound(_) => 404,
        BrpError::Timeout => 408,
        BrpError::InternalError => 500,
        BrpError::Unimplemented => 501,
        BrpError::ComponentAmbiguous(_) => 409,
        BrpError::MissingTypeId(_) => 415,
        BrpError::MissingTypeRegistration(_) => 415,
        BrpError::MissingReflect(_) => 415,
        BrpError::ComponentInvalidAccess(_) => 423,
        _ => 400,
    }
}

/// The HTTP status code of a response: 200 for success, else by its error.
pub fn status_code(response: &BrpResponse) -> (r: u16)
    ensures
        r == match response.response {
            BrpResponseContent::Error(e) => error_status(e),
            _ => 200,
        },
{
    match &response.response {
        BrpResponseContent::Error(e) => match e {
            BrpError::EntityNotFound => 404,
            BrpError::ComponentNotFound(_) => 404,
            BrpError::Timeout => 408,
            BrpError::InternalError => 500,
            BrpError::Unimplemented => 501,
            BrpError::ComponentAmbiguous(_) => 409,
            BrpError::MissingTypeId(_) => 415,
            BrpError::MissingTypeRegistration(_) => 415,
            BrpError::MissingReflect(_) => 415,
            BrpError::ComponentInvalidAccess(_) => 423,
            _ => 400,
        },
        _ => 200,
    }
}

/// Responses that reached a waiter other than their own, kept by request
/// identifier until their own waiter claims them; and the requests whose waiters
/// gave up, whose responses are dropped instead of kept.
pub struct PendingResponses {
    pub parked: Vec<BrpResponse>,
    pub abandoned: Vec<BrpId>,
}

impl PendingResponses {
    /// No two parked responses answer the same request, no request is abandoned
    /// twice, and no parked response answers an abandoned request.
    pub open spec fn wf(&self) -> bool {
        &&& forall|i: int, j: int|
            #![trigger self.parked@[i], self.parked@[j]]
            0 <= i < self.parked@.len() && 0 <= j < self.parked@.len() && i != j
                ==> self.parked@[i].id != self.parked@[j].id
        &&& self.abandoned@.no_duplicates()
        &&& forall|i: int| 0 <= i < self.parked@.len() ==> !self.abandoned@.contains(#[trigger] self.parked@[i].id)
    }

    /// Whether a response to the request `id` is parked.
    pub open spec fn holds(&self, id: BrpId) -> bool {
        exists|i: int| 0 <= i < self.parked@.len() && self.parked@[i].id == id
    }

    /// An empty table.
    pub fn new() -> (r: PendingResponses)
        ensures
            r.wf(),
            r.parked@.len() == 0,
            r.abandoned@.len() == 0,
    {
        PendingResponses { parked: Vec::new(), abandoned: Vec::new() }
    }

    fn abandoned_position(&self, id: BrpId) -> (r: Option<usize>)
        ensures
            r.is_some() <==> self.abandoned@.contains(id),
            r.is_some() ==> r.unwrap() < self.abandoned@.len() && self.abandoned@[r.unwrap() as int] == id,
    {
        let mut i: usize = 0;
        while i < self.abandoned.len()
            invariant
                i <= self.abandoned@.len(),
                forall|j: int| 0 <= j < i ==> self.abandoned@[j] != id,
            decreases self.abandoned@.len() - i,
        {
            if self.abandoned[i] == id {
                return Some(i);
            }
            i = i + 1;
        }
        None
    }

    fn position(&self, id: BrpId) -> (r: Option<usize>)
        ensures
            r.is_some() <==> self.holds(id),
            r.is_some() ==> r.unwrap() < self.parked@.len() && self.parked@[r.unwrap() as int].id == id,
    {
        let mut i: usize = 0;
        while i < self.parked.len()
            invariant
                i <= self.parked@.len(),
                forall|j: int| 0 <= j < i ==> self.parked@[j].id != id,
            decreases self.parked@.len() - i,
        {
            if self.parked[i].id == id {
                return Some(i);
            }
            i = i + 1;
        }
        None
    }

    fn store(&mut self, response: BrpResponse)
        requires
            old(self).wf(),
            !old(self).abandoned@.contains(response.id),
        ensures
            final(self).wf(),
            final(self).abandoned == old(self).abandoned,
            exists|i: int| 0 <= i < final(self).parked@.len() && final(self).parked@[i] == response,
            forall|id: BrpId| id != response.id ==> (final(self).holds(id) == old(self).holds(id)),
    {
        let ghost before = self.parked@;
        let ghost rid = response.id;
        match self.position(response.id) {
            Some(i) => {
                self.parked.set(i, response);
                assert(self.parked@[i as int].id == rid);
                assert forall|id: BrpId| id != rid implies (self.holds(id) == old(self).holds(id)) by {
                    if old(self).holds(id) {
                        let m = choose|m: int| 0 <= m < before.len() && before[m].id == id;
                        assert(self.parked@[m].id == id);
                    }
                    if self.holds(id) {
                        let m = choose|m: int| 0 <= m < self.parked@.len() && self.parked@[m].id == id;
                        assert(before[m].id == id);
                    }
                }
            },
            None => {
                self.parked.push(response);
                let ghost n = before.len() as int;
                assert(self.parked@[n].id == rid);
                assert forall|id: BrpId| id != rid implies (self.holds(id) == old(self).holds(id)) by {
                    if old(self).holds(id) {
                        let m = choose|m: int| 0 <= m < before.len() && before[m].id == id;
                        assert(self.parked@[m].id == id);
                    }
                    if self.holds(id) {
                        let m = choose|m: int| 0 <= m < self.parked@.len() && self.parked@[m].id == id;
                        assert(before[m].id == id);
                    }
                }
            },
        }
    }

    /// Takes the parked response to the request `id`, if there is one.
    pub fn claim(&mut self, id: BrpId) -> (r: Option<BrpResponse>)
        requires
            old(self).wf(),
        ensures
            final(self).wf(),
            r.is_some() <==> old(self).holds(id),
            r.is_some() ==> r.unwrap().id == id
                && exists|i: int| 0 <= i < old(self).parked@.len() && old(self).parked@[i] == r.unwrap()
                    && final(self).parked@ == old(self).parked@.remove(i),
            r.is_none() ==> final(self).parked@ == old(self).parked@,
            !final(self).holds(id),
            final(self).abandoned == old(self).abandoned,
    {
        match self.position(id) {
            None => None,
            Some(i) => {
                let ghost before = self.parked@;
                let r = self.parked.remove(i);
                assert(self.parked@ == before.remove(i as int));
                assert forall|a: int, b: int|
                    0 <= a < self.parked@.len() && 0 <= b < self.parked@.len() && a != b
                        implies #[trigger] self.parked@[a].id != #[trigger] self.parked@[b].id by {
                    let a0 = if a < i { a } else { a + 1 };
                    let b0 = if b < i { b } else { b + 1 };
                    assert(self.parked@[a] == before[a0]);
                    assert(self.parked@[b] == before[b0]);
                }
                assert(!self.holds(id)) by {
                    if self.holds(id) {
                        let m = choose|m: int| 0 <= m < self.parked@.len() && self.parked@[m].id == id;
                        let m0 = if m < i { m } else { m + 1 };
                        assert(self.parked@[m] == before[m0]);
                        assert(before[m0].id == before[i as int].id);
                    }
                }
                Some(r)
            },
        }
    }
}

impl PendingResponses {
    /// Parks a response until its waiter claims it; it takes the place of an
    /// earlier response to the same request. A response to an abandoned request
    /// is dropped, and the request is no longer counted as abandoned.
    pub fn park(&mut self, response: BrpResponse)
        requires
            old(self).wf(),
        ensures
            final(self).wf(),
            old(self).abandoned@.contains(response.id) ==> final(self).parked@ == old(self).parked@
                && !final(self).abandoned@.contains(response.id)
                && forall|other: BrpId| other != response.id
                    ==> (final(self).abandoned@.contains(other) == old(self).abandoned@.contains(other)),
            !old(self).abandoned@.contains(response.id) ==> final(self).abandoned == old(self).abandoned
                && exists|i: int| 0 <= i < final(self).parked@.len() && final(self).parked@[i] == response,
            forall|id: BrpId| id != response.id ==> (final(self).holds(id) == old(self).holds(id)),
    {
        match self.abandoned_position(response.id) {
            Some(i) => {
                let ghost before = self.abandoned@;
                let rid = response.id;
                self.abandoned.remove(i);
                proof {
                    let after = self.abandoned@;
                    assert(after == before.remove(i as int));
                    assert forall|j: int| 0 <= j < after.len() implies #[trigger] after[j] == before[if j < i { j } else { j + 1 }] by {}
                    assert(!after.contains(rid)) by {
                        if after.contains(rid) {
                            let j = choose|j: int| 0 <= j < after.len() && after[j] == rid;
                            let j0 = if j < i { j } else { j + 1 };
                            assert(before[j0] == before[i as int]);
                        }
                    }
                    assert forall|other: BrpId| other != rid implies (after.contains(other) == before.contains(other)) by {
                        if before.contains(other) {
                            let j = choose|j: int| 0 <= j < before.len() && before[j] == other;
                            assert(j != i);
                            let j1 = if j < i { j } else { j - 1 };
                            assert(after[j1] == other);
                        }
                        if after.contains(other) {
                            let j = choose|j: int| 0 <= j < after.len() && after[j] == other;
                            let j0 = if j < i { j } else { j + 1 };
                            assert(before[j0] == other);
                        }
                    }
                    assert(after.no_duplicates()) by {
                        assert forall|a: int, b: int| 0 <= a < after.len() && 0 <= b < after.len() && a != b implies after[a] != after[b] by {
                            let a0 = if a < i { a } else { a + 1 };
                            let b0 = if b < i { b } else { b + 1 };
                            assert(after[a] == before[a0] && after[b] == before[b0]);
                        }
                    }
                    assert forall|j: int| 0 <= j < self.parked@.len() implies !after.contains(#[trigger] self.parked@[j].id) by {
                        assert(!before.contains(self.parked@[j].id));
                    }
                }
            },
            None => self.store(response),
        }
    }

    /// Gives up on the request `id`: its response is dropped, whether it is
    /// parked now or arrives later.
    pub fn abandon(&mut self, id: BrpId)
        requires
            old(self).wf(),
        ensures
            final(self).wf(),
            !final(self).holds(id),
            old(self).holds(id) ==> final(self).abandoned == old(self).abandoned,
            !old(self).holds(id) ==> final(self).abandoned@.contains(id),
            forall|other: BrpId| other != id ==> (final(self).holds(other) == old(self).holds(other)),
    {
        if self.position(id).is_some() {
            let ghost before = *self;
            let dropped = self.claim(id);
            proof {
                let i = choose|i: int| 0 <= i < before.parked@.len() && before.parked@[i] == dropped.unwrap()
                    && self.parked@ == before.parked@.remove(i);
                assert forall|other: BrpId| other != id implies (self.holds(other) == before.holds(other)) by {
                    if before.holds(other) {
                        let j = choose|j: int| 0 <= j < before.parked@.len() && before.parked@[j].id == other;
                        assert(j != i);
                        let j1 = if j < i { j } else { j - 1 };
                        assert(self.parked@[j1] == before.parked@[j]);
                    }
                    if self.holds(other) {
                        let j = choose|j: int| 0 <= j < self.parked@.len() && self.parked@[j].id == other;
                        let j0 = if j < i { j } else { j + 1 };
                        assert(self.parked@[j] == before.parked@[j0]);
                    }
                }
            }
        } else if self.abandoned_position(id).is_none() {
            let ghost before = self.abandoned@;
            self.abandoned.push(id);
            proof {
                let after = self.abandoned@;
                assert(after[before.len() as int] == id);
                assert(after.no_duplicates()) by {
                    assert forall|a: int, b: int| 0 <= a < after.len() && 0 <= b < after.len() && a != b implies after[a] != after[b] by {
                        if a < before.len() && b < before.len() {
                            assert(after[a] == before[a] && after[b] == before[b]);
                        } else if a < before.len() {
                            assert(after[a] == before[a]);
                        } else if b < before.len() {
                            assert(after[b] == before[b]);
                        }
                    }
                }
                assert forall|j: int| 0 <= j < self.parked@.len() implies !after.contains(#[trigger] self.parked@[j].id) by {
                    let pid = self.parked@[j].id;
                    assert(pid != id);
                    assert(!before.contains(pid));
                    if after.contains(pid) {
                        let m = choose|m: int| 0 <= m < after.len() && after[m] == pid;
                        if m < before.len() {
                            assert(before[m] == pid);
                        }
                    }
                }
            }
        }
    }
}

/// What the waiter for request `id` does with a response it took off the
/// channel: keeps it if it answers its own request, else parks it for the waiter
/// whose request it answers.
pub fn route_response(pending: &mut PendingResponses, id: BrpId, response: BrpResponse) -> (r: Option<BrpResponse>)
    requires
        old(pending).wf(),
    ensures
        final(pending).wf(),
        response.id == id ==> r == Some(response) && final(pending).parked@ == old(pending).parked@
            && final(pending).abandoned == old(pending).abandoned,
        response.id != id ==> r.is_none()
            && (!old(pending).abandoned@.contains(response.id) ==> exists|i: int|
                0 <= i < final(pending).parked@.len() && final(pending).parked@[i] == response)
            && (old(pending).abandoned@.contains(response.id) ==> !final(pending).holds(response.id))
            && forall|other: BrpId| other != response.id ==> (final(pending).holds(other) == old(pending).holds(other)),
{
    if response.id == id {
        Some(response)
    } else {
        let ghost rid = response.id;
        pending.park(response);
        proof {
            if old(pending).abandoned@.contains(rid) {
                assert(!old(pending).holds(rid)) by {
                    if old(pending).holds(rid) {
                        let j = choose|j: int| 0 <= j < old(pending).parked@.len() && old(pending).parked@[j].id == rid;
                        assert(!old(pending).abandoned@.contains(old(pending).parked@[j].id));
                    }
                }
            }
        }
        None
    }
}

} // verus!
