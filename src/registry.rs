//! The table of active relays, keyed by the port that viewers connect to.
//!
//! Each entry holds the source locator, an identifier that tells one run of a
//! relay from a later run on the same port, and the relay's shutdown switch `S`
//! (an opaque handle that the caller fires once the entry is handed back).
use vstd::prelude::*;
use crate::response::{answers_start, answers_stop, StreamResponse};
use crate::text::{viewer_address, viewer_address_of};

verus! {

/// What the table records of one relay: source, relay identifier, shutdown switch.
pub type RelayView<S> = (Seq<char>, u64, S);

/// Why a relay could not be registered.
#[derive(Clone, Copy, Debug, PartialEq, Eq, Structural)]
pub enum StartError {
    /// A relay is already registered on the port.
    EndpointInUse,
    /// Every relay identifier has been handed out.
    RelayIdsExhausted,
}

/// Why a relay could not be stopped.
#[derive(Clone, Copy, Debug, PartialEq, Eq, Structural)]
pub enum StopError {
    /// No relay is registered on the port.
    NotFound,
}

struct StreamInfo<S> {
    rtsp_url: String,
    relay_id: u64,
    shutdown_tx: S,
}

/// One line of the table as reported to callers.
#[derive(Clone, Debug)]
pub struct StreamStatus {
    pub port: u16,
    pub rtsp_url: String,
    pub ws_url: String,
    pub active: bool,
}

/// The registry of active relays.
pub struct StreamManager<S> {
    streams: Vec<(u16, StreamInfo<S>)>,
    next_relay: u64,
}

spec fn ports_unique<S>(s: Seq<(u16, StreamInfo<S>)>) -> bool {
    forall|i: int, j: int|
        0 <= i < s.len() && 0 <= j < s.len() && i != j ==> #[trigger] s[i].0 != #[trigger] s[j].0
}

spec fn has_port<S>(s: Seq<(u16, StreamInfo<S>)>, p: u16) -> bool {
    exists|i: int| 0 <= i < s.len() && #[trigger] s[i].0 == p
}

spec fn slot<S>(s: Seq<(u16, StreamInfo<S>)>, p: u16) -> int {
    choose|i: int| 0 <= i < s.len() && #[trigger] s[i].0 == p
}

spec fn info_view<S>(e: StreamInfo<S>) -> RelayView<S> {
    (e.rtsp_url@, e.relay_id, e.shutdown_tx)
}

spec fn table_view<S>(s: Seq<(u16, StreamInfo<S>)>) -> Map<u16, RelayView<S>> {
    Map::new(|p: u16| has_port(s, p), |p: u16| info_view(s[slot(s, p)].1))
}

proof fn lemma_slot<S>(s: Seq<(u16, StreamInfo<S>)>, i: int)
    requires
        ports_unique(s),
        0 <= i < s.len(),
    ensures
        has_port(s, s[i].0),
        slot(s, s[i].0) == i,
        table_view(s).contains_key(s[i].0),
        table_view(s)[s[i].0] == info_view(s[i].1),
{
    assert(has_port(s, s[i].0));
    let j = slot(s, s[i].0);
    assert(s[j].0 == s[i].0);
}

proof fn lemma_push<S>(s: Seq<(u16, StreamInfo<S>)>, e: (u16, StreamInfo<S>))
    requires
        ports_unique(s),
        !has_port(s, e.0),
    ensures
        ports_unique(s.push(e)),
        table_view(s.push(e)) == table_view(s).insert(e.0, info_view(e.1)),
{
    let t = s.push(e);
    assert forall|i: int, j: int|
        0 <= i < t.len() && 0 <= j < t.len() && i != j implies #[trigger] t[i].0 != #[trigger] t[j].0 by {
        if i < s.len() && j < s.len() {
            assert(t[i] == s[i] && t[j] == s[j]);
        } else if i < s.len() {
            assert(t[i] == s[i]);
        } else {
            assert(t[j] == s[j]);
        }
    }
    let a = table_view(t);
    let b = table_view(s).insert(e.0, info_view(e.1));
    assert forall|p: u16| #[trigger] a.contains_key(p) == b.contains_key(p) by {
        if has_port(t, p) {
            let i = slot(t, p);
            if i < s.len() {
                assert(t[i] == s[i]);
            }
        }
        if has_port(s, p) {
            let i = slot(s, p);
            assert(t[i] == s[i]);
        }
        if p == e.0 {
            assert(t[s.len() as int] == e);
        }
    }
    assert forall|p: u16| #[trigger] a.contains_key(p) implies a[p] == b[p] by {
        let i = slot(t, p);
        lemma_slot(t, i);
        if i < s.len() {
            assert(t[i] == s[i]);
            lemma_slot(s, i);
        } else {
            assert(t[i] == e);
        }
    }
    assert(a =~= b);
}

proof fn lemma_remove<S>(s: Seq<(u16, StreamInfo<S>)>, k: int)
    requires
        ports_unique(s),
        0 <= k < s.len(),
    ensures
        ports_unique(s.remove(k)),
        table_view(s.remove(k)) == table_view(s).remove(s[k].0),
{
    let t = s.remove(k);
    let p0 = s[k].0;
    assert forall|i: int| 0 <= i < t.len() implies #[trigger] t[i] == s[if i < k { i } else { i + 1 }] by {}
    assert forall|i: int, j: int|
        0 <= i < t.len() && 0 <= j < t.len() && i != j implies #[trigger] t[i].0 != #[trigger] t[j].0 by {
        let i2 = if i < k { i } else { i + 1 };
        let j2 = if j < k { j } else { j + 1 };
        assert(t[i] == s[i2] && t[j] == s[j2]);
    }
    let a = table_view(t);
    let b = table_view(s).remove(p0);
    assert forall|p: u16| #[trigger] a.contains_key(p) == b.contains_key(p) by {
        if has_port(t, p) {
            let i = slot(t, p);
            let i2 = if i < k { i } else { i + 1 };
            assert(t[i] == s[i2]);
            assert(s[i2].0 == p);
            assert(i2 != k);
        }
        if has_port(s, p) && p != p0 {
            let i = slot(s, p);
            assert(i != k);
            let i1 = if i < k { i } else { i - 1 };
            assert(t[i1] == s[i]);
        }
    }
    assert forall|p: u16| #[trigger] a.contains_key(p) implies a[p] == b[p] by {
        let i = slot(t, p);
        lemma_slot(t, i);
        let i2 = if i < k { i } else { i + 1 };
        assert(t[i] == s[i2]);
        lemma_slot(s, i2);
    }
    assert(a =~= b);
}

/// What a start request on `port` comes to, given the table `m` and the next
/// free relay identifier.
pub open spec fn start_outcome<S>(m: Map<u16, RelayView<S>>, next_relay: u64, port: u16) -> Result<
    u64,
    StartError,
> {
    if m.contains_key(port) {
        Err(StartError::EndpointInUse)
    } else if next_relay == u64::MAX {
        Err(StartError::RelayIdsExhausted)
    } else {
        Ok(next_relay)
    }
}

/// The table after a start request that came to `r`.
pub open spec fn table_after_start<S>(
    m: Map<u16, RelayView<S>>,
    port: u16,
    url: Seq<char>,
    switch: S,
    r: Result<u64, StartError>,
) -> Map<u16, RelayView<S>> {
    match r {
        Ok(id) => m.insert(port, (url, id, switch)),
        Err(_) => m,
    }
}

/// What a stop request on `port` comes to, given the table `m`.
pub open spec fn stop_outcome<S>(m: Map<u16, RelayView<S>>, port: u16) -> Result<S, StopError> {
    if m.contains_key(port) {
        Ok(m[port].2)
    } else {
        Err(StopError::NotFound)
    }
}

/// The table after a stop request on `port`.
pub open spec fn table_after_stop<S>(m: Map<u16, RelayView<S>>, port: u16) -> Map<u16, RelayView<S>> {
    m.remove(port)
}

/// Whether the relay `id`, on leaving, finds its own entry on `port` in `m`.
pub open spec fn owns_entry<S>(m: Map<u16, RelayView<S>>, port: u16, id: u64) -> bool {
    m.contains_key(port) && m[port].1 == id
}

/// Two start requests on a free port, in either order and with any sources:
/// the first succeeds, the second is refused with `EndpointInUse` and changes
/// nothing, and the table holds exactly the first relay on that port.
pub proof fn lemma_start_twice<S>(
    m: Map<u16, RelayView<S>>,
    next_relay: u64,
    port: u16,
    url1: Seq<char>,
    sw1: S,
    url2: Seq<char>,
    sw2: S,
)
    requires
        !m.contains_key(port),
        next_relay < u64::MAX,
    ensures
        ({
            let r1 = start_outcome(m, next_relay, port);
            let m1 = table_after_start(m, port, url1, sw1, r1);
            let r2 = start_outcome(m1, (next_relay + 1) as u64, port);
            &&& r1 == Ok::<u64, StartError>(next_relay)
            &&& r2 == Err::<u64, StartError>(StartError::EndpointInUse)
            &&& table_after_start(m1, port, url2, sw2, r2) == m1
            &&& m1.contains_key(port)
            &&& m1[port] == (url1, next_relay, sw1)
        }),
{
}

/// A stop request on a port with no relay is refused with `NotFound` and
/// changes nothing, however often it is made.
pub proof fn lemma_stop_absent<S>(m: Map<u16, RelayView<S>>, port: u16)
    requires
        !m.contains_key(port),
    ensures
        stop_outcome(m, port) == Err::<S, StopError>(StopError::NotFound),
        table_after_stop(m, port) == m,
{
    assert(m.remove(port) =~= m);
}

/// After a stop request, the port is free: a second stop is refused with
/// `NotFound`, and no other relay was touched.
pub proof fn lemma_stop_twice<S>(m: Map<u16, RelayView<S>>, port: u16)
    ensures
        !table_after_stop(m, port).contains_key(port),
        stop_outcome(table_after_stop(m, port), port) == Err::<S, StopError>(StopError::NotFound),
        table_after_stop(table_after_stop(m, port), port) == table_after_stop(m, port),
        forall|p: u16|
            p != port && m.contains_key(p) ==> #[trigger] table_after_stop(m, port).contains_key(p)
                && table_after_stop(m, port)[p] == m[p],
{
    lemma_stop_absent(table_after_stop(m, port), port);
}

/// After a stop, a start on the same port succeeds with any source, and the
/// stopped relay, when it ends, does not remove the new entry.
pub proof fn lemma_restart_after_stop<S>(
    m: Map<u16, RelayView<S>>,
    next_relay: u64,
    port: u16,
    url: Seq<char>,
    sw: S,
    old_relay: u64,
)
    requires
        next_relay < u64::MAX,
        old_relay < next_relay,
    ensures
        ({
            let m1 = table_after_stop(m, port);
            let r = start_outcome(m1, next_relay, port);
            let m2 = table_after_start(m1, port, url, sw, r);
            &&& r == Ok::<u64, StartError>(next_relay)
            &&& m2.contains_key(port)
            &&& m2[port] == (url, next_relay, sw)
            &&& !owns_entry(m2, port, old_relay)
        }),
{
}

/// Every relay in a well-formed table has an identifier below the next one
/// to be handed out, so a relay that was stopped never owns a later entry.
pub proof fn lemma_ids_below_next<S>(t: &StreamManager<S>)
    requires
        t.wf(),
    ensures
        forall|p: u16| #[trigger] t@.contains_key(p) ==> t@[p].1 < t.next_relay_id(),
{
    assert forall|p: u16| #[trigger] t@.contains_key(p) implies t@[p].1 < t.next_relay_id() by {
        let i = slot(t.streams@, p);
        lemma_slot(t.streams@, i);
    }
}

impl<S> StreamManager<S> {
    /// The relays in the table, by port.
    pub closed spec fn view(&self) -> Map<u16, RelayView<S>> {
        table_view(self.streams@)
    }

    /// The identifier that the next started relay will get.
    pub closed spec fn next_relay_id(&self) -> u64 {
        self.next_relay
    }

    /// At most one entry per port, and every recorded identifier already handed out.
    pub closed spec fn wf(&self) -> bool {
        &&& ports_unique(self.streams@)
        &&& forall|i: int|
            0 <= i < self.streams@.len() ==> #[trigger] self.streams@[i].1.relay_id
                < self.next_relay
    }

    /// An empty table.
    pub fn new() -> (r: Self)
        ensures
            r.wf(),
            r@ == Map::<u16, RelayView<S>>::empty(),
            r.next_relay_id() == 0,
    {
        let r = StreamManager { streams: Vec::new(), next_relay: 0 };
        assert(r@ =~= Map::<u16, RelayView<S>>::empty());
        r
    }

    fn find(&self, port: u16) -> (r: Option<usize>)
        requires
            self.wf(),
        ensures
            match r {
                Some(i) => i < self.streams@.len() && self.streams@[i as int].0 == port,
                None => !self@.contains_key(port),
            },
    {
        let mut i: usize = 0;
        while i < self.streams.len()
            invariant
                i <= self.streams@.len(),
                forall|j: int| 0 <= j < i ==> #[trigger] self.streams@[j].0 != port,
            decreases self.streams@.len() - i,
        {
            if self.streams[i].0 == port {
                return Some(i);
            }
            i = i + 1;
        }
        proof {
            if has_port(self.streams@, port) {
                let j = slot(self.streams@, port);
                assert(self.streams@[j].0 == port);
            }
        }
        None
    }

    /// Whether a relay is registered on `port`.
    pub fn contains(&self, port: u16) -> (r: bool)
        requires
            self.wf(),
        ensures
            r == self@.contains_key(port),
    {
        match self.find(port) {
            Some(i) => {
                proof {
                    lemma_slot(self.streams@, i as int);
                }
                true
            },
            None => false,
        }
    }

    /// Registers a relay for `rtsp_url` on `ws_port`, with its shutdown switch.
    /// The check for an existing entry and the insertion are one step.
    pub fn start(&mut self, rtsp_url: String, ws_port: u16, shutdown_tx: S) -> (r: Result<
        u64,
        StartError,
    >)
        requires
            old(self).wf(),
        ensures
            final(self).wf(),
            r == start_outcome(old(self)@, old(self).next_relay_id(), ws_port),
            final(self)@ == table_after_start(old(self)@, ws_port, rtsp_url@, shutdown_tx, r),
            final(self).next_relay_id() == (match r {
                Ok(_) => (old(self).next_relay_id() + 1) as u64,
                Err(_) => old(self).next_relay_id(),
            }),
    {
        if self.contains(ws_port) {
            return Err(StartError::EndpointInUse);
        }
        if self.next_relay == u64::MAX {
            return Err(StartError::RelayIdsExhausted);
        }
        let id = self.next_relay;
        let ghost s0 = self.streams@;
        let entry = (ws_port, StreamInfo { rtsp_url, relay_id: id, shutdown_tx });
        proof {
            lemma_push(s0, entry);
        }
        self.streams.push(entry);
        self.next_relay = id + 1;
        assert(self.streams@ == s0.push(entry));
        assert forall|i: int| 0 <= i < self.streams@.len() implies #[trigger] self.streams@[i].1.relay_id
            < self.next_relay by {
            if i < s0.len() {
                assert(self.streams@[i] == s0[i]);
            }
        }
        Ok(id)
    }

    /// Removes the relay on `ws_port` and hands back its shutdown switch, to be
    /// fired by the caller.
    pub fn stop(&mut self, ws_port: u16) -> (r: Result<S, StopError>)
        requires
            old(self).wf(),
        ensures
            final(self).wf(),
            r == stop_outcome(old(self)@, ws_port),
            final(self)@ == table_after_stop(old(self)@, ws_port),
            final(self).next_relay_id() == old(self).next_relay_id(),
    {
        match self.find(ws_port) {
            Some(i) => {
                let ghost s0 = self.streams@;
                proof {
                    lemma_slot(s0, i as int);
                    lemma_remove(s0, i as int);
                }
                let (_, info) = self.streams.remove(i);
                assert forall|j: int| 0 <= j < self.streams@.len() implies #[trigger] self.streams@[j].1.relay_id
                    < self.next_relay by {
                    let j2 = if j < i { j } else { j + 1 };
                    assert(self.streams@[j] == s0[j2]);
                }
                Ok(info.shutdown_tx)
            },
            None => {
                assert(old(self)@.remove(ws_port) =~= old(self)@);
                Err(StopError::NotFound)
            },
        }
    }

    /// Called by the relay `relay_id` when it ends on its own: removes its entry
    /// if it is still there. An entry of a later relay on the same port stays.
    pub fn relay_exited(&mut self, ws_port: u16, relay_id: u64) -> (r: bool)
        requires
            old(self).wf(),
        ensures
            final(self).wf(),
            r == owns_entry(old(self)@, ws_port, relay_id),
            final(self)@ == (if r {
                old(self)@.remove(ws_port)
            } else {
                old(self)@
            }),
            final(self).next_relay_id() == old(self).next_relay_id(),
    {
        match self.find(ws_port) {
            Some(i) => {
                proof {
                    lemma_slot(self.streams@, i as int);
                }
                if self.streams[i].1.relay_id == relay_id {
                    let _ = self.stop(ws_port);
                    true
                } else {
                    false
                }
            },
            None => false,
        }
    }

    /// A start request as the lifecycle interface makes it: registers the
    /// relay if the port is free, and answers with the viewer address or the
    /// reason for refusal. The relay identifier comes back beside the answer.
    pub fn start_stream(&mut self, rtsp_url: String, ws_port: u16, shutdown_tx: S) -> (r: (
        StreamResponse,
        Result<u64, StartError>,
    ))
        requires
            old(self).wf(),
        ensures
            final(self).wf(),
            r.1 == start_outcome(old(self)@, old(self).next_relay_id(), ws_port),
            final(self)@ == table_after_start(old(self)@, ws_port, rtsp_url@, shutdown_tx, r.1),
            answers_start(r.0, ws_port, r.1),
            final(self).next_relay_id() == (match r.1 {
                Ok(_) => (old(self).next_relay_id() + 1) as u64,
                Err(_) => old(self).next_relay_id(),
            }),
    {
        let outcome = self.start(rtsp_url, ws_port, shutdown_tx);
        (StreamResponse::for_start(ws_port, &outcome), outcome)
    }

    /// A stop request as the lifecycle interface makes it: removes the relay
    /// and answers; the relay's shutdown switch comes back beside the answer,
    /// to be fired.
    pub fn stop_stream(&mut self, ws_port: u16) -> (r: (StreamResponse, Result<S, StopError>))
        requires
            old(self).wf(),
        ensures
            final(self).wf(),
            r.1 == stop_outcome(old(self)@, ws_port),
            final(self)@ == table_after_stop(old(self)@, ws_port),
            answers_stop(r.0, ws_port, r.1),
            final(self).next_relay_id() == old(self).next_relay_id(),
    {
        let outcome = self.stop(ws_port);
        (StreamResponse::for_stop(ws_port, &outcome), outcome)
    }

    /// A snapshot of the table: one status per relay, each marked active.
    pub fn get_active_streams(&self) -> (r: Vec<StreamStatus>)
        requires
            self.wf(),
        ensures
            r@.len() == self@.dom().len(),
            forall|i: int|
                0 <= i < r@.len() ==> {
                    &&& self@.contains_key(#[trigger] r@[i].port)
                    &&& r@[i].rtsp_url@ == self@[r@[i].port].0
                    &&& r@[i].ws_url@ == viewer_address_of(r@[i].port)
                    &&& r@[i].active
                },
            forall|p: u16| #[trigger]
                self@.contains_key(p) ==> exists|i: int| 0 <= i < r@.len() && r@[i].port == p,
            forall|i: int, j: int|
                0 <= i < r@.len() && 0 <= j < r@.len() && i != j ==> #[trigger] r@[i].port
                    != #[trigger] r@[j].port,
    {
        let mut out: Vec<StreamStatus> = Vec::new();
        let mut i: usize = 0;
        while i < self.streams.len()
            invariant
                self.wf(),
                i <= self.streams@.len(),
                out@.len() == i,
                forall|j: int|
                    0 <= j < i ==> {
                        &&& (#[trigger] out@[j]).port == self.streams@[j].0
                        &&& out@[j].rtsp_url@ == self.streams@[j].1.rtsp_url@
                        &&& out@[j].ws_url@ == viewer_address_of(out@[j].port)
                        &&& out@[j].active
                    },
            decreases self.streams@.len() - i,
        {
            let port = self.streams[i].0;
            let status = StreamStatus {
                port,
                rtsp_url: self.streams[i].1.rtsp_url.clone(),
                ws_url: viewer_address(port),
                active: true,
            };
            out.push(status);
            i = i + 1;
        }
        let ghost s = self.streams@;
        assert forall|j: int| 0 <= j < out@.len() implies {
            &&& self@.contains_key(#[trigger] out@[j].port)
            &&& out@[j].rtsp_url@ == self@[out@[j].port].0
        } by {
            lemma_slot(s, j);
        }
        assert forall|p: u16| #[trigger] self@.contains_key(p) implies exists|j: int|
            0 <= j < out@.len() && out@[j].port == p by {
            let j = slot(s, p);
            assert(out@[j].port == p);
        }
        proof {
            lemma_dom_len(s);
        }
        out
    }
}

proof fn lemma_dom_len<S>(s: Seq<(u16, StreamInfo<S>)>)
    requires
        ports_unique(s),
    ensures
        table_view(s).dom().len() == s.len(),
        table_view(s).dom().finite(),
    decreases s.len(),
{
    if s.len() == 0 {
        assert(table_view(s).dom() =~= Set::<u16>::empty());
    } else {
        let k = (s.len() - 1) as int;
        lemma_remove(s, k);
        lemma_slot(s, k);
        let t = s.remove(k);
        lemma_dom_len(t);
        assert(table_view(s).dom() =~= table_view(t).dom().insert(s[k].0));
    }
}

} // verus!
