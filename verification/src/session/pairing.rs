//! Request/response pairing state machine: pure functions over
//! [`PairingState`].
//!
//! RTU has no transaction id, so we key pending requests by slave address
//! (Modbus convention: one outstanding request per slave at a time). When a
//! response arrives it is matched to the pending request for that slave; if
//! the request already timed out, the late response becomes an ORPHAN. **No
//! received frame is ever discarded**, see [`on_frame`].
//!
//! RTU is half-duplex: a new request, to whatever slave, means that no request
//! before it can still be answered in time. A pending request to the same slave
//! is closed by a timeout entry, one to another slave by a no-response entry.

use std::collections::{HashMap, VecDeque};

use vstd::prelude::*;

use crate::protocol::frame::{FrameModel, ModbusFrame};
use crate::protocol::pdu::{ParsedModel, ParsedPdu, Role};
use crate::session::model;
use crate::session::model::{Entry, EntryModel};
use crate::time::Timestamp;

verus! {

broadcast use vstd::std_specs::hash::group_hash_axioms;

/// Maximum number of timed-out requests retained per slave for late-response
/// matching. Overflow drops the oldest *association* only; the late response
/// itself would still be displayed (as an unsolicited ORPHAN).
pub const TIMED_OUT_PER_SLAVE: usize = 32;

/// A request awaiting a response (or, after timeout, awaiting a late one).
#[derive(Debug)]
pub struct PendingReq {
    pub opened_at: Timestamp,
    pub counter: u64,
    pub slave: u8,
    pub parsed: ParsedPdu,
    pub raw: Vec<u8>,
}

/// The requests in flight and the ones given up on.
#[derive(Debug)]
pub struct PairingState {
    pub next_counter: u64,
    /// In milliseconds.
    pub response_timeout: u64,
    pub pending: HashMap<u8, PendingReq>,
    pub timed_out: HashMap<u8, VecDeque<PendingReq>>,
}

// --- models ------------------------------------------------------------------

/// What a [`PendingReq`] holds.
#[verifier::ext_equal]
pub struct PendingModel {
    pub opened_at: Timestamp,
    pub counter: u64,
    pub slave: u8,
    pub parsed: ParsedModel,
    pub raw: Seq<u8>,
}

/// What a [`PairingState`] holds.
#[verifier::ext_equal]
pub struct PairingModel {
    pub next_counter: u64,
    pub response_timeout: u64,
    pub pending: Map<u8, PendingModel>,
    pub timed_out: Map<u8, Seq<PendingModel>>,
}

impl View for PendingReq {
    type V = PendingModel;

    open spec fn view(&self) -> PendingModel {
        PendingModel {
            opened_at: self.opened_at,
            counter: self.counter,
            slave: self.slave,
            parsed: self.parsed@,
            raw: self.raw@,
        }
    }
}

impl Clone for PendingReq {
    fn clone(&self) -> (r: Self)
        ensures
            r@ == self@,
    {
        let raw = self.raw.clone();
        assert(raw@ =~= self.raw@);
        PendingReq {
            opened_at: self.opened_at,
            counter: self.counter,
            slave: self.slave,
            parsed: self.parsed.clone(),
            raw,
        }
    }
}

/// The requests of a queue.
pub open spec fn queue_view(q: Seq<PendingReq>) -> Seq<PendingModel> {
    Seq::new(q.len(), |i: int| q[i]@)
}

/// The requests of a map.
pub open spec fn pending_view(m: Map<u8, PendingReq>) -> Map<u8, PendingModel> {
    Map::new(|s: u8| m.contains_key(s), |s: u8| m[s]@)
}

/// The queues of a map.
pub open spec fn queues_view(m: Map<u8, VecDeque<PendingReq>>) -> Map<u8, Seq<PendingModel>> {
    Map::new(|s: u8| m.contains_key(s), |s: u8| queue_view(m[s]@))
}

impl View for PairingState {
    type V = PairingModel;

    open spec fn view(&self) -> PairingModel {
        PairingModel {
            next_counter: self.next_counter,
            response_timeout: self.response_timeout,
            pending: pending_view(self.pending@),
            timed_out: queues_view(self.timed_out@),
        }
    }
}

// --- what happens to the state -----------------------------------------------

/// The state in which a capture starts.
pub open spec fn clean_state(response_timeout: u64) -> PairingModel {
    PairingModel {
        next_counter: 1,
        response_timeout,
        pending: Map::empty(),
        timed_out: Map::empty(),
    }
}

/// The queue of a slave, empty where there is none.
pub open spec fn queue_of(timed_out: Map<u8, Seq<PendingModel>>, slave: u8) -> Seq<PendingModel> {
    if timed_out.contains_key(slave) {
        timed_out[slave]
    } else {
        Seq::empty()
    }
}

/// A queue with one more request at its end, cut at the front to the limit.
pub open spec fn queue_with(q: Seq<PendingModel>, req: PendingModel) -> Seq<PendingModel> {
    let longer = q.push(req);
    if longer.len() > TIMED_OUT_PER_SLAVE {
        longer.skip(longer.len() - TIMED_OUT_PER_SLAVE)
    } else {
        longer
    }
}

/// The queues after each request of `gone` has joined the queue of its slave.
pub open spec fn queues_with(
    timed_out: Map<u8, Seq<PendingModel>>,
    gone: Map<u8, PendingModel>,
) -> Map<u8, Seq<PendingModel>> {
    Map::new(
        |s: u8| timed_out.contains_key(s) || gone.contains_key(s),
        |s: u8|
            if gone.contains_key(s) {
                queue_with(queue_of(timed_out, s), gone[s])
            } else {
                timed_out[s]
            },
    )
}

/// The state after the requests of `gone` have left the pending ones.
pub open spec fn retired(m: PairingModel, gone: Map<u8, PendingModel>) -> PairingModel {
    PairingModel {
        pending: m.pending.remove_keys(gone.dom()),
        timed_out: queues_with(m.timed_out, gone),
        ..m
    }
}

/// The part of a map below a slave address.
pub open spec fn below(reqs: Map<u8, PendingModel>, limit: int) -> Map<u8, PendingModel> {
    reqs.restrict(Set::new(|s: u8| s < limit))
}

/// The counters of some requests, in the order of their slaves' addresses,
/// as far as these are below a limit.
pub open spec fn counters_below(reqs: Map<u8, PendingModel>, limit: int) -> Seq<u64>
    decreases limit,
{
    if limit <= 0 {
        Seq::empty()
    } else if reqs.contains_key((limit - 1) as u8) {
        counters_below(reqs, limit - 1).push(reqs[(limit - 1) as u8].counter)
    } else {
        counters_below(reqs, limit - 1)
    }
}

/// The counters of some requests, in the order of their slaves' addresses.
pub open spec fn counters_of(reqs: Map<u8, PendingModel>) -> Seq<u64> {
    counters_below(reqs, 256)
}

/// One timeout entry for each counter.
pub open spec fn timeouts(now: Timestamp, counters: Seq<u64>) -> Seq<EntryModel> {
    Seq::new(counters.len(), |i: int| model::timeout_entry(now, counters[i]))
}

/// One no-response entry for each counter.
pub open spec fn no_responses(now: Timestamp, counters: Seq<u64>) -> Seq<EntryModel> {
    Seq::new(counters.len(), |i: int| model::no_response_entry(now, counters[i]))
}

/// The role of a frame in its context: the one that it shows, and where that is
/// open, a response if a request to its slave is pending, else a request.
pub open spec fn role_in_context(m: PairingModel, slave: u8, role: Role) -> Role {
    match role {
        Role::Unknown => if m.pending.contains_key(slave) {
            Role::Response
        } else {
            Role::Request
        },
        shown => shown,
    }
}

/// Whether a frame is a request in its context.
pub open spec fn is_request(m: PairingModel, slave: u8, role: Role) -> bool {
    role_in_context(m, slave, role) == Role::Request
}

/// Whether a frame takes a new counter.
pub open spec fn takes_counter(m: PairingModel, slave: u8, role: Role) -> bool {
    is_request(m, slave, role) || !m.pending.contains_key(slave) && queue_of(
        m.timed_out,
        slave,
    ).len() == 0
}

/// The state after a frame.
pub open spec fn state_after(
    m: PairingModel,
    frame: FrameModel,
    parsed: ParsedModel,
) -> PairingModel {
    let slave = frame.slave;
    let next = (m.next_counter + 1) as u64;
    let queue = queue_of(m.timed_out, slave);
    if is_request(m, slave, parsed.role) {
        PairingModel {
            next_counter: next,
            pending: map![slave => PendingModel {
                opened_at: frame.timestamp,
                counter: m.next_counter,
                slave,
                parsed,
                raw: frame.raw,
            }],
            ..retired(m, m.pending)
        }
    } else if m.pending.contains_key(slave) {
        PairingModel { pending: m.pending.remove(slave), ..m }
    } else if queue.len() > 1 {
        PairingModel { timed_out: m.timed_out.insert(slave, queue.skip(1)), ..m }
    } else if queue.len() == 1 {
        PairingModel { timed_out: m.timed_out.remove(slave), ..m }
    } else {
        PairingModel { next_counter: next, timed_out: m.timed_out.remove(slave), ..m }
    }
}

/// The entries that a frame gives. A request closes what is pending, first for
/// its own slave, then for the others, and comes last itself.
pub open spec fn entries_after(
    m: PairingModel,
    frame: FrameModel,
    parsed: ParsedModel,
    now: Timestamp,
) -> Seq<EntryModel> {
    let slave = frame.slave;
    let ts = frame.timestamp;
    let queue = queue_of(m.timed_out, slave);
    if is_request(m, slave, parsed.role) {
        let own = m.pending.restrict(set![slave]);
        let others = m.pending.remove(slave);
        (timeouts(now, counters_of(own)) + no_responses(now, counters_of(others))).push(
            model::request_entry(ts, m.next_counter, frame.raw, slave, parsed),
        )
    } else if m.pending.contains_key(slave) {
        seq![model::response_entry(ts, m.pending[slave].counter, frame.raw, slave, parsed)]
    } else if queue.len() > 0 {
        seq![
            model::orphan_entry(ts, queue[0].counter, frame.raw, slave, parsed, queue[0].parsed),
        ]
    } else {
        seq![model::unsolicited_entry(ts, m.next_counter, frame.raw, slave, parsed)]
    }
}

/// The pending requests whose time is up.
pub open spec fn expired(m: PairingModel, now: Timestamp) -> Map<u8, PendingModel> {
    m.pending.restrict(
        Set::new(|s: u8| now.millis_after(m.pending[s].opened_at) > m.response_timeout),
    )
}

// --- functions ---------------------------------------------------------------

impl PairingState {
    /// Nothing pending, nothing timed out, counting from 1.
    pub fn new(response_timeout: u64) -> (r: Self)
        ensures
            r@ == clean_state(response_timeout),
    {
        let r = PairingState {
            next_counter: 1,
            response_timeout,
            pending: HashMap::new(),
            timed_out: HashMap::new(),
        };
        assert(r@ =~= clean_state(response_timeout));
        r
    }

    /// Reset all state (used on Stop so the next Start is clean).
    pub fn reset(&mut self)
        ensures
            final(self)@ == clean_state(old(self)@.response_timeout),
    {
        self.next_counter = 1;
        self.pending.clear();
        self.timed_out.clear();
        assert(self@ =~= clean_state(old(self)@.response_timeout));
    }

    /// Resolve the role of a frame to a slave: exception responses are always
    /// responses; otherwise use the inferred role, falling back to context (a
    /// pending request implies the next frame for that slave is its response).
    pub fn settle_role(&self, slave: u8, role: Role) -> (r: Role)
        ensures
            r == role_in_context(self@, slave, role),
    {
        match role {
            Role::Unknown => {
                let waiting = self.pending.contains_key(&slave);
                assert(waiting == self@.pending.contains_key(slave));
                if waiting {
                    Role::Response
                } else {
                    Role::Request
                }
            },
            shown => shown,
        }
    }

    /// Move the pending request of a slave to its queue. Returns its counter.
    fn retire(&mut self, slave: u8) -> (r: u64)
        requires
            old(self)@.pending.contains_key(slave),
        ensures
            r == old(self)@.pending[slave].counter,
            final(self)@ == (PairingModel {
                pending: old(self)@.pending.remove(slave),
                timed_out: old(self)@.timed_out.insert(
                    slave,
                    queue_with(queue_of(old(self)@.timed_out, slave), old(self)@.pending[slave]),
                ),
                ..old(self)@
            }),
    {
        let ghost before = self@;
        let req = self.pending.remove(&slave).unwrap();
        let counter = req.counter;
        push_timed_out(&mut self.timed_out, slave, req);
        assert(self@.pending =~= before.pending.remove(slave));
        counter
    }
}

/// Append to the queue of a slave, dropping the oldest beyond the limit.
fn push_timed_out(timed_out: &mut HashMap<u8, VecDeque<PendingReq>>, slave: u8, req: PendingReq)
    ensures
        queues_view(final(timed_out)@) == queues_view(old(timed_out)@).insert(
            slave,
            queue_with(queue_of(queues_view(old(timed_out)@), slave), req@),
        ),
{
    let mut q: VecDeque<PendingReq> = match timed_out.remove(&slave) {
        Some(q) => q,
        None => VecDeque::new(),
    };
    let ghost longer = queue_of(queues_view(old(timed_out)@), slave).push(req@);
    q.push_back(req);
    assert(queue_view(q@) =~= longer);
    assert(longer.skip(0) =~= longer);
    while q.len() > TIMED_OUT_PER_SLAVE
        invariant
            q@.len() <= longer.len(),
            q@.len() >= TIMED_OUT_PER_SLAVE || q@.len() == longer.len(),
            queue_view(q@) == longer.skip(longer.len() - q@.len()),
        decreases q@.len(),
    {
        let ghost before = q@;
        let dropped = q.pop_front();
        assert forall|i: int| 0 <= i < q@.len() implies queue_view(q@)[i] == longer.skip(
            longer.len() - q@.len(),
        )[i] by {
            assert(queue_view(before)[i + 1] == before[i + 1]@);
        }
        assert(queue_view(q@) =~= longer.skip(longer.len() - q@.len()));
    }
    timed_out.insert(slave, q);
    assert(queues_view(timed_out@) =~= queues_view(old(timed_out)@).insert(
        slave,
        queue_view(q@),
    ));
}

/// Take the oldest request off the queue of a slave. No queue stays empty.
fn pop_timed_out(timed_out: &mut HashMap<u8, VecDeque<PendingReq>>, slave: u8) -> (r: Option<
    PendingReq,
>)
    ensures
        ({
            let queues = queues_view(old(timed_out)@);
            let queue = queue_of(queues, slave);
            &&& r matches Some(req) ==> queue.len() > 0 && req@ == queue[0]
            &&& r is None ==> queue.len() == 0
            &&& queues_view(final(timed_out)@) == if queue.len() > 1 {
                queues.insert(slave, queue.skip(1))
            } else {
                queues.remove(slave)
            }
        }),
{
    let ghost queues = queues_view(timed_out@);
    match timed_out.remove(&slave) {
        None => {
            assert(queues_view(timed_out@) =~= queues.remove(slave));
            None
        },
        Some(mut q) => {
            let ghost before = q@;
            assert(queues[slave] == queue_view(before));
            let req = q.pop_front();
            if q.len() > 0 {
                assert(queue_view(q@) =~= queue_view(before).skip(1));
                timed_out.insert(slave, q);
                assert(queues_view(timed_out@) =~= queues.insert(
                    slave,
                    queue_view(before).skip(1),
                ));
            } else {
                assert(queues_view(timed_out@) =~= queues.remove(slave));
            }
            req
        },
    }
}

proof fn lemma_retire_step(m: PairingModel, gone: Map<u8, PendingModel>, s: u8)
    requires
        gone.dom().subset_of(m.pending.dom()),
        forall|t: u8| gone.contains_key(t) ==> gone[t] == m.pending[t],
    ensures
        ({
            let part = retired(m, below(gone, s as int));
            let next = retired(m, below(gone, s + 1));
            &&& gone.contains_key(s) ==> part.pending.contains_key(s) && part.pending[s] == gone[s]
                && next == (PairingModel {
                pending: part.pending.remove(s),
                timed_out: part.timed_out.insert(
                    s,
                    queue_with(queue_of(part.timed_out, s), part.pending[s]),
                ),
                ..part
            })
            &&& !gone.contains_key(s) ==> next == part
        }),
{
    let part = retired(m, below(gone, s as int));
    let next = retired(m, below(gone, s + 1));
    if gone.contains_key(s) {
        assert(next.pending =~= part.pending.remove(s));
        assert(queue_of(part.timed_out, s) == queue_of(m.timed_out, s));
        assert(next.timed_out =~= part.timed_out.insert(
            s,
            queue_with(queue_of(part.timed_out, s), part.pending[s]),
        ));
    } else {
        assert(below(gone, s + 1) =~= below(gone, s as int));
    }
}

proof fn lemma_retire_ends(m: PairingModel, gone: Map<u8, PendingModel>)
    ensures
        retired(m, below(gone, 0)) == m,
        retired(m, below(gone, 256)) == retired(m, gone),
{
    assert(below(gone, 256) =~= gone);
    assert(below(gone, 0) =~= Map::empty());
    assert(retired(m, Map::empty()).pending =~= m.pending);
    assert(retired(m, Map::empty()).timed_out =~= m.timed_out);
}

/// Retire every pending request. Returns their counters in the order of the
/// slaves' addresses.
fn retire_all(state: &mut PairingState) -> (r: Vec<u64>)
    ensures
        r@ == counters_of(old(state)@.pending),
        final(state)@ == retired(old(state)@, old(state)@.pending),
{
    let ghost m = state@;
    let mut counters: Vec<u64> = Vec::new();
    let mut s: u16 = 0;
    proof {
        lemma_retire_ends(m, m.pending);
    }
    while s < 256
        invariant
            s <= 256,
            state@ == retired(m, below(m.pending, s as int)),
            counters@ == counters_below(m.pending, s as int),
        decreases 256 - s,
    {
        let slave = s as u8;
        proof {
            lemma_retire_step(m, m.pending, slave);
        }
        let found = state.pending.contains_key(&slave);
        assert(found == state@.pending.contains_key(slave));
        assert(found == m.pending.contains_key(slave));
        if found {
            let counter = state.retire(slave);
            counters.push(counter);
        }
        s = s + 1;
    }
    proof {
        lemma_retire_ends(m, m.pending);
    }
    counters
}

/// Process one validated frame. Returns the updated state and any entries to
/// emit.
pub fn on_frame(
    state: PairingState,
    frame: ModbusFrame,
    parsed: ParsedPdu,
    now: Timestamp,
) -> (r: (PairingState, Vec<Entry>))
    requires
        takes_counter(state@, frame.slave, parsed.role) ==> state.next_counter < u64::MAX,
    ensures
        r.0@ == state_after(state@, frame@, parsed@),
        model::entry_views(r.1@) == entries_after(state@, frame@, parsed@, now),
{
    let mut state = state;
    let ghost m = state@;
    let mut out: Vec<Entry> = Vec::new();
    let slave = frame.slave;
    let ts = frame.timestamp;
    let raw = frame.raw;
    if state.settle_role(slave, parsed.role) == Role::Request {
        let ghost own = m.pending.restrict(set![slave]);
        let ghost others = m.pending.remove(slave);
        // Overlapping request (master violated one-outstanding, or we
        // missed a response): synthesize a timeout for the old one first.
        if state.pending.contains_key(&slave) {
            let counter = state.retire(slave);
            out.push(Entry::timeout(now, counter));
        }
        proof {
            counters_of_at_most_one(own, slave);
            assert(state@.pending =~= others);
            assert(model::entry_views(out@) =~= timeouts(now, counters_of(own)));
        }
        // Requests to other slaves can no longer be answered either.
        let counters = retire_all(&mut state);
        push_no_responses(&mut out, &counters, now);
        proof {
            assert(state@.timed_out =~= retired(m, m.pending).timed_out);
            assert(state@.pending =~= Map::empty());
        }
        let counter = state.next_counter;
        state.next_counter = counter + 1;
        let copy = raw.clone();
        assert(copy@ =~= raw@);
        let req = PendingReq { opened_at: ts, counter, slave, parsed: parsed.clone(), raw: copy };
        state.pending.insert(slave, req);
        proof {
            assert(state@.pending =~= state_after(m, frame@, parsed@).pending);
        }
        out.push(Entry::request(ts, counter, raw, slave, parsed));
        assert(model::entry_views(out@) =~= entries_after(m, frame@, parsed@, now));
    } else {
        match state.pending.remove(&slave) {
            Some(req) => {
                assert(state@.pending =~= m.pending.remove(slave));
                out.push(Entry::response(ts, req.counter, raw, slave, parsed));
            },
            None => {
                assert(state@.pending =~= m.pending);
                match pop_timed_out(&mut state.timed_out, slave) {
                    Some(orig) => {
                        out.push(Entry::orphan(ts, orig.counter, raw, slave, parsed, orig.parsed));
                    },
                    None => {
                        let counter = state.next_counter;
                        state.next_counter = counter + 1;
                        out.push(Entry::unsolicited(ts, counter, raw, slave, parsed));
                    },
                }
            },
        }
        assert(model::entry_views(out@) =~= entries_after(m, frame@, parsed@, now));
    }
    (state, out)
}

/// Of at most one request, at most its counter is listed.
pub proof fn counters_of_at_most_one(own: Map<u8, PendingModel>, slave: u8)
    requires
        forall|s: u8| own.contains_key(s) ==> s == slave,
    ensures
        counters_of(own) == if own.contains_key(slave) {
            seq![own[slave].counter]
        } else {
            Seq::empty()
        },
{
    lemma_single_counter_below(own, slave, 256);
}

proof fn lemma_single_counter_below(own: Map<u8, PendingModel>, slave: u8, limit: int)
    requires
        forall|s: u8| own.contains_key(s) ==> s == slave,
        0 <= limit <= 256,
    ensures
        counters_below(own, limit) == if own.contains_key(slave) && slave < limit {
            seq![own[slave].counter]
        } else {
            Seq::empty()
        },
    decreases limit,
{
    if limit > 0 {
        lemma_single_counter_below(own, slave, limit - 1);
        if own.contains_key((limit - 1) as u8) {
            assert(counters_below(own, limit) =~= seq![own[slave].counter]);
        }
    }
}

/// Append a no-response entry for each counter.
fn push_no_responses(out: &mut Vec<Entry>, counters: &Vec<u64>, now: Timestamp)
    ensures
        model::entry_views(final(out)@) == model::entry_views(old(out)@) + no_responses(
            now,
            counters@,
        ),
{
    let ghost before = model::entry_views(out@);
    let mut i: usize = 0;
    assert(model::entry_views(out@) =~= before + no_responses(now, counters@.take(0)));
    while i < counters.len()
        invariant
            i <= counters.len(),
            model::entry_views(out@) == before + no_responses(now, counters@.take(i as int)),
        decreases counters.len() - i,
    {
        let ghost so_far = model::entry_views(out@);
        out.push(Entry::no_response(now, counters[i]));
        i = i + 1;
        assert(model::entry_views(out@) =~= so_far.push(out@.last()@));
        assert(model::entry_views(out@) =~= before + no_responses(now, counters@.take(i as int)));
    }
    assert(counters@.take(i as int) =~= counters@);
}

/// Periodic sweep: expire pending requests whose response_timeout has
/// elapsed, emitting synthetic timeout entries (in the order of the slaves'
/// addresses) and moving them to the timed-out pool for possible late-response
/// matching.
pub fn sweep(state: PairingState, now: Timestamp) -> (r: (PairingState, Vec<Entry>))
    ensures
        r.0@ == retired(state@, expired(state@, now)),
        model::entry_views(r.1@) == timeouts(now, counters_of(expired(state@, now))),
{
    let mut state = state;
    let ghost m = state@;
    let ghost gone = expired(m, now);
    let mut out: Vec<Entry> = Vec::new();
    let mut s: u16 = 0;
    proof {
        lemma_retire_ends(m, gone);
        assert(model::entry_views(out@) =~= timeouts(now, counters_below(gone, 0)));
    }
    while s < 256
        invariant
            s <= 256,
            gone == expired(m, now),
            state@ == retired(m, below(gone, s as int)),
            model::entry_views(out@) == timeouts(now, counters_below(gone, s as int)),
        decreases 256 - s,
    {
        let slave = s as u8;
        proof {
            lemma_retire_step(m, gone, slave);
        }
        let due = match state.pending.get(&slave) {
            Some(req) => {
                assert(state@.pending.contains_key(slave));
                assert(state@.pending[slave] == m.pending[slave]);
                let waited = now.millis_since(&req.opened_at);
                waited > 0 && waited as u64 > state.response_timeout
            },
            None => {
                assert(!state@.pending.contains_key(slave));
                false
            },
        };
        assert(due == gone.contains_key(slave));
        if due {
            let ghost so_far = model::entry_views(out@);
            let counter = state.retire(slave);
            out.push(Entry::timeout(now, counter));
            assert(model::entry_views(out@) =~= so_far.push(out@.last()@));
            assert(model::entry_views(out@) =~= timeouts(now, counters_below(gone, s + 1)));
        }
        s = s + 1;
    }
    proof {
        lemma_retire_ends(m, gone);
    }
    (state, out)
}

// --- laws --------------------------------------------------------------------

/// A request on record: filed under its own slave, with a counter that has been
/// given out.
pub open spec fn on_record(m: PairingModel, slave: u8, req: PendingModel) -> bool {
    req.slave == slave && req.counter < m.next_counter
}

/// What holds of every state that a capture can reach: each request is filed
/// under its slave, no queue is empty or longer than the limit, and no two
/// requests on record share a counter.
pub open spec fn well_formed(m: PairingModel) -> bool {
    &&& forall|s: u8| #[trigger] m.pending.contains_key(s) ==> on_record(m, s, m.pending[s])
    &&& forall|s: u8|
        #[trigger] m.timed_out.contains_key(s) ==> 0 < m.timed_out[s].len() <= TIMED_OUT_PER_SLAVE
    &&& forall|s: u8, i: int|
        m.timed_out.contains_key(s) && 0 <= i < m.timed_out[s].len() ==> on_record(
            m,
            s,
            #[trigger] m.timed_out[s][i],
        )
    &&& forall|s: u8, t: u8|
        #![trigger m.pending[s], m.pending[t]]
        m.pending.contains_key(s) && m.pending.contains_key(t) && s != t ==> m.pending[s].counter
            != m.pending[t].counter
    &&& forall|s: u8, t: u8, i: int|
        #![trigger m.pending[s], m.timed_out[t][i]]
        m.pending.contains_key(s) && m.timed_out.contains_key(t) && 0 <= i < m.timed_out[t].len()
            ==> m.pending[s].counter != m.timed_out[t][i].counter
    &&& forall|s: u8, i: int, t: u8, j: int|
        #![trigger m.timed_out[s][i], m.timed_out[t][j]]
        m.timed_out.contains_key(s) && 0 <= i < m.timed_out[s].len() && m.timed_out.contains_key(t)
            && 0 <= j < m.timed_out[t].len() && (s != t || i != j) ==> m.timed_out[s][i].counter
            != m.timed_out[t][j].counter
}

/// Where an element of a longer queue comes from.
proof fn lemma_queue_with(q: Seq<PendingModel>, req: PendingModel)
    requires
        q.len() <= TIMED_OUT_PER_SLAVE,
    ensures
        ({
            let r = queue_with(q, req);
            let cut = q.len() + 1 - r.len();
            &&& 0 < r.len() <= TIMED_OUT_PER_SLAVE
            &&& 0 <= cut
            &&& r.last() == req
            &&& forall|i: int| 0 <= i < r.len() - 1 ==> #[trigger] r[i] == q[i + cut]
        }),
{
}

proof fn lemma_retired_is_well_formed(m: PairingModel, gone: Map<u8, PendingModel>)
    requires
        well_formed(m),
        gone.dom().subset_of(m.pending.dom()),
        forall|t: u8| gone.contains_key(t) ==> gone[t] == m.pending[t],
    ensures
        well_formed(retired(m, gone)),
{
    let r = retired(m, gone);
    assert forall|s: u8| #[trigger] r.timed_out.contains_key(s) implies 0 < r.timed_out[s].len()
        <= TIMED_OUT_PER_SLAVE by {
        if gone.contains_key(s) {
            lemma_queue_with(queue_of(m.timed_out, s), gone[s]);
        }
    }
    assert forall|s: u8, i: int|
        r.timed_out.contains_key(s) && 0 <= i < r.timed_out[s].len() implies on_record(
        r,
        s,
        #[trigger] r.timed_out[s][i],
    ) by {
        lemma_origin(m, gone, s, i);
    }
    assert forall|s: u8, t: u8, i: int|
        #![trigger r.pending[s], r.timed_out[t][i]]
        r.pending.contains_key(s) && r.timed_out.contains_key(t) && 0 <= i
            < r.timed_out[t].len() implies r.pending[s].counter != r.timed_out[t][i].counter by {
        lemma_origin(m, gone, t, i);
        assert(r.pending[s] == m.pending[s]);
    }
    assert forall|s: u8, i: int, t: u8, j: int|
        #![trigger r.timed_out[s][i], r.timed_out[t][j]]
        r.timed_out.contains_key(s) && 0 <= i < r.timed_out[s].len() && r.timed_out.contains_key(t)
            && 0 <= j < r.timed_out[t].len() && (s != t || i != j) implies r.timed_out[s][i].counter
        != r.timed_out[t][j].counter by {
        lemma_origin(m, gone, s, i);
        lemma_origin(m, gone, t, j);
    }
}

/// How far the queue of a slave has moved up.
spec fn shift(m: PairingModel, gone: Map<u8, PendingModel>, s: u8) -> int {
    queue_of(m.timed_out, s).len() + 1 - retired(m, gone).timed_out[s].len()
}

/// Each request in a queue was in it before, or has just left the pending ones.
proof fn lemma_origin(m: PairingModel, gone: Map<u8, PendingModel>, s: u8, i: int)
    requires
        well_formed(m),
        gone.dom().subset_of(m.pending.dom()),
        forall|t: u8| gone.contains_key(t) ==> gone[t] == m.pending[t],
        retired(m, gone).timed_out.contains_key(s),
        0 <= i < retired(m, gone).timed_out[s].len(),
    ensures
        ({
            let q = retired(m, gone).timed_out[s];
            ||| gone.contains_key(s) && i == q.len() - 1 && q[i] == m.pending[s]
                && m.pending.contains_key(s)
            ||| gone.contains_key(s) && m.timed_out.contains_key(s) && 0 <= i + shift(m, gone, s)
                < m.timed_out[s].len() && q[i] == m.timed_out[s][i + shift(m, gone, s)]
            ||| !gone.contains_key(s) && m.timed_out.contains_key(s) && q == m.timed_out[s]
        }),
{
    if gone.contains_key(s) {
        lemma_queue_with(queue_of(m.timed_out, s), gone[s]);
    }
}

/// A capture starts in a well-formed state.
pub proof fn clean_state_is_well_formed(response_timeout: u64)
    ensures
        well_formed(clean_state(response_timeout)),
{
}

/// Every frame keeps the state well-formed: counters are given out once and
/// requests stay filed under their slaves.
pub proof fn frame_keeps_well_formed(m: PairingModel, frame: FrameModel, parsed: ParsedModel)
    requires
        well_formed(m),
        takes_counter(m, frame.slave, parsed.role) ==> m.next_counter < u64::MAX,
    ensures
        well_formed(state_after(m, frame, parsed)),
{
    let r = state_after(m, frame, parsed);
    let slave = frame.slave;
    if is_request(m, slave, parsed.role) {
        lemma_retired_is_well_formed(m, m.pending);
        let q = retired(m, m.pending);
        assert(r.timed_out == q.timed_out);
        assert forall|s: u8, i: int|
            r.timed_out.contains_key(s) && 0 <= i < r.timed_out[s].len() implies on_record(
            r,
            s,
            #[trigger] r.timed_out[s][i],
        ) && r.timed_out[s][i].counter < m.next_counter by {
            assert(on_record(q, s, q.timed_out[s][i]));
        }
    } else if !m.pending.contains_key(slave) {
        let queue = queue_of(m.timed_out, slave);
        assert forall|s: u8, i: int|
            r.timed_out.contains_key(s) && 0 <= i
                < r.timed_out[s].len() implies m.timed_out.contains_key(s)
            && #[trigger] r.timed_out[s][i] == m.timed_out[s][if s == slave {
            i + 1
        } else {
            i
        }] by {
        }
    }
}

/// A new counter is taken by a request and by an unsolicited response, and by
/// nothing else: each of these carries the next counter, and the one after it
/// is then next. The timeout for responses never changes.
pub proof fn counters_are_given_out_in_order(
    m: PairingModel,
    frame: FrameModel,
    parsed: ParsedModel,
    now: Timestamp,
)
    requires
        takes_counter(m, frame.slave, parsed.role) ==> m.next_counter < u64::MAX,
    ensures
        ({
            let after = state_after(m, frame, parsed);
            let last = entries_after(m, frame, parsed, now).last();
            let fresh = last.tag == model::Tag::Request || last.body is Unsolicited;
            &&& fresh <==> takes_counter(m, frame.slave, parsed.role)
            &&& fresh ==> last.counter == m.next_counter && after.next_counter == m.next_counter
                + 1
            &&& !fresh ==> after.next_counter == m.next_counter
            &&& after.response_timeout == m.response_timeout
        }),
        ({
            let swept = retired(m, expired(m, now));
            &&& swept.next_counter == m.next_counter
            &&& swept.response_timeout == m.response_timeout
        }),
{
}

/// Every sweep keeps the state well-formed.
pub proof fn sweep_keeps_well_formed(m: PairingModel, now: Timestamp)
    requires
        well_formed(m),
    ensures
        well_formed(retired(m, expired(m, now))),
{
    lemma_retired_is_well_formed(m, expired(m, now));
}

/// No received frame is discarded: the entries that a frame gives end with one
/// that shows its bytes and its time, and no other of them shows any bytes.
pub proof fn every_frame_is_shown(
    m: PairingModel,
    frame: FrameModel,
    parsed: ParsedModel,
    now: Timestamp,
)
    ensures
        ({
            let out = entries_after(m, frame, parsed, now);
            &&& out.len() > 0
            &&& out.last().raw == frame.raw
            &&& out.last().ts == frame.timestamp
            &&& forall|i: int| 0 <= i < out.len() - 1 ==> (#[trigger] out[i]).raw.len() == 0
        }),
{
}

/// A response right after its request carries the request's counter and leaves
/// nothing pending.
pub proof fn response_shares_the_counter(
    m: PairingModel,
    request: FrameModel,
    asked: ParsedModel,
    response: FrameModel,
    answered: ParsedModel,
    now: Timestamp,
    later: Timestamp,
)
    requires
        is_request(m, request.slave, asked.role),
        answered.role != Role::Request,
        response.slave == request.slave,
    ensures
        ({
            let between = state_after(m, request, asked);
            &&& entries_after(m, request, asked, now).last() == model::request_entry(
                request.timestamp,
                m.next_counter,
                request.raw,
                request.slave,
                asked,
            )
            &&& entries_after(between, response, answered, later) == seq![
                model::response_entry(
                    response.timestamp,
                    m.next_counter,
                    response.raw,
                    response.slave,
                    answered,
                ),
            ]
            &&& state_after(between, response, answered).pending == Map::<u8, PendingModel>::empty()
        }),
{
    let between = state_after(m, request, asked);
    assert(state_after(between, response, answered).pending =~= Map::empty());
}

/// A request that is not answered in time is closed by a timeout under its own
/// counter, and a response that comes after all is shown as an orphan under
/// that counter, together with the request.
pub proof fn late_response_finds_its_request(
    m: PairingModel,
    request: FrameModel,
    asked: ParsedModel,
    now: Timestamp,
    swept: Timestamp,
    response: FrameModel,
    answered: ParsedModel,
    later: Timestamp,
)
    requires
        is_request(m, request.slave, asked.role),
        !m.pending.contains_key(request.slave),
        queue_of(m.timed_out, request.slave).len() == 0,
        swept.millis_after(request.timestamp) > m.response_timeout,
        answered.role == Role::Response,
        response.slave == request.slave,
    ensures
        ({
            let waiting = state_after(m, request, asked);
            let given_up = retired(waiting, expired(waiting, swept));
            &&& timeouts(swept, counters_of(expired(waiting, swept))) == seq![
                model::timeout_entry(swept, m.next_counter),
            ]
            &&& given_up.pending == Map::<u8, PendingModel>::empty()
            &&& entries_after(given_up, response, answered, later) == seq![
                model::orphan_entry(
                    response.timestamp,
                    m.next_counter,
                    response.raw,
                    response.slave,
                    answered,
                    asked,
                ),
            ]
            &&& !state_after(given_up, response, answered).timed_out.contains_key(request.slave)
        }),
{
    let waiting = state_after(m, request, asked);
    let gone = expired(waiting, swept);
    let given_up = retired(waiting, gone);
    assert(gone =~= waiting.pending);
    counters_of_at_most_one(gone, request.slave);
    assert(timeouts(swept, counters_of(gone)) =~= seq![
        model::timeout_entry(swept, m.next_counter),
    ]);
    assert(given_up.pending =~= Map::empty());
    assert(queue_of(given_up.timed_out, request.slave) =~= seq![waiting.pending[request.slave]]);
}

/// At most one request is pending at any time.
pub open spec fn one_outstanding(m: PairingModel) -> bool {
    forall|s: u8, t: u8|
        #[trigger] m.pending.contains_key(s) && #[trigger] m.pending.contains_key(t) ==> s == t
}

/// A capture starts with nothing pending, and neither a frame nor a sweep ever
/// leaves more than one request pending.
pub proof fn at_most_one_request_is_pending(
    m: PairingModel,
    response_timeout: u64,
    frame: FrameModel,
    parsed: ParsedModel,
    now: Timestamp,
)
    requires
        one_outstanding(m),
    ensures
        one_outstanding(clean_state(response_timeout)),
        one_outstanding(state_after(m, frame, parsed)),
        one_outstanding(retired(m, expired(m, now))),
{
}

proof fn lemma_counter_is_listed(reqs: Map<u8, PendingModel>, s: u8, limit: int)
    requires
        reqs.contains_key(s),
        s < limit <= 256,
    ensures
        exists|i: int|
            0 <= i < counters_below(reqs, limit).len() && counters_below(reqs, limit)[i]
                == reqs[s].counter,
    decreases limit,
{
    let c = counters_below(reqs, limit);
    if s == limit - 1 {
        assert(c[c.len() - 1] == reqs[s].counter);
    } else {
        lemma_counter_is_listed(reqs, s, limit - 1);
        let before = counters_below(reqs, limit - 1);
        let i = choose|i: int| 0 <= i < before.len() && before[i] == reqs[s].counter;
        assert(c[i] == reqs[s].counter);
    }
}

/// A new request closes every request still pending: the one to the same slave
/// by a timeout, one to any other slave by a no-response, each under its own
/// counter and ahead of the new request.
pub proof fn new_request_closes_what_is_pending(
    m: PairingModel,
    frame: FrameModel,
    parsed: ParsedModel,
    now: Timestamp,
    s: u8,
)
    requires
        is_request(m, frame.slave, parsed.role),
        m.pending.contains_key(s),
    ensures
        ({
            let out = entries_after(m, frame, parsed, now);
            let closed = if s == frame.slave {
                model::timeout_entry(now, m.pending[s].counter)
            } else {
                model::no_response_entry(now, m.pending[s].counter)
            };
            &&& exists|i: int| 0 <= i < out.len() - 1 && out[i] == closed
            &&& s != frame.slave ==> !state_after(m, frame, parsed).pending.contains_key(s)
        }),
{
    let out = entries_after(m, frame, parsed, now);
    let own = m.pending.restrict(set![frame.slave]);
    let others = m.pending.remove(frame.slave);
    let first = timeouts(now, counters_of(own));
    if s == frame.slave {
        lemma_counter_is_listed(own, s, 256);
        let i = choose|i: int|
            0 <= i < counters_of(own).len() && counters_of(own)[i] == own[s].counter;
        assert(out[i] == model::timeout_entry(now, m.pending[s].counter));
    } else {
        lemma_counter_is_listed(others, s, 256);
        let i = choose|i: int|
            0 <= i < counters_of(others).len() && counters_of(others)[i] == others[s].counter;
        assert(out[first.len() + i] == model::no_response_entry(now, m.pending[s].counter));
    }
}

/// A sweep leaves alone what still has time: where no request has waited longer
/// than the timeout, nothing changes and no entry appears.
pub proof fn sweep_keeps_requests_in_time(m: PairingModel, now: Timestamp)
    requires
        forall|s: u8|
            #[trigger] m.pending.contains_key(s) ==> now.millis_after(m.pending[s].opened_at)
                <= m.response_timeout,
    ensures
        retired(m, expired(m, now)) == m,
        timeouts(now, counters_of(expired(m, now))).len() == 0,
{
    assert(expired(m, now) =~= Map::empty());
    lemma_retire_ends(m, Map::empty());
    assert(below(Map::empty(), 0) =~= Map::<u8, PendingModel>::empty());
    counters_of_at_most_one(Map::empty(), 0);
}

/// A second sweep at the same time finds nothing more to do.
pub proof fn sweep_is_done_at_once(m: PairingModel, now: Timestamp)
    ensures
        ({
            let once = retired(m, expired(m, now));
            &&& retired(once, expired(once, now)) == once
            &&& timeouts(now, counters_of(expired(once, now))).len() == 0
        }),
{
    let once = retired(m, expired(m, now));
    sweep_keeps_requests_in_time(once, now);
}

/// Whether an entry is a request that went to `slave` under `counter`.
pub open spec fn requests(e: EntryModel, counter: u64, slave: u8) -> bool {
    e.tag == model::Tag::Request && e.counter == counter && (e.body matches model::BodyModel::Frame {
        slave: s,
        ..
    } && s == slave)
}

/// Whether the entries hold a request to `slave` under `counter`.
pub open spec fn has_request(entries: Seq<EntryModel>, counter: u64, slave: u8) -> bool {
    exists|i: int| 0 <= i < entries.len() && requests(#[trigger] entries[i], counter, slave)
}

/// Whether an entry answers a request or closes it: a response, a timeout, a
/// no-response or a late response.
pub open spec fn answers(e: EntryModel) -> bool {
    e.tag == model::Tag::Response || e.body is Orphan
}

/// Whether the entries hold the request that an entry goes with: one with its
/// counter, to the slave that the entry names, if it names one.
pub open spec fn has_its_request(entries: Seq<EntryModel>, e: EntryModel) -> bool {
    exists|slave: u8|
        #[trigger] has_request(entries, e.counter, slave) && (model::entry_slave(e) is None
            || model::entry_slave(e) == Some(slave))
}

/// What holds of the entries of a capture so far, in the state that it has
/// reached: a counter stands for the requests of one slave only, every request
/// on record is among the entries, and so is the request that each answer goes
/// with.
pub open spec fn on_file(entries: Seq<EntryModel>, m: PairingModel) -> bool {
    &&& forall|counter: u64, slave: u8| #[trigger]
        has_request(entries, counter, slave) ==> counter < m.next_counter
    &&& forall|counter: u64, s: u8, t: u8| #[trigger]
        has_request(entries, counter, s) && #[trigger] has_request(entries, counter, t) ==> s == t
    &&& forall|s: u8| #[trigger]
        m.pending.contains_key(s) ==> has_request(entries, m.pending[s].counter, s)
    &&& forall|s: u8, i: int|
        m.timed_out.contains_key(s) && 0 <= i < m.timed_out[s].len() ==> has_request(
            entries,
            (#[trigger] m.timed_out[s][i]).counter,
            s,
        )
    &&& forall|i: int|
        0 <= i < entries.len() && answers(#[trigger] entries[i]) ==> has_its_request(
            entries,
            entries[i],
        )
}

proof fn lemma_has_request_concat(a: Seq<EntryModel>, b: Seq<EntryModel>, counter: u64, slave: u8)
    ensures
        has_request(a + b, counter, slave) == (has_request(a, counter, slave) || has_request(
            b,
            counter,
            slave,
        )),
{
    let all = a + b;
    if has_request(a, counter, slave) {
        let i = choose|i: int| 0 <= i < a.len() && requests(#[trigger] a[i], counter, slave);
        assert(requests(all[i], counter, slave));
    }
    if has_request(b, counter, slave) {
        let i = choose|i: int| 0 <= i < b.len() && requests(#[trigger] b[i], counter, slave);
        assert(requests(all[a.len() + i], counter, slave));
    }
    if has_request(all, counter, slave) {
        let i = choose|i: int| 0 <= i < all.len() && requests(#[trigger] all[i], counter, slave);
        if i < a.len() {
            assert(requests(a[i], counter, slave));
        } else {
            assert(requests(b[i - a.len()], counter, slave));
        }
    }
}

/// Every counter that is listed is that of a request.
proof fn lemma_listed_counter(reqs: Map<u8, PendingModel>, limit: int, i: int)
    requires
        0 <= limit <= 256,
        0 <= i < counters_below(reqs, limit).len(),
    ensures
        exists|s: u8| #[trigger]
            reqs.contains_key(s) && reqs[s].counter == counters_below(reqs, limit)[i],
    decreases limit,
{
    if limit > 0 {
        let top = (limit - 1) as u8;
        let before = counters_below(reqs, limit - 1);
        if i < before.len() {
            lemma_listed_counter(reqs, limit - 1, i);
        } else {
            assert(reqs.contains_key(top));
        }
    }
}

/// Adding entries without a request keeps what is on file, as long as each
/// answer among them has its request there and no new request is on record.
proof fn lemma_filed_with(
    entries: Seq<EntryModel>,
    m: PairingModel,
    out: Seq<EntryModel>,
    after: PairingModel,
)
    requires
        on_file(entries, m),
        m.next_counter <= after.next_counter,
        forall|s: u8| #[trigger]
            after.pending.contains_key(s) ==> has_request(
                entries + out,
                after.pending[s].counter,
                s,
            ),
        forall|s: u8, i: int|
            after.timed_out.contains_key(s) && 0 <= i < after.timed_out[s].len() ==> has_request(
                entries,
                (#[trigger] after.timed_out[s][i]).counter,
                s,
            ),
        forall|i: int|
            0 <= i < out.len() && answers(#[trigger] out[i]) ==> has_its_request(entries, out[i]),
        forall|counter: u64, s: u8| #[trigger]
            has_request(out, counter, s) ==> m.next_counter <= counter < after.next_counter,
        forall|counter: u64, s: u8, t: u8| #[trigger]
            has_request(out, counter, s) && #[trigger] has_request(out, counter, t) ==> s == t,
    ensures
        on_file(entries + out, after),
{
    let all = entries + out;
    assert forall|counter: u64, slave: u8| #[trigger]
        has_request(all, counter, slave) implies counter < after.next_counter by {
        lemma_has_request_concat(entries, out, counter, slave);
    }
    assert forall|counter: u64, s: u8, t: u8| #[trigger]
        has_request(all, counter, s) && #[trigger] has_request(all, counter, t) implies s == t by {
        lemma_has_request_concat(entries, out, counter, s);
        lemma_has_request_concat(entries, out, counter, t);
    }
    assert forall|s: u8, i: int|
        after.timed_out.contains_key(s) && 0 <= i < after.timed_out[s].len() implies has_request(
        all,
        (#[trigger] after.timed_out[s][i]).counter,
        s,
    ) by {
        lemma_has_request_concat(entries, out, after.timed_out[s][i].counter, s);
    }
    assert forall|i: int| 0 <= i < all.len() && answers(#[trigger] all[i]) implies has_its_request(
        all,
        all[i],
    ) by {
        let e = all[i];
        if i < entries.len() {
            assert(e == entries[i]);
        } else {
            assert(e == out[i - entries.len()]);
        }
        assert(has_its_request(entries, e));
        let slave = choose|slave: u8|
            #[trigger] has_request(entries, e.counter, slave) && (model::entry_slave(e) is None
                || model::entry_slave(e) == Some(slave));
        lemma_has_request_concat(entries, out, e.counter, slave);
    }
}

/// The requests that leave the pending ones stay on file.
proof fn lemma_retired_on_file(
    entries: Seq<EntryModel>,
    m: PairingModel,
    gone: Map<u8, PendingModel>,
)
    requires
        well_formed(m),
        on_file(entries, m),
        gone.dom().subset_of(m.pending.dom()),
        forall|t: u8| gone.contains_key(t) ==> gone[t] == m.pending[t],
    ensures
        forall|s: u8, i: int|
            retired(m, gone).timed_out.contains_key(s) && 0 <= i < retired(
                m,
                gone,
            ).timed_out[s].len() ==> has_request(
                entries,
                (#[trigger] retired(m, gone).timed_out[s][i]).counter,
                s,
            ),
{
    let r = retired(m, gone);
    assert forall|s: u8, i: int|
        r.timed_out.contains_key(s) && 0 <= i < r.timed_out[s].len() implies has_request(
        entries,
        (#[trigger] r.timed_out[s][i]).counter,
        s,
    ) by {
        lemma_origin(m, gone, s, i);
    }
}

/// Closing entries for requests on file have their requests there.
proof fn lemma_closing_has_request(
    entries: Seq<EntryModel>,
    m: PairingModel,
    reqs: Map<u8, PendingModel>,
    now: Timestamp,
)
    requires
        on_file(entries, m),
        reqs.dom().subset_of(m.pending.dom()),
        forall|t: u8| reqs.contains_key(t) ==> reqs[t] == m.pending[t],
    ensures
        forall|i: int|
            0 <= i < counters_of(reqs).len() ==> has_its_request(
                entries,
                #[trigger] timeouts(now, counters_of(reqs))[i],
            ),
        forall|i: int|
            0 <= i < counters_of(reqs).len() ==> has_its_request(
                entries,
                #[trigger] no_responses(now, counters_of(reqs))[i],
            ),
{
    let c = counters_of(reqs);
    assert forall|i: int| 0 <= i < c.len() implies has_its_request(
        entries,
        #[trigger] timeouts(now, c)[i],
    ) && has_its_request(entries, no_responses(now, c)[i]) by {
        lemma_listed_counter(reqs, 256, i);
        let s = choose|s: u8| #[trigger] reqs.contains_key(s) && reqs[s].counter == c[i];
        assert(m.pending.contains_key(s));
        assert(has_request(entries, timeouts(now, c)[i].counter, s));
        assert(has_request(entries, no_responses(now, c)[i].counter, s));
    }
    assert forall|i: int| 0 <= i < c.len() implies has_its_request(
        entries,
        #[trigger] no_responses(now, c)[i],
    ) by {
        assert(has_its_request(entries, timeouts(now, c)[i]));
    }
}

/// Every frame keeps the entries on file: its response or late response is
/// shown under the counter, and with the slave, of a request among the entries,
/// and what it closes is closed under such a counter too.
pub proof fn frame_keeps_entries_on_file(
    entries: Seq<EntryModel>,
    m: PairingModel,
    frame: FrameModel,
    parsed: ParsedModel,
    now: Timestamp,
)
    requires
        well_formed(m),
        on_file(entries, m),
        takes_counter(m, frame.slave, parsed.role) ==> m.next_counter < u64::MAX,
    ensures
        on_file(entries + entries_after(m, frame, parsed, now), state_after(m, frame, parsed)),
{
    let out = entries_after(m, frame, parsed, now);
    let after = state_after(m, frame, parsed);
    let slave = frame.slave;
    if is_request(m, slave, parsed.role) {
        let own = m.pending.restrict(set![slave]);
        let others = m.pending.remove(slave);
        let first = timeouts(now, counters_of(own));
        let second = no_responses(now, counters_of(others));
        let last = out.len() - 1;
        lemma_closing_has_request(entries, m, own, now);
        lemma_closing_has_request(entries, m, others, now);
        lemma_retired_on_file(entries, m, m.pending);
        assert(after.timed_out == retired(m, m.pending).timed_out);
        assert forall|i: int|
            0 <= i < out.len() && answers(#[trigger] out[i]) implies has_its_request(
            entries,
            out[i],
        ) by {
            if i < first.len() {
                assert(out[i] == first[i]);
            } else {
                assert(out[i] == second[i - first.len()]);
            }
        }
        assert forall|counter: u64, s: u8| #[trigger] has_request(out, counter, s) implies counter
            == m.next_counter && s == slave by {
            let i = choose|i: int| 0 <= i < out.len() && requests(#[trigger] out[i], counter, s);
            if i < first.len() {
                assert(out[i] == first[i]);
            } else if i < last {
                assert(out[i] == second[i - first.len()]);
            }
        }
        assert(requests(out[last], m.next_counter, slave));
        assert(has_request(out, m.next_counter, slave));
        lemma_has_request_concat(entries, out, m.next_counter, slave);
        lemma_filed_with(entries, m, out, after);
    } else {
        assert(out.len() == 1);
        assert forall|counter: u64, s: u8| !(#[trigger] has_request(out, counter, s)) by {
            assert(!requests(out[0], counter, s));
        }
        if m.pending.contains_key(slave) {
            assert(has_request(entries, out[0].counter, slave));
        } else if queue_of(m.timed_out, slave).len() > 0 {
            assert(has_request(entries, m.timed_out[slave][0].counter, slave));
            assert(has_request(entries, out[0].counter, slave));
        }
        assert(answers(out[0]) ==> has_its_request(entries, out[0]));
        assert forall|s: u8| #[trigger] after.pending.contains_key(s) implies has_request(
            entries + out,
            after.pending[s].counter,
            s,
        ) by {
            assert(m.pending.contains_key(s));
            lemma_has_request_concat(entries, out, after.pending[s].counter, s);
        }
        assert forall|s: u8, i: int|
            after.timed_out.contains_key(s) && 0 <= i
                < after.timed_out[s].len() implies has_request(
            entries,
            (#[trigger] after.timed_out[s][i]).counter,
            s,
        ) by {
            assert(after.timed_out[s][i] == m.timed_out[s][i] || after.timed_out[s][i]
                == m.timed_out[s][i + 1]);
        }
        lemma_filed_with(entries, m, out, after);
    }
}

/// Bytes that are no frame keep the entries on file.
pub proof fn parse_failure_keeps_entries_on_file(
    entries: Seq<EntryModel>,
    m: PairingModel,
    now: Timestamp,
    raw: Seq<u8>,
    reason: Seq<char>,
)
    requires
        on_file(entries, m),
        m.next_counter < u64::MAX,
    ensures
        on_file(
            entries + seq![model::parse_failure_entry(now, m.next_counter, raw, reason)],
            PairingModel { next_counter: (m.next_counter + 1) as u64, ..m },
        ),
{
    let out = seq![model::parse_failure_entry(now, m.next_counter, raw, reason)];
    let after = PairingModel { next_counter: (m.next_counter + 1) as u64, ..m };
    assert forall|counter: u64, s: u8| !(#[trigger] has_request(out, counter, s)) by {
        assert(!requests(out[0], counter, s));
    }
    assert forall|s: u8| #[trigger] after.pending.contains_key(s) implies has_request(
        entries + out,
        after.pending[s].counter,
        s,
    ) by {
        assert(m.pending.contains_key(s));
        lemma_has_request_concat(entries, out, after.pending[s].counter, s);
    }
    lemma_filed_with(entries, m, out, after);
}

/// Every sweep keeps the entries on file: each timeout is shown under the
/// counter of a request among the entries.
pub proof fn sweep_keeps_entries_on_file(
    entries: Seq<EntryModel>,
    m: PairingModel,
    now: Timestamp,
)
    requires
        well_formed(m),
        on_file(entries, m),
    ensures
        on_file(
            entries + timeouts(now, counters_of(expired(m, now))),
            retired(m, expired(m, now)),
        ),
{
    let gone = expired(m, now);
    let out = timeouts(now, counters_of(gone));
    let after = retired(m, gone);
    lemma_closing_has_request(entries, m, gone, now);
    lemma_retired_on_file(entries, m, gone);
    assert forall|counter: u64, s: u8| !(#[trigger] has_request(out, counter, s)) by {
    }
    assert forall|s: u8| #[trigger] after.pending.contains_key(s) implies has_request(
        entries + out,
        after.pending[s].counter,
        s,
    ) by {
        assert(m.pending.contains_key(s));
        lemma_has_request_concat(entries, out, after.pending[s].counter, s);
    }
    lemma_filed_with(entries, m, out, after);
}

/// How many entries carry a tag.
pub open spec fn tagged(entries: Seq<EntryModel>, tag: model::Tag) -> nat
    decreases entries.len(),
{
    if entries.len() == 0 {
        0
    } else {
        tagged(entries.drop_last(), tag) + if entries.last().tag == tag {
            1nat
        } else {
            0nat
        }
    }
}

proof fn lemma_tagged_alike(entries: Seq<EntryModel>, tag: model::Tag, other: model::Tag)
    requires
        forall|i: int| 0 <= i < entries.len() ==> (#[trigger] entries[i]).tag == tag,
        other != tag,
    ensures
        tagged(entries, tag) == entries.len(),
        tagged(entries, other) == 0,
    decreases entries.len(),
{
    if entries.len() > 0 {
        assert(entries[entries.len() - 1].tag == tag);
        assert forall|i: int| 0 <= i < entries.drop_last().len() implies (
        #[trigger] entries.drop_last()[i]).tag == tag by {
            assert(entries[i].tag == tag);
        }
        lemma_tagged_alike(entries.drop_last(), tag, other);
    }
}

proof fn lemma_counters_len(reqs: Map<u8, PendingModel>, limit: int)
    requires
        0 <= limit <= 256,
    ensures
        below(reqs, limit).dom().finite(),
        counters_below(reqs, limit).len() == below(reqs, limit).dom().len(),
    decreases limit,
{
    if limit == 0 {
        assert(below(reqs, 0).dom() =~= Set::empty());
    } else {
        let top = (limit - 1) as u8;
        lemma_counters_len(reqs, limit - 1);
        if reqs.contains_key(top) {
            assert(below(reqs, limit).dom() =~= below(reqs, limit - 1).dom().insert(top));
        } else {
            assert(below(reqs, limit).dom() =~= below(reqs, limit - 1).dom());
        }
    }
}

/// As many counters are listed as there are requests.
proof fn lemma_all_counters_len(reqs: Map<u8, PendingModel>)
    ensures
        reqs.dom().finite(),
        counters_of(reqs).len() == reqs.dom().len(),
{
    lemma_counters_len(reqs, 256);
    assert(below(reqs, 256).dom() =~= reqs.dom());
}

/// Every request is closed exactly once: whatever a frame or a sweep shows, the
/// requests that it opens less the ones that it closes, by a response, a timeout
/// or a no-response, are what comes to be pending.
pub proof fn every_request_is_closed_once(
    m: PairingModel,
    frame: FrameModel,
    parsed: ParsedModel,
    now: Timestamp,
)
    ensures
        ({
            let out = entries_after(m, frame, parsed, now);
            let after = state_after(m, frame, parsed);
            tagged(out, model::Tag::Request) - tagged(out, model::Tag::Response)
                == after.pending.dom().len() - m.pending.dom().len()
        }),
        ({
            let out = timeouts(now, counters_of(expired(m, now)));
            let after = retired(m, expired(m, now));
            &&& tagged(out, model::Tag::Request) == 0
            &&& tagged(out, model::Tag::Response) == m.pending.dom().len()
                - after.pending.dom().len()
        }),
{
    let request = model::Tag::Request;
    let response = model::Tag::Response;
    let slave = frame.slave;
    lemma_all_counters_len(m.pending);
    let out = entries_after(m, frame, parsed, now);
    let after = state_after(m, frame, parsed);
    if is_request(m, slave, parsed.role) {
        let own = m.pending.restrict(set![slave]);
        let others = m.pending.remove(slave);
        let closed = timeouts(now, counters_of(own)) + no_responses(now, counters_of(others));
        lemma_all_counters_len(own);
        lemma_all_counters_len(others);
        counters_of_at_most_one(own, slave);
        lemma_tagged_alike(closed, response, request);
        assert(out.drop_last() =~= closed);
        assert(others.dom() =~= m.pending.dom().remove(slave));
        assert(after.pending.dom() =~= set![slave]);
        assert(closed.len() == m.pending.dom().len());
    } else {
        assert(out.drop_last() =~= Seq::empty());
        assert(tagged(Seq::<EntryModel>::empty(), request) == 0);
        assert(tagged(Seq::<EntryModel>::empty(), response) == 0);
        if m.pending.contains_key(slave) {
            assert(after.pending.dom() =~= m.pending.dom().remove(slave));
        }
    }
    let gone = expired(m, now);
    lemma_all_counters_len(gone);
    lemma_tagged_alike(timeouts(now, counters_of(gone)), response, request);
    assert(retired(m, gone).pending.dom() =~= m.pending.dom().difference(gone.dom()));
    assert(gone.dom().subset_of(m.pending.dom()));
    assert(m.pending.dom() =~= gone.dom().union(m.pending.dom().difference(gone.dom())));
    vstd::set_lib::lemma_set_disjoint_lens(
        gone.dom(),
        m.pending.dom().difference(gone.dom()),
    );
}

// --- what each frame and each sweep does -------------------------------------

/// Where the layout of a frame shows no role, what is pending decides, and
/// nothing else: the frame is a request exactly if no request to its slave is
/// pending, whatever has timed out before. A role that is shown is taken.
pub proof fn open_role_goes_by_what_is_pending(m: PairingModel, slave: u8)
    ensures
        role_in_context(m, slave, Role::Unknown) == Role::Request <==> !m.pending.contains_key(
            slave,
        ),
        role_in_context(m, slave, Role::Unknown) == Role::Response <==> m.pending.contains_key(
            slave,
        ),
        role_in_context(m, slave, Role::Request) == Role::Request,
        role_in_context(m, slave, Role::Response) == Role::Response,
{
}

/// A request, or a frame that shows no role while nothing is pending for its
/// slave, is shown last, as a request under the next counter, with its time, its
/// bytes, its slave and what it was read as. It is then the only one pending,
/// with all of this on record.
pub proof fn request_is_opened(
    m: PairingModel,
    frame: FrameModel,
    parsed: ParsedModel,
    now: Timestamp,
)
    requires
        parsed.role == Role::Request || parsed.role == Role::Unknown && !m.pending.contains_key(
            frame.slave,
        ),
    ensures
        ({
            let last = entries_after(m, frame, parsed, now).last();
            let after = state_after(m, frame, parsed);
            &&& last.tag == model::Tag::Request
            &&& last.counter == m.next_counter
            &&& last.ts == frame.timestamp
            &&& last.raw == frame.raw
            &&& last.body == (model::BodyModel::Frame { slave: frame.slave, parsed })
            &&& forall|s: u8| #[trigger] after.pending.contains_key(s) <==> s == frame.slave
            &&& after.pending[frame.slave].counter == m.next_counter
            &&& after.pending[frame.slave].opened_at == frame.timestamp
            &&& after.pending[frame.slave].slave == frame.slave
            &&& after.pending[frame.slave].parsed == parsed
            &&& after.pending[frame.slave].raw == frame.raw
        }),
{
}

/// A response, or a frame that shows no role, while a request to its slave is
/// pending closes that request and nothing else: it is the only entry, under the
/// request's counter, with its own time, bytes and contents. What other slaves
/// owe, and what has timed out, stays.
pub proof fn response_closes_its_request(
    m: PairingModel,
    frame: FrameModel,
    parsed: ParsedModel,
    now: Timestamp,
)
    requires
        parsed.role != Role::Request,
        m.pending.contains_key(frame.slave),
    ensures
        ({
            let out = entries_after(m, frame, parsed, now);
            let after = state_after(m, frame, parsed);
            &&& out.len() == 1
            &&& out[0].tag == model::Tag::Response
            &&& out[0].counter == m.pending[frame.slave].counter
            &&& out[0].ts == frame.timestamp
            &&& out[0].raw == frame.raw
            &&& out[0].body == (model::BodyModel::Frame { slave: frame.slave, parsed })
            &&& !after.pending.contains_key(frame.slave)
            &&& forall|s: u8|
                s != frame.slave ==> (#[trigger] after.pending.contains_key(s)
                    <==> m.pending.contains_key(s)) && (m.pending.contains_key(s)
                    ==> after.pending[s] == m.pending[s])
            &&& after.timed_out == m.timed_out
            &&& after.next_counter == m.next_counter
        }),
{
}

/// A response to nothing pending finds the oldest request of its slave that has
/// timed out, and is shown with it under its counter. That request leaves the
/// queue; the others stay in their order, and nothing else changes.
pub proof fn late_response_finds_the_oldest(
    m: PairingModel,
    frame: FrameModel,
    parsed: ParsedModel,
    now: Timestamp,
)
    requires
        parsed.role == Role::Response,
        !m.pending.contains_key(frame.slave),
        m.timed_out.contains_key(frame.slave),
        m.timed_out[frame.slave].len() > 0,
    ensures
        ({
            let out = entries_after(m, frame, parsed, now);
            let after = state_after(m, frame, parsed);
            let queue = m.timed_out[frame.slave];
            &&& out.len() == 1
            &&& out[0].tag == model::Tag::Orphan
            &&& out[0].counter == queue.first().counter
            &&& out[0].ts == frame.timestamp
            &&& out[0].raw == frame.raw
            &&& out[0].body == (model::BodyModel::Orphan {
                slave: frame.slave,
                late: parsed,
                orig: queue.first().parsed,
            })
            &&& if queue.len() == 1 {
                !after.timed_out.contains_key(frame.slave)
            } else {
                after.timed_out.contains_key(frame.slave) && seq![queue.first()]
                    + after.timed_out[frame.slave] == queue
            }
            &&& forall|s: u8|
                s != frame.slave ==> (#[trigger] after.timed_out.contains_key(s)
                    <==> m.timed_out.contains_key(s)) && (m.timed_out.contains_key(s)
                    ==> after.timed_out[s] == m.timed_out[s])
            &&& after.pending == m.pending
            &&& after.next_counter == m.next_counter
        }),
{
    let queue = m.timed_out[frame.slave];
    if queue.len() > 1 {
        assert(seq![queue.first()] + queue.skip(1) =~= queue);
    }
}

/// A response that nothing on record explains is shown as such, under a counter
/// of its own, and no request is touched by it.
pub proof fn unexplained_response_stands_alone(
    m: PairingModel,
    frame: FrameModel,
    parsed: ParsedModel,
    now: Timestamp,
)
    requires
        parsed.role == Role::Response,
        !m.pending.contains_key(frame.slave),
        !m.timed_out.contains_key(frame.slave),
    ensures
        ({
            let out = entries_after(m, frame, parsed, now);
            let after = state_after(m, frame, parsed);
            &&& out.len() == 1
            &&& out[0].tag == model::Tag::Orphan
            &&& out[0].counter == m.next_counter
            &&& out[0].ts == frame.timestamp
            &&& out[0].raw == frame.raw
            &&& out[0].body == (model::BodyModel::Unsolicited { slave: frame.slave, parsed })
            &&& after.pending == m.pending
            &&& after.timed_out == m.timed_out
        }),
{
    assert(state_after(m, frame, parsed).timed_out =~= m.timed_out);
}

/// A request that is given up on joins the end of its slave's queue. What was in
/// the queue stays before it in its order; only the oldest give way, and only
/// where more than thirty-two would be kept.
pub proof fn given_up_requests_queue_up(q: Seq<PendingModel>, req: PendingModel)
    requires
        q.len() <= 32,
    ensures
        queue_with(q, req).is_suffix_of(q.push(req)),
        queue_with(q, req).len() == if q.len() < 32 {
            q.len() + 1
        } else {
            32
        },
{
    let all = q.push(req);
    let r = queue_with(q, req);
    assert(all.subrange(all.len() - r.len(), all.len() as int) =~= r);
}

/// What a new request leaves of the requests before it: each that was pending
/// stands at the end of its slave's queue, and no other queue changes.
pub proof fn new_request_gives_up_the_others(
    m: PairingModel,
    frame: FrameModel,
    parsed: ParsedModel,
    s: u8,
)
    requires
        is_request(m, frame.slave, parsed.role),
    ensures
        ({
            let after = state_after(m, frame, parsed);
            let queue = if m.timed_out.contains_key(s) {
                m.timed_out[s]
            } else {
                Seq::empty()
            };
            if m.pending.contains_key(s) {
                after.timed_out.contains_key(s) && after.timed_out[s] == queue_with(
                    queue,
                    m.pending[s],
                )
            } else {
                after.timed_out.contains_key(s) == m.timed_out.contains_key(s) && (
                m.timed_out.contains_key(s) ==> after.timed_out[s] == queue)
            }
        }),
{
}

/// A sweep gives up exactly the requests that have waited longer than the timeout
/// allows, each to the end of its slave's queue, and leaves all others pending as
/// they are.
pub proof fn sweep_gives_up_what_is_overdue(m: PairingModel, now: Timestamp, s: u8)
    requires
        m.pending.contains_key(s),
    ensures
        ({
            let after = retired(m, expired(m, now));
            let queue = if m.timed_out.contains_key(s) {
                m.timed_out[s]
            } else {
                Seq::empty()
            };
            if now.millis_after(m.pending[s].opened_at) > m.response_timeout {
                !after.pending.contains_key(s) && after.timed_out.contains_key(s)
                    && after.timed_out[s] == queue_with(queue, m.pending[s])
            } else {
                after.pending.contains_key(s) && after.pending[s] == m.pending[s]
                    && after.timed_out.contains_key(s) == m.timed_out.contains_key(s) && (
                m.timed_out.contains_key(s) ==> after.timed_out[s] == queue)
            }
        }),
{
}

/// A sweep opens nothing, and touches no queue of a slave that owes nothing.
pub proof fn sweep_touches_nothing_else(m: PairingModel, now: Timestamp, s: u8)
    requires
        !m.pending.contains_key(s),
    ensures
        ({
            let after = retired(m, expired(m, now));
            &&& !after.pending.contains_key(s)
            &&& after.timed_out.contains_key(s) == m.timed_out.contains_key(s)
            &&& m.timed_out.contains_key(s) ==> after.timed_out[s] == m.timed_out[s]
        }),
{
}

/// Each request that a sweep gives up is told by one timeout of its own: a
/// response without bytes, at the time of the sweep, under its counter. No other
/// entry appears.
pub proof fn sweep_tells_what_it_gives_up(m: PairingModel, now: Timestamp)
    ensures
        ({
            let out = timeouts(now, counters_of(expired(m, now)));
            &&& forall|i: int|
                #![trigger out[i]]
                0 <= i < out.len() ==> out[i].tag == model::Tag::Response && out[i].ts == now
                    && out[i].raw.len() == 0 && out[i].body is Timeout && (exists|s: u8| #[trigger]
                    m.pending.contains_key(s) && m.pending[s].counter == out[i].counter
                        && now.millis_after(m.pending[s].opened_at) > m.response_timeout)
            &&& forall|s: u8| #[trigger]
                m.pending.contains_key(s) && now.millis_after(m.pending[s].opened_at)
                    > m.response_timeout ==> exists|i: int|
                    0 <= i < out.len() && (#[trigger] out[i]).counter == m.pending[s].counter
        }),
{
    let gone = expired(m, now);
    let out = timeouts(now, counters_of(gone));
    assert forall|i: int|
        #![trigger out[i]]
        0 <= i < out.len() implies out[i].tag == model::Tag::Response && out[i].ts == now
        && out[i].raw.len() == 0 && out[i].body is Timeout && (exists|s: u8| #[trigger]
        m.pending.contains_key(s) && m.pending[s].counter == out[i].counter && now.millis_after(
            m.pending[s].opened_at,
        ) > m.response_timeout) by {
        lemma_listed_counter(gone, 256, i);
        let s = choose|s: u8| #[trigger]
            gone.contains_key(s) && gone[s].counter == counters_of(gone)[i];
        assert(m.pending.contains_key(s));
    }
    assert forall|s: u8| #[trigger]
        m.pending.contains_key(s) && now.millis_after(m.pending[s].opened_at)
            > m.response_timeout implies exists|i: int|
        0 <= i < out.len() && (#[trigger] out[i]).counter == m.pending[s].counter by {
        assert(gone.contains_key(s));
        lemma_counter_is_listed(gone, s, 256);
        let i = choose|i: int|
            0 <= i < counters_of(gone).len() && counters_of(gone)[i] == gone[s].counter;
        assert(out[i].counter == m.pending[s].counter);
    }
}

/// What a new request closes is told without bytes, at the time it is closed: a
/// request to the same slave by a timeout, one to another slave by a no-response,
/// and nothing else is told besides the request itself.
pub proof fn new_request_tells_what_it_closes(
    m: PairingModel,
    frame: FrameModel,
    parsed: ParsedModel,
    now: Timestamp,
)
    requires
        is_request(m, frame.slave, parsed.role),
    ensures
        ({
            let out = entries_after(m, frame, parsed, now);
            forall|i: int|
                #![trigger out[i]]
                0 <= i < out.len() - 1 ==> out[i].tag == model::Tag::Response && out[i].ts == now
                    && out[i].raw.len() == 0 && (exists|s: u8| #[trigger]
                    m.pending.contains_key(s) && m.pending[s].counter == out[i].counter && if s
                        == frame.slave {
                        out[i].body is Timeout
                    } else {
                        out[i].body is NoResponse
                    })
        }),
{
    let out = entries_after(m, frame, parsed, now);
    let own = m.pending.restrict(set![frame.slave]);
    let others = m.pending.remove(frame.slave);
    let first = timeouts(now, counters_of(own));
    let second = no_responses(now, counters_of(others));
    assert forall|i: int|
        #![trigger out[i]]
        0 <= i < out.len() - 1 implies out[i].tag == model::Tag::Response && out[i].ts == now
        && out[i].raw.len() == 0 && (exists|s: u8| #[trigger]
        m.pending.contains_key(s) && m.pending[s].counter == out[i].counter && if s == frame.slave {
            out[i].body is Timeout
        } else {
            out[i].body is NoResponse
        }) by {
        if i < first.len() {
            assert(out[i] == first[i]);
            lemma_listed_counter(own, 256, i);
            let s = choose|s: u8| #[trigger]
                own.contains_key(s) && own[s].counter == counters_of(own)[i];
            assert(m.pending.contains_key(s));
        } else {
            let k = i - first.len();
            assert(out[i] == second[k]);
            lemma_listed_counter(others, 256, k);
            let s = choose|s: u8| #[trigger]
                others.contains_key(s) && others[s].counter == counters_of(others)[k];
            assert(m.pending.contains_key(s));
        }
    }
}

/// A capture starts with counter 1, nothing pending and nothing timed out, and
/// with the timeout that was asked for.
pub proof fn clean_state_is_empty(response_timeout: u64)
    ensures
        ({
            let m = clean_state(response_timeout);
            &&& m.next_counter == 1
            &&& m.response_timeout == response_timeout
            &&& m.pending == Map::<u8, PendingModel>::empty()
            &&& m.timed_out == Map::<u8, Seq<PendingModel>>::empty()
        }),
{
}

/// A model holds every field of what it stands for.
pub proof fn nothing_is_left_out(req: PendingReq, st: PairingState)
    ensures
        req@.opened_at == req.opened_at,
        req@.counter == req.counter,
        req@.slave == req.slave,
        req@.parsed == req.parsed@,
        req@.raw == req.raw@,
        st@.next_counter == st.next_counter,
        st@.response_timeout == st.response_timeout,
        forall|s: u8| #[trigger]
            st@.pending.contains_key(s) <==> st.pending@.contains_key(s),
        forall|s: u8| #[trigger]
            st.pending@.contains_key(s) ==> st@.pending[s] == st.pending@[s]@,
        forall|s: u8| #[trigger]
            st@.timed_out.contains_key(s) <==> st.timed_out@.contains_key(s),
        forall|s: u8, i: int|
            #![trigger st@.timed_out[s][i]]
            st.timed_out@.contains_key(s) && 0 <= i < st.timed_out@[s]@.len()
                ==> st@.timed_out[s].len() == st.timed_out@[s]@.len() && st@.timed_out[s][i]
                == st.timed_out@[s]@[i]@,
{
}

} // verus!
