//! The source manager's data plane: per-stream state, event building and
//! routing decisions.
//!
//! Preprocessors and codecs are consumed capabilities: the surrounding task
//! runs them and hands their results in as [`DecodeOutcome`]s. Codec and
//! preprocessor errors are turned into synthetic error events routed to the
//! error port — never silently dropped and never fatal to the stream; sibling
//! chunks of the same batch still produce their normal events.

use vstd::prelude::*;
use vstd::string::StringExecFns;

use crate::source::{EventId, EventIdV, Port, PortV, TrackedId};
use crate::value::{
    duplicate, entries_of, lemma_entries_of, unique_keys, Val, Value,
};

verus! {

broadcast use vstd::seq_lib::group_seq_lib_default;

/// The successor of an event counter (wrapping).
pub open spec fn wrap_inc(x: u64) -> u64 {
    if x == u64::MAX {
        0
    } else {
        (x + 1) as u64
    }
}

/// Per-stream state: the id generator's counter. The stream's codec instance
/// and preprocessor chain live with the surrounding task, keyed by the same
/// stream id.
#[derive(Clone, Copy, Debug, PartialEq, Eq, Structural)]
pub struct StreamState {
    pub stream_id: u64,
    pub next_event_id: u64,
}

/// The default stream id: data that does not name a stream belongs here.
pub const DEFAULT_STREAM_ID: u64 = 0;

/// Registry of live streams; stream ids are unique.
#[derive(Debug)]
pub struct Streams {
    pub uid: u64,
    pub states: Vec<StreamState>,
}

/// Is a stream id present?
pub open spec fn streams_has(states: Seq<StreamState>, id: u64) -> bool {
    exists|i: int| 0 <= i < states.len() && states[i].stream_id == id
}

/// Stream ids are unique.
pub open spec fn streams_unique(states: Seq<StreamState>) -> bool {
    forall|i: int, j: int|
        0 <= i < j < states.len() ==> states[i].stream_id != states[j].stream_id
}

impl Streams {
    /// A fresh registry holding the default stream.
    pub fn new(uid: u64) -> (r: Streams)
        ensures
            r.uid == uid,
            r.states@ =~= seq![StreamState { stream_id: DEFAULT_STREAM_ID, next_event_id: 0 }],
            streams_unique(r.states@),
    {
        let mut states: Vec<StreamState> = Vec::new();
        states.push(StreamState { stream_id: DEFAULT_STREAM_ID, next_event_id: 0 });
        Streams { uid, states }
    }

    /// Index of a stream, if present.
    #[verifier::loop_isolation(false)]
    pub fn find(&self, stream_id: u64) -> (r: Option<usize>)
        ensures
            match r {
                Some(i) => i < self.states@.len() && self.states@[i as int].stream_id == stream_id,
                None => !streams_has(self.states@, stream_id),
            },
    {
        let mut i: usize = 0;
        while i < self.states.len()
            invariant
                i <= self.states@.len(),
                forall|j: int| 0 <= j < i as int ==> self.states@[j].stream_id != stream_id,
            decreases self.states@.len() - i,
        {
            if self.states[i].stream_id == stream_id {
                return Some(i);
            }
            i = i + 1;
        }
        None
    }

    /// Starts a stream: creates fresh state on first sight, does nothing if
    /// the stream already exists.
    pub fn start_stream(&mut self, stream_id: u64)
        requires
            streams_unique(old(self).states@),
        ensures
            final(self).uid == old(self).uid,
            streams_unique(final(self).states@),
            streams_has(final(self).states@, stream_id),
            streams_has(old(self).states@, stream_id) ==> final(self).states@ == old(
                self,
            ).states@,
            !streams_has(old(self).states@, stream_id) ==> final(self).states@ == old(
                self,
            ).states@.push(StreamState { stream_id, next_event_id: 0 }),
    {
        match self.find(stream_id) {
            Some(i) => {
                proof {
                    assert(streams_has(self.states@, stream_id));
                }
            }
            None => {
                self.states.push(StreamState { stream_id, next_event_id: 0 });
                proof {
                    let s = self.states@;
                    assert forall|i: int, j: int|
                        0 <= i < j < s.len() implies s[i].stream_id != s[j].stream_id by {
                        if j == s.len() - 1 {
                            assert(s[i] == old(self).states@[i]);
                        }
                    }
                    assert(s[s.len() - 1].stream_id == stream_id);
                    assert(streams_has(s, stream_id));
                }
            }
        }
    }

    /// Ends a stream, handing its state back for the final flush.
    pub fn end_stream(&mut self, stream_id: u64) -> (r: Option<StreamState>)
        requires
            streams_unique(old(self).states@),
        ensures
            final(self).uid == old(self).uid,
            streams_unique(final(self).states@),
            !streams_has(final(self).states@, stream_id),
            match r {
                Some(st) => streams_has(old(self).states@, stream_id) && st.stream_id
                    == stream_id,
                None => !streams_has(old(self).states@, stream_id) && final(self).states@ == old(
                    self,
                ).states@,
            },
    {
        match self.find(stream_id) {
            Some(i) => {
                let st = self.states.remove(i);
                proof {
                    let s = self.states@;
                    let pre = old(self).states@;
                    assert forall|a: int, b: int|
                        0 <= a < b < s.len() implies s[a].stream_id != s[b].stream_id by {
                        assert(s[a] == if a < i as int {
                            pre[a]
                        } else {
                            pre[a + 1]
                        });
                        assert(s[b] == if b < i as int {
                            pre[b]
                        } else {
                            pre[b + 1]
                        });
                    }
                    assert forall|a: int|
                        0 <= a < s.len() implies (#[trigger] s[a]).stream_id != stream_id by {
                        assert(s[a] == if a < i as int {
                            pre[a]
                        } else {
                            pre[a + 1]
                        });
                    }
                }
                Some(st)
            }
            None => None,
        }
    }

    /// Index of the stream's state, creating it on first sight.
    pub fn get_or_create_stream(&mut self, stream_id: u64) -> (r: usize)
        requires
            streams_unique(old(self).states@),
        ensures
            final(self).uid == old(self).uid,
            streams_unique(final(self).states@),
            r < final(self).states@.len(),
            final(self).states@[r as int].stream_id == stream_id,
            streams_has(old(self).states@, stream_id) ==> final(self).states@ == old(
                self,
            ).states@,
            !streams_has(old(self).states@, stream_id) ==> final(self).states@ == old(
                self,
            ).states@.push(StreamState { stream_id, next_event_id: 0 }),
    {
        match self.find(stream_id) {
            Some(i) => i,
            None => {
                self.start_stream(stream_id);
                let n = self.states.len() - 1;
                n
            }
        }
    }
}

/// One event flowing downstream: identity, timestamp, origin, transactional
/// flag, payload and metadata.
#[derive(Debug, PartialEq)]
pub struct Event {
    pub id: EventId,
    pub ingest_ns: u64,
    pub origin_uri: String,
    pub transactional: bool,
    pub payload: Value,
    pub meta: Value,
}

/// Spec-level model of an event.
#[verifier::ext_equal]
pub struct EventV {
    pub id: EventIdV,
    pub ingest_ns: u64,
    pub origin_uri: Seq<char>,
    pub transactional: bool,
    pub payload: Val,
    pub meta: Val,
}

impl View for Event {
    type V = EventV;

    open spec fn view(&self) -> EventV {
        EventV {
            id: self.id@,
            ingest_ns: self.ingest_ns,
            origin_uri: self.origin_uri@,
            transactional: self.transactional,
            payload: self.payload@,
            meta: self.meta@,
        }
    }
}

/// What the codec made of one preprocessed chunk. `NoData` means "more data
/// needed, no event yet" — not an error.
#[derive(Debug, PartialEq)]
pub enum DecodeOutcome {
    Decoded(Value),
    NoData,
    Failed(String),
}

/// Spec-level model of a decode outcome.
#[verifier::ext_equal]
pub enum DecodeOutcomeV {
    Decoded(Val),
    NoData,
    Failed(Seq<char>),
}

impl View for DecodeOutcome {
    type V = DecodeOutcomeV;

    open spec fn view(&self) -> DecodeOutcomeV {
        match self {
            DecodeOutcome::Decoded(v) => DecodeOutcomeV::Decoded(v@),
            DecodeOutcome::NoData => DecodeOutcomeV::NoData,
            DecodeOutcome::Failed(e) => DecodeOutcomeV::Failed(e@),
        }
    }
}

/// Models of a list of decode outcomes.
pub open spec fn outcomes_of(s: Seq<DecodeOutcome>) -> Seq<DecodeOutcomeV> {
    s.map_values(|o: DecodeOutcome| o@)
}

/// The payload of a synthetic error event: the error text, the connector
/// url, and the failing stream and pull ids.
pub open spec fn error_payload(
    e: Seq<char>,
    url: Seq<char>,
    stream_id: u64,
    pull_id: u64,
) -> Val {
    Val::Object(
        seq![
            ("error"@, Val::Str(e)),
            ("source"@, Val::Str(url)),
            ("stream_id"@, Val::U64(stream_id)),
            ("pull_id"@, Val::U64(pull_id)),
        ],
    )
}

/// The metadata of a synthetic error event.
pub open spec fn error_meta(e: Seq<char>) -> Val {
    Val::Object(seq![("error"@, Val::Str(e))])
}

/// The identity the generator assigns to the next event of a stream.
pub open spec fn next_id_of(uid: u64, st: StreamState, pull_id: u64) -> EventIdV {
    EventIdV {
        source_id: uid,
        stream_id: st.stream_id,
        event_id: st.next_event_id,
        pull_id,
        carried: Seq::empty(),
    }
}

/// One event as [`build_events`] assembles it.
pub open spec fn event_of(
    uid: u64,
    st: StreamState,
    pull_id: u64,
    ingest_ns: u64,
    origin: Seq<char>,
    transactional: bool,
    payload: Val,
    meta: Val,
) -> EventV {
    EventV {
        id: next_id_of(uid, st, pull_id),
        ingest_ns,
        origin_uri: origin,
        transactional,
        payload,
        meta,
    }
}

/// The events a batch of decode outcomes produces: each decoded chunk one
/// event to the chosen (default `out`) port, each failed chunk one error
/// event to the `err` port, chunks without data nothing. Ids count up with
/// each produced event.
pub open spec fn built_events(
    uid: u64,
    st: StreamState,
    pull_id: u64,
    ingest_ns: u64,
    origin: Seq<char>,
    url: Seq<char>,
    transactional: bool,
    meta: Val,
    port: Option<PortV>,
    outcomes: Seq<DecodeOutcomeV>,
) -> Seq<(PortV, EventV)>
    decreases outcomes.len(),
{
    if outcomes.len() == 0 {
        Seq::empty()
    } else {
        let rest = outcomes.drop_first();
        match outcomes[0] {
            DecodeOutcomeV::NoData => built_events(
                uid,
                st,
                pull_id,
                ingest_ns,
                origin,
                url,
                transactional,
                meta,
                port,
                rest,
            ),
            DecodeOutcomeV::Decoded(v) => seq![
                (
                    if port is Some {
                        port->0
                    } else {
                        PortV::Out
                    },
                    event_of(uid, st, pull_id, ingest_ns, origin, transactional, v, meta),
                ),
            ] + built_events(
                uid,
                StreamState { next_event_id: wrap_inc(st.next_event_id), ..st },
                pull_id,
                ingest_ns,
                origin,
                url,
                transactional,
                meta,
                port,
                rest,
            ),
            DecodeOutcomeV::Failed(e) => seq![
                (
                    PortV::Error,
                    event_of(
                        uid,
                        st,
                        pull_id,
                        ingest_ns,
                        origin,
                        transactional,
                        error_payload(e, url, st.stream_id, pull_id),
                        error_meta(e),
                    ),
                ),
            ] + built_events(
                uid,
                StreamState { next_event_id: wrap_inc(st.next_event_id), ..st },
                pull_id,
                ingest_ns,
                origin,
                url,
                transactional,
                meta,
                port,
                rest,
            ),
        }
    }
}

/// A batch where every chunk decoded cleanly produces only default-port
/// events, one per chunk.
pub proof fn lemma_all_decoded(
    uid: u64,
    st: StreamState,
    pull_id: u64,
    ingest_ns: u64,
    origin: Seq<char>,
    url: Seq<char>,
    transactional: bool,
    meta: Val,
    outcomes: Seq<DecodeOutcomeV>,
)
    requires
        forall|j: int| 0 <= j < outcomes.len() ==> (#[trigger] outcomes[j]) is Decoded,
    ensures
        ({
            let evs = built_events(
                uid,
                st,
                pull_id,
                ingest_ns,
                origin,
                url,
                transactional,
                meta,
                None,
                outcomes,
            );
            evs.len() == outcomes.len() && forall|j: int|
                0 <= j < evs.len() ==> (#[trigger] evs[j]).0 == PortV::Out
        }),
    decreases outcomes.len(),
{
    if outcomes.len() > 0 {
        assert(outcomes[0] is Decoded);
        let rest = outcomes.drop_first();
        assert(forall|j: int| 0 <= j < rest.len() ==> (#[trigger] rest[j]) == outcomes[j + 1]);
        lemma_all_decoded(
            uid,
            StreamState { next_event_id: wrap_inc(st.next_event_id), ..st },
            pull_id,
            ingest_ns,
            origin,
            url,
            transactional,
            meta,
            rest,
        );
    }
}

/// A decode error on one chunk of a batch produces exactly one error-port
/// event for that chunk, while its sibling chunks still produce their normal
/// default-port events, one each, in order.
pub proof fn lemma_batch_error_isolated(
    uid: u64,
    st: StreamState,
    pull_id: u64,
    ingest_ns: u64,
    origin: Seq<char>,
    url: Seq<char>,
    transactional: bool,
    meta: Val,
    outcomes: Seq<DecodeOutcomeV>,
    f: int,
)
    requires
        0 <= f < outcomes.len(),
        outcomes[f] is Failed,
        forall|j: int|
            0 <= j < outcomes.len() && j != f ==> (#[trigger] outcomes[j]) is Decoded,
    ensures
        ({
            let evs = built_events(
                uid,
                st,
                pull_id,
                ingest_ns,
                origin,
                url,
                transactional,
                meta,
                None,
                outcomes,
            );
            &&& evs.len() == outcomes.len()
            &&& evs[f].0 == PortV::Error
            &&& forall|j: int|
                0 <= j < evs.len() && j != f ==> (#[trigger] evs[j]).0 == PortV::Out
        }),
    decreases outcomes.len(),
{
    let rest = outcomes.drop_first();
    assert(forall|j: int| 0 <= j < rest.len() ==> (#[trigger] rest[j]) == outcomes[j + 1]);
    let st1 = StreamState { next_event_id: wrap_inc(st.next_event_id), ..st };
    if f == 0 {
        lemma_all_decoded(
            uid,
            st1,
            pull_id,
            ingest_ns,
            origin,
            url,
            transactional,
            meta,
            rest,
        );
    } else {
        assert(outcomes[0] is Decoded);
        lemma_batch_error_isolated(
            uid,
            st1,
            pull_id,
            ingest_ns,
            origin,
            url,
            transactional,
            meta,
            rest,
            f - 1,
        );
    }
}

/// Builds the synthetic error payload.
fn make_error(e: &String, url: &String, stream_id: u64, pull_id: u64) -> (r: Value)
    ensures
        r@ == error_payload(e@, url@, stream_id, pull_id),
        r@.wf(),
{
    broadcast use lemma_entries_of;

    let mut entries: Vec<(String, Value)> = Vec::new();
    entries.push((String::from_str("error"), Value::Str(e.clone())));
    entries.push((String::from_str("source"), Value::Str(url.clone())));
    entries.push((String::from_str("stream_id"), Value::U64(stream_id)));
    entries.push((String::from_str("pull_id"), Value::U64(pull_id)));
    let r = Value::Object(entries);
    proof {
        reveal_strlit("error");
        reveal_strlit("source");
        reveal_strlit("stream_id");
        reveal_strlit("pull_id");
        lemma_entries_of(entries@);
        assert(r@ is Object);
        assert(r@->Object_0 == entries_of(entries@));
        assert(entries_of(entries@).len() == 4);
        assert(r@->Object_0 =~= seq![
            ("error"@, Val::Str(e@)),
            ("source"@, Val::Str(url@)),
            ("stream_id"@, Val::U64(stream_id)),
            ("pull_id"@, Val::U64(pull_id)),
        ]);
        assert(r@ == error_payload(e@, url@, stream_id, pull_id));
        assert("error"@.len() == 5 && "source"@.len() == 6 && "stream_id"@.len() == 9
            && "pull_id"@.len() == 7);
        assert(unique_keys(r@->Object_0));
        crate::value::lemma_obj_vals_wf(r@->Object_0);
        assert(r@.wf());
    }
    r
}

/// Builds the synthetic error metadata.
fn make_error_meta(e: &String) -> (r: Value)
    ensures
        r@ == error_meta(e@),
        r@.wf(),
{
    broadcast use lemma_entries_of;

    let mut entries: Vec<(String, Value)> = Vec::new();
    entries.push((String::from_str("error"), Value::Str(e.clone())));
    let r = Value::Object(entries);
    proof {
        reveal_strlit("error");
        lemma_entries_of(entries@);
        assert(r@ is Object);
        assert(r@->Object_0 == entries_of(entries@));
        assert(entries_of(entries@).len() == 1);
        assert(r@->Object_0 =~= seq![("error"@, Val::Str(e@))]);
        assert(r@ == error_meta(e@));
        assert(unique_keys(r@->Object_0));
        crate::value::lemma_obj_vals_wf(r@->Object_0);
        assert(r@.wf());
    }
    r
}

impl StreamState {
    /// Assigns the next event id of this stream (strictly increasing per
    /// stream until the counter wraps).
    pub fn next_id(&mut self, uid: u64, pull_id: u64) -> (r: EventId)
        ensures
            r@ == next_id_of(uid, *old(self), pull_id),
            final(self).stream_id == old(self).stream_id,
            final(self).next_event_id == wrap_inc(old(self).next_event_id),
    {
        let eid = self.next_event_id;
        if self.next_event_id == u64::MAX {
            self.next_event_id = 0;
        } else {
            self.next_event_id = self.next_event_id + 1;
        }
        let r = EventId {
            source_id: uid,
            stream_id: self.stream_id,
            event_id: eid,
            pull_id,
            carried: Vec::new(),
        };
        proof {
            assert(r@ =~= next_id_of(uid, *old(self), pull_id));
        }
        r
    }
}

/// Builds the events of one source transport unit from its decode outcomes;
/// decode failures become error-port events while sibling chunks still
/// produce their normal events.
#[verifier::loop_isolation(false)]
pub fn build_events(
    uid: u64,
    st: &mut StreamState,
    pull_id: u64,
    ingest_ns: u64,
    origin: &String,
    url: &String,
    transactional: bool,
    meta: &Value,
    port: &Option<Port>,
    outcomes: &Vec<DecodeOutcome>,
) -> (r: Vec<(Port, Event)>)
    ensures
        ({
            let evs = built_events(
                uid,
                *old(st),
                pull_id,
                ingest_ns,
                origin@,
                url@,
                transactional,
                meta@,
                match port {
                    Some(p) => Some(p@),
                    None => None,
                },
                outcomes_of(outcomes@),
            );
            &&& r@.len() == evs.len()
            &&& forall|i: int|
                0 <= i < evs.len() ==> ((#[trigger] r@[i]).0@, r@[i].1@) == evs[i]
        }),
        final(st).stream_id == old(st).stream_id,
{
    let ghost pv: Option<PortV> = match port {
        Some(p) => Some(p@),
        None => None,
    };
    let ghost all = outcomes_of(outcomes@);
    let ghost target = built_events(
        uid,
        *old(st),
        pull_id,
        ingest_ns,
        origin@,
        url@,
        transactional,
        meta@,
        pv,
        all,
    );
    let mut out: Vec<(Port, Event)> = Vec::new();
    let mut i: usize = 0;
    proof {
        assert(all.skip(0) =~= all);
    }
    while i < outcomes.len()
        invariant
            i <= outcomes@.len(),
            st.stream_id == old(st).stream_id,
            out@.len() + built_events(
                uid,
                *st,
                pull_id,
                ingest_ns,
                origin@,
                url@,
                transactional,
                meta@,
                pv,
                all.skip(i as int),
            ).len() == target.len(),
            forall|k: int|
                0 <= k < out@.len() ==> ((#[trigger] out@[k]).0@, out@[k].1@) == target[k],
            built_events(
                uid,
                *st,
                pull_id,
                ingest_ns,
                origin@,
                url@,
                transactional,
                meta@,
                pv,
                all.skip(i as int),
            ) =~= target.skip(out@.len() as int),
        decreases outcomes@.len() - i,
    {
        proof {
            assert(all.skip(i as int)[0] == all[i as int]);
            assert(all.skip(i as int).drop_first() =~= all.skip(i as int + 1));
        }
        let ghost olen: int = out@.len() as int;
        let ghost st0: StreamState = *st;
        let ghost rem: Seq<(PortV, EventV)> = built_events(
            uid,
            st0,
            pull_id,
            ingest_ns,
            origin@,
            url@,
            transactional,
            meta@,
            pv,
            all.skip(i as int),
        );
        match &outcomes[i] {
            DecodeOutcome::NoData => {
                proof {
                    assert(rem == built_events(
                        uid,
                        st0,
                        pull_id,
                        ingest_ns,
                        origin@,
                        url@,
                        transactional,
                        meta@,
                        pv,
                        all.skip(i as int + 1),
                    ));
                }
            }
            DecodeOutcome::Decoded(v) => {
                let ghost st_pre = *st;
                let id = st.next_id(uid, pull_id);
                let ev = Event {
                    id,
                    ingest_ns,
                    origin_uri: origin.clone(),
                    transactional,
                    payload: duplicate(v),
                    meta: duplicate(meta),
                };
                let p = match port {
                    Some(Port::Out) => Port::Out,
                    Some(Port::Error) => Port::Error,
                    Some(Port::Other(s)) => Port::Other(s.clone()),
                    None => Port::Out,
                };
                proof {
                    assert(ev@ =~= event_of(
                        uid,
                        st_pre,
                        pull_id,
                        ingest_ns,
                        origin@,
                        transactional,
                        v@,
                        meta@,
                    ));
                }
                out.push((p, ev));
                proof {
                    let elem = (
                        if pv is Some {
                            pv->0
                        } else {
                            PortV::Out
                        },
                        event_of(
                            uid,
                            st_pre,
                            pull_id,
                            ingest_ns,
                            origin@,
                            transactional,
                            v@,
                            meta@,
                        ),
                    );
                    let tail = built_events(
                        uid,
                        *st,
                        pull_id,
                        ingest_ns,
                        origin@,
                        url@,
                        transactional,
                        meta@,
                        pv,
                        all.skip(i as int + 1),
                    );
                    assert(*st == StreamState {
                        next_event_id: wrap_inc(st_pre.next_event_id),
                        ..st_pre
                    });
                    assert(rem == seq![elem] + tail);
                    assert(target.skip(olen)[0] == elem);
                    assert(p@ == elem.0);
                    assert((out@[olen].0@, out@[olen].1@) == target[olen]);
                    assert(tail =~= target.skip(olen).drop_first());
                    assert(target.skip(olen).drop_first() =~= target.skip(olen + 1));
                }
            }
            DecodeOutcome::Failed(e) => {
                let ghost st_pre = *st;
                let id = st.next_id(uid, pull_id);
                let payload = make_error(e, url, st.stream_id, pull_id);
                let emeta = make_error_meta(e);
                let ev = Event {
                    id,
                    ingest_ns,
                    origin_uri: origin.clone(),
                    transactional,
                    payload,
                    meta: emeta,
                };
                proof {
                    assert(ev@ =~= event_of(
                        uid,
                        st_pre,
                        pull_id,
                        ingest_ns,
                        origin@,
                        transactional,
                        error_payload(e@, url@, st_pre.stream_id, pull_id),
                        error_meta(e@),
                    ));
                }
                out.push((Port::Error, ev));
                proof {
                    let elem = (
                        PortV::Error,
                        event_of(
                            uid,
                            st_pre,
                            pull_id,
                            ingest_ns,
                            origin@,
                            transactional,
                            error_payload(e@, url@, st_pre.stream_id, pull_id),
                            error_meta(e@),
                        ),
                    );
                    let tail = built_events(
                        uid,
                        *st,
                        pull_id,
                        ingest_ns,
                        origin@,
                        url@,
                        transactional,
                        meta@,
                        pv,
                        all.skip(i as int + 1),
                    );
                    assert(*st == StreamState {
                        next_event_id: wrap_inc(st_pre.next_event_id),
                        ..st_pre
                    });
                    assert(rem == seq![elem] + tail);
                    assert(target.skip(olen)[0] == elem);
                    assert((out@[olen].0@, out@[olen].1@) == target[olen]);
                    assert(tail =~= target.skip(olen).drop_first());
                    assert(target.skip(olen).drop_first() =~= target.skip(olen + 1));
                }
            }
        }
        i = i + 1;
    }
    proof {
        assert(all.skip(outcomes@.len() as int).len() == 0);
        assert(out@.len() == target.len());
    }
    out
}

/// The ports of a list of routed events.
pub open spec fn ports_of(events: Seq<(Port, Event)>) -> Seq<PortV> {
    Seq::new(events.len(), |i: int| events[i].0@)
}

/// The sends one event requires: a copy to every pipeline of its port;
/// an unknown port is logged and skipped.
pub open spec fn routes_for(
    outp: Seq<u64>,
    errp: Seq<u64>,
    p: PortV,
    idx: int,
) -> Seq<(u64, int)> {
    match p {
        PortV::Out => Seq::new(outp.len(), |j: int| (outp[j], idx)),
        PortV::Error => Seq::new(errp.len(), |j: int| (errp[j], idx)),
        PortV::Other(_) => Seq::empty(),
    }
}

/// The full send plan for a list of events, in order.
pub open spec fn planned_routes(
    outp: Seq<u64>,
    errp: Seq<u64>,
    ports: Seq<PortV>,
) -> Seq<(u64, int)>
    decreases ports.len(),
{
    if ports.len() == 0 {
        Seq::empty()
    } else {
        planned_routes(outp, errp, ports.drop_last()) + routes_for(
            outp,
            errp,
            ports.last(),
            ports.len() - 1,
        )
    }
}

/// Decides where each event goes: every event is sent to every pipeline
/// connected to its port (`out` events count toward the `out` metric, `err`
/// events toward the error metric); events for an unknown port are logged and
/// skipped. The returned pairs are (pipeline id, event index).
#[verifier::loop_isolation(false)]
pub fn route_events(
    pipelines_out: &Vec<u64>,
    pipelines_err: &Vec<u64>,
    events: &Vec<(Port, Event)>,
) -> (r: Vec<(u64, usize)>)
    ensures
        ({
            let plan = planned_routes(pipelines_out@, pipelines_err@, ports_of(events@));
            r@.len() == plan.len() && forall|k: int|
                0 <= k < plan.len() ==> ((#[trigger] r@[k]).0, r@[k].1 as int) == plan[k]
        }),
{
    let ghost ports = ports_of(events@);
    let mut plan: Vec<(u64, usize)> = Vec::new();
    let mut i: usize = 0;
    proof {
        assert(ports.take(0) =~= Seq::<PortV>::empty());
    }
    while i < events.len()
        invariant
            i <= events@.len(),
            ({
                let sofar = planned_routes(pipelines_out@, pipelines_err@, ports.take(i as int));
                plan@.len() == sofar.len() && forall|k: int|
                    0 <= k < sofar.len() ==> ((#[trigger] plan@[k]).0, plan@[k].1 as int)
                        == sofar[k]
            }),
        decreases events@.len() - i,
    {
        let ghost sofar = planned_routes(pipelines_out@, pipelines_err@, ports.take(i as int));
        proof {
            assert(ports.take(i as int + 1).drop_last() =~= ports.take(i as int));
            assert(ports.take(i as int + 1).last() == ports[i as int]);
            assert(ports[i as int] == events@[i as int].0@);
        }
        match &events[i].0 {
            Port::Out => {
                let mut j: usize = 0;
                while j < pipelines_out.len()
                    invariant
                        j <= pipelines_out@.len(),
                        i < events@.len(),
                        plan@.len() == sofar.len() + j as int,
                        forall|k: int|
                            0 <= k < sofar.len() ==> ((#[trigger] plan@[k]).0, plan@[k].1 as int)
                                == sofar[k],
                        forall|k: int|
                            sofar.len() <= k < plan@.len() ==> ((#[trigger] plan@[k]).0, plan@[k].1 as int) == (
                                pipelines_out@[k - sofar.len()],
                                i as int,
                            ),
                    decreases pipelines_out@.len() - j,
                {
                    plan.push((pipelines_out[j], i));
                    j = j + 1;
                }
            }
            Port::Error => {
                let mut j: usize = 0;
                while j < pipelines_err.len()
                    invariant
                        j <= pipelines_err@.len(),
                        i < events@.len(),
                        plan@.len() == sofar.len() + j as int,
                        forall|k: int|
                            0 <= k < sofar.len() ==> ((#[trigger] plan@[k]).0, plan@[k].1 as int)
                                == sofar[k],
                        forall|k: int|
                            sofar.len() <= k < plan@.len() ==> ((#[trigger] plan@[k]).0, plan@[k].1 as int) == (
                                pipelines_err@[k - sofar.len()],
                                i as int,
                            ),
                    decreases pipelines_err@.len() - j,
                {
                    plan.push((pipelines_err[j], i));
                    j = j + 1;
                }
            }
            Port::Other(_) => {}
        }
        i = i + 1;
    }
    proof {
        assert(ports.take(events@.len() as int) =~= ports);
    }
    plan
}

} // verus!
