//! The scan policy over one raw chunk: records are walked newest-first, the
//! trailing time window is enforced by stopping the scan at the first record
//! outside it (never by skipping), records from foreign providers are
//! skipped without further decoding, and accepted events accumulate up to a
//! fixed cap that bounds the work regardless of log volume.
use vstd::prelude::*;
use crate::fields::{ExecutionEvent, EventModel, event_view, event_model, map_fields,
    UNKNOWN_IMAGE};
use crate::record::{CursorStep, next_record, cursor_malformed, rec_len_at, rec_time_at,
    rec_num_strings_at, rec_string_offset_at, provider_units_at};
use crate::strings::{strings_model, extract_strings, utf16_lossy_of};

verus! {

/// Length of the trailing time window, in seconds.
pub const WINDOW_SECS: u32 = 60;

/// Most events ever collected in one scan.
pub const EVENT_CAP: usize = 10;

/// The one provider whose records are decoded further.
pub const PROVIDER_NAME: &'static str = "Microsoft-Windows-Security-Auditing";

/// A record generated at `ts` lies inside the trailing window ending `now`.
pub open spec fn in_window(ts: u32, now: u32) -> bool {
    ts <= now && now - ts <= WINDOW_SECS
}

/// What one step of the scan asks of its caller.
#[derive(Clone, Copy, PartialEq, Eq, Structural, Debug)]
pub enum ChunkOutcome {
    /// The chunk is exhausted; an older chunk may still be read.
    Continue,
    /// The scan is over: the window was left, the cap was reached, or the
    /// chunk was malformed. No further chunk is to be read.
    Halt,
}

/// The models of a sequence of collected events.
pub open spec fn events_view(s: Seq<ExecutionEvent>) -> Seq<EventModel> {
    Seq::new(s.len(), |i: int| event_view(s[i]))
}

/// Accumulates accepted events up to the fixed cap; events whose image path
/// failed the acceptance heuristic are dropped, never surfaced.
pub struct EventCollector {
    /// The collected events, newest first.
    pub events: Vec<ExecutionEvent>,
}

impl EventCollector {
    /// The collector never exceeds the cap and never holds the sentinel.
    pub open spec fn wf(&self) -> bool {
        &&& self.events@.len() <= EVENT_CAP
        &&& forall|i: int| 0 <= i < self.events@.len() ==> #[trigger] self.events@[i].image_path@
            != UNKNOWN_IMAGE@
    }

    /// An empty collector.
    pub fn new() -> (c: Self)
        ensures
            c.wf(),
            c.events@.len() == 0,
    {
        EventCollector { events: Vec::new() }
    }

    /// Offers one event: it is kept only when the cap is not yet reached and
    /// its image path is not the sentinel.
    pub fn offer(&mut self, e: ExecutionEvent) -> (accepted: bool)
        requires
            old(self).wf(),
        ensures
            final(self).wf(),
            accepted == (old(self).events@.len() < EVENT_CAP && e.image_path@
                != UNKNOWN_IMAGE@),
            accepted ==> final(self).events@ == old(self).events@.push(e),
            !accepted ==> final(self).events@ == old(self).events@,
    {
        if self.events.len() < EVENT_CAP {
            let unknown = String::from_str(UNKNOWN_IMAGE);
            if !(e.image_path == unknown) {
                self.events.push(e);
                return true;
            }
        }
        false
    }

    /// How many events have been collected.
    pub fn count(&self) -> (n: usize)
        ensures
            n == self.events@.len(),
    {
        self.events.len()
    }

    /// Whether any event has been collected.
    pub fn found_any(&self) -> (b: bool)
        ensures
            b == (self.events@.len() > 0),
    {
        self.events.len() > 0
    }
}

/// The events the scan collects from a chunk starting at `off` with room
/// for `room` more events, and whether the scan goes on to an older chunk.
///
/// A malformed record abandons the chunk as end of available data. A record
/// outside the window halts the whole scan: records arrive newest-first, so
/// nothing after it can lie inside. A foreign provider's record is skipped
/// whole. An event whose image path was rejected is dropped. Reaching the
/// cap halts the scan.
pub open spec fn scan_model(c: Seq<u8>, now: u32, off: int, room: nat) -> (Seq<EventModel>,
    ChunkOutcome)
    decreases c.len() - off,
{
    if room == 0 {
        (Seq::<EventModel>::empty(), ChunkOutcome::Halt)
    } else if off < 0 || off >= c.len() {
        (Seq::<EventModel>::empty(), ChunkOutcome::Continue)
    } else if cursor_malformed(c, off) {
        (Seq::<EventModel>::empty(), ChunkOutcome::Halt)
    } else {
        let ts = rec_time_at(c, off);
        let next = off + rec_len_at(c, off);
        if !in_window(ts, now) {
            (Seq::<EventModel>::empty(), ChunkOutcome::Halt)
        } else if utf16_lossy_of(provider_units_at(c, off)) != PROVIDER_NAME@ {
            scan_model(c, now, next, room)
        } else {
            match strings_model(
                c,
                off + rec_string_offset_at(c, off),
                rec_num_strings_at(c, off) as int,
                next,
            ) {
                Option::None => (Seq::<EventModel>::empty(), ChunkOutcome::Halt),
                Option::Some(sv) => {
                    let ev = event_model(sv, ts);
                    if ev.image_path == UNKNOWN_IMAGE@ {
                        scan_model(c, now, next, room)
                    } else if room == 1 {
                        (seq![ev], ChunkOutcome::Halt)
                    } else {
                        let rest = scan_model(c, now, next, (room - 1) as nat);
                        (seq![ev] + rest.0, rest.1)
                    }
                },
            }
        }
    }
}

/// The provider filter: the record at `off` came from the one expected
/// audit provider.
pub open spec fn provider_ok(c: Seq<u8>, off: int) -> bool {
    utf16_lossy_of(provider_units_at(c, off)) == PROVIDER_NAME@
}

/// The string table of the record at `off`, as the model sees it.
pub open spec fn table_model(c: Seq<u8>, off: int) -> Option<Seq<Seq<char>>> {
    strings_model(
        c,
        off + rec_string_offset_at(c, off),
        rec_num_strings_at(c, off) as int,
        off + rec_len_at(c, off),
    )
}

proof fn lemma_step_end(c: Seq<u8>, now: u32, off: int, room: nat)
    requires
        room > 0,
        off >= c.len(),
    ensures
        scan_model(c, now, off, room) == (Seq::<EventModel>::empty(), ChunkOutcome::Continue),
{
}

proof fn lemma_step_malformed(c: Seq<u8>, now: u32, off: int, room: nat)
    requires
        room > 0,
        0 <= off < c.len(),
        cursor_malformed(c, off),
    ensures
        scan_model(c, now, off, room) == (Seq::<EventModel>::empty(), ChunkOutcome::Halt),
{
}

proof fn lemma_step_window(c: Seq<u8>, now: u32, off: int, room: nat)
    requires
        room > 0,
        0 <= off < c.len(),
        !cursor_malformed(c, off),
        !in_window(rec_time_at(c, off), now),
    ensures
        scan_model(c, now, off, room) == (Seq::<EventModel>::empty(), ChunkOutcome::Halt),
{
}

proof fn lemma_step_foreign(c: Seq<u8>, now: u32, off: int, room: nat)
    requires
        room > 0,
        0 <= off < c.len(),
        !cursor_malformed(c, off),
        in_window(rec_time_at(c, off), now),
        !provider_ok(c, off),
    ensures
        scan_model(c, now, off, room) == scan_model(c, now, off + rec_len_at(c, off), room),
{
}

proof fn lemma_step_strings_none(c: Seq<u8>, now: u32, off: int, room: nat)
    requires
        room > 0,
        0 <= off < c.len(),
        !cursor_malformed(c, off),
        in_window(rec_time_at(c, off), now),
        provider_ok(c, off),
        table_model(c, off) is None,
    ensures
        scan_model(c, now, off, room) == (Seq::<EventModel>::empty(), ChunkOutcome::Halt),
{
}

proof fn lemma_step_drop(c: Seq<u8>, now: u32, off: int, room: nat, sv: Seq<Seq<char>>)
    requires
        room > 0,
        0 <= off < c.len(),
        !cursor_malformed(c, off),
        in_window(rec_time_at(c, off), now),
        provider_ok(c, off),
        table_model(c, off) == Some(sv),
        event_model(sv, rec_time_at(c, off)).image_path == UNKNOWN_IMAGE@,
    ensures
        scan_model(c, now, off, room) == scan_model(c, now, off + rec_len_at(c, off), room),
{
}

proof fn lemma_step_accept_last(c: Seq<u8>, now: u32, off: int, sv: Seq<Seq<char>>)
    requires
        0 <= off < c.len(),
        !cursor_malformed(c, off),
        in_window(rec_time_at(c, off), now),
        provider_ok(c, off),
        table_model(c, off) == Some(sv),
        event_model(sv, rec_time_at(c, off)).image_path != UNKNOWN_IMAGE@,
    ensures
        scan_model(c, now, off, 1) == (
            seq![event_model(sv, rec_time_at(c, off))],
            ChunkOutcome::Halt,
        ),
{
}

proof fn lemma_step_accept(c: Seq<u8>, now: u32, off: int, room: nat, sv: Seq<Seq<char>>)
    requires
        room > 1,
        0 <= off < c.len(),
        !cursor_malformed(c, off),
        in_window(rec_time_at(c, off), now),
        provider_ok(c, off),
        table_model(c, off) == Some(sv),
        event_model(sv, rec_time_at(c, off)).image_path != UNKNOWN_IMAGE@,
    ensures
        scan_model(c, now, off, room) == (
            seq![event_model(sv, rec_time_at(c, off))] + scan_model(
                c,
                now,
                off + rec_len_at(c, off),
                (room - 1) as nat,
            ).0,
            scan_model(c, now, off + rec_len_at(c, off), (room - 1) as nat).1,
        ),
{
}

/// What one step of the walk decided.
enum StepResult {
    /// Go on with the record at this offset.
    Advance(usize),
    /// The scan is over, with this outcome.
    Stop(ChunkOutcome),
}

/// Decodes the record at `offset`, enforces the window policy and the
/// provider filter, maps the fields, and offers the event to the collector.
/// The ghost component carries the models of the events this step kept.
#[verifier::rlimit(100)]
fn scan_step(chunk: &Vec<u8>, now: u32, collector: &mut EventCollector, offset: usize) -> (r: (
    StepResult,
    Ghost<Seq<EventModel>>,
))
    requires
        old(collector).wf(),
        old(collector).events@.len() < EVENT_CAP,
    ensures
        final(collector).wf(),
        events_view(final(collector).events@) == events_view(old(collector).events@) + r.1@,
        ({
            let room = (EVENT_CAP - old(collector).events@.len()) as nat;
            let m = scan_model(chunk@, now, offset as int, room);
            match r.0 {
                StepResult::Advance(next) => {
                    let rest = scan_model(
                        chunk@,
                        now,
                        next as int,
                        (EVENT_CAP - final(collector).events@.len()) as nat,
                    );
                    &&& offset < next <= chunk@.len()
                    &&& final(collector).events@.len() < EVENT_CAP
                    &&& m.0 == r.1@ + rest.0
                    &&& m.1 == rest.1
                },
                StepResult::Stop(out) => {
                    &&& m.0 == r.1@
                    &&& m.1 == out
                },
            }
        }),
{
    let ghost c = chunk@;
    let ghost room_now = (EVENT_CAP - collector.events@.len()) as nat;
    let ghost no_delta = Seq::<EventModel>::empty();
    proof {
        assert(events_view(collector.events@) =~= events_view(collector.events@) + no_delta);
    }
    match next_record(chunk, offset) {
        CursorStep::EndOfChunk => {
            proof {
                lemma_step_end(c, now, offset as int, room_now);
            }
            (StepResult::Stop(ChunkOutcome::Continue), Ghost(no_delta))
        },
        CursorStep::Malformed => {
            proof {
                lemma_step_malformed(c, now, offset as int, room_now);
            }
            (StepResult::Stop(ChunkOutcome::Halt), Ghost(no_delta))
        },
        CursorStep::Record(header, next) => {
            if !(header.timestamp <= now && now - header.timestamp <= WINDOW_SECS) {
                proof {
                    assert(!in_window(rec_time_at(c, offset as int), now));
                    lemma_step_window(c, now, offset as int, room_now);
                }
                return (StepResult::Stop(ChunkOutcome::Halt), Ghost(no_delta));
            }
            let provider_ref = String::from_str(PROVIDER_NAME);
            if !(header.provider == provider_ref) {
                proof {
                    assert(!provider_ok(c, offset as int));
                    lemma_step_foreign(c, now, offset as int, room_now);
                }
                return (StepResult::Advance(next), Ghost(no_delta));
            }
            let table: Option<Vec<String>> = if header.string_offset <= header.length {
                extract_strings(
                    chunk,
                    offset + header.string_offset as usize,
                    header.num_strings,
                    next,
                )
            } else if header.num_strings == 0 {
                Some(Vec::new())
            } else {
                proof {
                    let pos = offset + rec_string_offset_at(c, offset as int);
                    assert(crate::strings::wide_string_at(c, pos, next as int) is None);
                    assert(strings_model(
                        c,
                        pos,
                        rec_num_strings_at(c, offset as int) as int,
                        next as int,
                    ) is None);
                }
                None
            };
            match table {
                None => {
                    proof {
                        assert(table_model(c, offset as int) is None);
                        lemma_step_strings_none(c, now, offset as int, room_now);
                    }
                    (StepResult::Stop(ChunkOutcome::Halt), Ghost(no_delta))
                },
                Some(strs) => {
                    proof {
                        if header.num_strings == 0 && header.string_offset > header.length {
                            assert(strs.deep_view() =~= Seq::<Seq<char>>::empty());
                            assert(strings_model(
                                c,
                                offset + rec_string_offset_at(c, offset as int),
                                0,
                                next as int,
                            ) == Some(Seq::<Seq<char>>::empty()));
                        }
                        assert(table_model(c, offset as int) == Some(strs.deep_view()));
                    }
                    let ghost sv = strs.deep_view();
                    let ghost ev = event_model(sv, header.timestamp);
                    let e = map_fields(&strs, header.timestamp);
                    let ghost prev = collector.events@;
                    let accepted = collector.offer(e);
                    if accepted {
                        proof {
                            assert(e.image_path@ == ev.image_path);
                            assert(ev.image_path != UNKNOWN_IMAGE@);
                            assert(collector.events@ == prev.push(e));
                            assert(events_view(prev.push(e)) =~= events_view(prev)
                                + seq![ev]);
                        }
                        let ghost one_delta = seq![ev];
                        if collector.count() >= EVENT_CAP {
                            proof {
                                assert(room_now == 1);
                                lemma_step_accept_last(c, now, offset as int, sv);
                            }
                            (StepResult::Stop(ChunkOutcome::Halt), Ghost(one_delta))
                        } else {
                            proof {
                                assert(room_now > 1);
                                lemma_step_accept(c, now, offset as int, room_now, sv);
                                assert((EVENT_CAP - collector.events@.len()) as nat == (
                                room_now - 1) as nat);
                            }
                            (StepResult::Advance(next), Ghost(one_delta))
                        }
                    } else {
                        proof {
                            assert(e.image_path@ == ev.image_path);
                            assert(ev.image_path == UNKNOWN_IMAGE@);
                            assert(collector.events@ == prev);
                            lemma_step_drop(c, now, offset as int, room_now, sv);
                        }
                        (StepResult::Advance(next), Ghost(no_delta))
                    }
                },
            }
        },
    }
}

/// Walks one chunk, feeding every qualifying record's event to the
/// collector, and says whether an older chunk should still be read.
#[verifier::rlimit(100)]
pub fn scan_chunk(chunk: &Vec<u8>, now: u32, collector: &mut EventCollector) -> (o: ChunkOutcome)
    requires
        old(collector).wf(),
    ensures
        final(collector).wf(),
        ({
            let m = scan_model(
                chunk@,
                now,
                0,
                (EVENT_CAP - old(collector).events@.len()) as nat,
            );
            &&& events_view(final(collector).events@) == events_view(old(collector).events@)
                + m.0
            &&& o == m.1
        }),
{
    let ghost c = chunk@;
    let ghost old_events = collector.events@;
    let ghost room0 = (EVENT_CAP - old_events.len()) as nat;
    if collector.count() >= EVENT_CAP {
        proof {
            assert(scan_model(c, now, 0, room0) == (
                Seq::<EventModel>::empty(),
                ChunkOutcome::Halt,
            ));
            assert(events_view(collector.events@) =~= events_view(old_events)
                + Seq::<EventModel>::empty());
        }
        return ChunkOutcome::Halt;
    }
    let n: usize = chunk.len();
    let mut offset: usize = 0;
    let ghost m0 = scan_model(c, now, 0, room0);
    let ghost mut added = Seq::<EventModel>::empty();
    proof {
        assert(events_view(old_events) =~= events_view(old_events) + added);
        assert(added + m0.0 =~= m0.0);
    }
    loop
        invariant
            collector.wf(),
            n == c.len(),
            c == chunk@,
            offset <= n,
            collector.events@.len() < EVENT_CAP,
            old_events == old(collector).events@,
            room0 == (EVENT_CAP - old_events.len()) as nat,
            m0 == scan_model(c, now, 0, room0),
            events_view(collector.events@) == events_view(old_events) + added,
            ({
                let rest = scan_model(
                    c,
                    now,
                    offset as int,
                    (EVENT_CAP - collector.events@.len()) as nat,
                );
                &&& m0.0 == added + rest.0
                &&& m0.1 == rest.1
            }),
        decreases n - offset,
    {
        let ghost added_before = added;
        let ghost pre = collector.events@;
        let (step, delta) = scan_step(chunk, now, collector, offset);
        proof {
            added = added_before + delta@;
            lemma_add_assoc(events_view(old_events), added_before, delta@);
        }
        match step {
            StepResult::Advance(next) => {
                proof {
                    let rest = scan_model(
                        c,
                        now,
                        next as int,
                        (EVENT_CAP - collector.events@.len()) as nat,
                    );
                    lemma_add_assoc(added_before, delta@, rest.0);
                }
                offset = next;
            },
            StepResult::Stop(out) => {
                proof {
                    let room_pre = (EVENT_CAP - pre.len()) as nat;
                    let m_step = scan_model(c, now, offset as int, room_pre);
                    assert(m0.0 == added_before + m_step.0);
                    assert(m_step.0 == delta@);
                    assert(m0.0 == added);
                    assert(m0.1 == out);
                    assert(events_view(collector.events@) == events_view(old_events) + m0.0);
                }
                return out;
            },
        }
    }
}

/// Appending is associative.
proof fn lemma_add_assoc(a: Seq<EventModel>, b: Seq<EventModel>, d: Seq<EventModel>)
    ensures
        a + b + d == a + (b + d),
{
    assert(a + b + d =~= a + (b + d));
}

} // verus!
