//! The scan policy's general guarantees, each proved once and for all over
//! the scan model that `scan_chunk` is verified against.
use vstd::prelude::*;
use crate::fields::{EventModel, event_model, image_model, path_accepted, UNKNOWN_IMAGE};
use crate::record::{cursor_malformed, rec_len_at, rec_time_at};
use crate::scan::{scan_model, in_window, provider_ok, table_model, ChunkOutcome};

verus! {

/// Cap enforcement: a scan never collects more events than it has room
/// for, whatever the chunk holds.
pub proof fn lemma_scan_cap(c: Seq<u8>, now: u32, off: int, room: nat)
    ensures
        scan_model(c, now, off, room).0.len() <= room,
    decreases c.len() - off,
{
    if room == 0 {
    } else if off < 0 || off >= c.len() {
    } else if cursor_malformed(c, off) {
    } else {
        let ts = rec_time_at(c, off);
        let next = off + rec_len_at(c, off);
        if !in_window(ts, now) {
        } else if !provider_ok(c, off) {
            lemma_scan_cap(c, now, next, room);
        } else {
            match table_model(c, off) {
                Option::None => {},
                Option::Some(sv) => {
                    let ev = event_model(sv, ts);
                    if ev.image_path == UNKNOWN_IMAGE@ {
                        lemma_scan_cap(c, now, next, room);
                    } else if room == 1 {
                    } else {
                        lemma_scan_cap(c, now, next, (room - 1) as nat);
                    }
                },
            }
        }
    }
}

/// Image-path acceptance: every event a scan emits carries an image path
/// that passed the acceptance heuristic; in particular the sentinel for a
/// rejected path never surfaces.
pub proof fn lemma_scan_no_sentinel(c: Seq<u8>, now: u32, off: int, room: nat)
    ensures
        forall|i: int| 0 <= i < scan_model(c, now, off, room).0.len() ==> path_accepted(
            #[trigger] scan_model(c, now, off, room).0[i].image_path,
        ),
    decreases c.len() - off,
{
    if room == 0 {
    } else if off < 0 || off >= c.len() {
    } else if cursor_malformed(c, off) {
    } else {
        let ts = rec_time_at(c, off);
        let next = off + rec_len_at(c, off);
        if !in_window(ts, now) {
        } else if !provider_ok(c, off) {
            lemma_scan_no_sentinel(c, now, next, room);
        } else {
            match table_model(c, off) {
                Option::None => {},
                Option::Some(sv) => {
                    let ev = event_model(sv, ts);
                    if ev.image_path == UNKNOWN_IMAGE@ {
                        lemma_scan_no_sentinel(c, now, next, room);
                    } else {
                        assert(path_accepted(ev.image_path)) by {
                            assert(ev.image_path == image_model(sv));
                        }
                        if room == 1 {
                            assert(scan_model(c, now, off, room).0 == seq![ev]);
                        } else {
                            lemma_scan_no_sentinel(c, now, next, (room - 1) as nat);
                            let rest = scan_model(c, now, next, (room - 1) as nat);
                            assert(forall|i: int| 0 <= i < (seq![ev] + rest.0).len()
                                ==> #[trigger] (seq![ev] + rest.0)[i] == if i == 0 {
                                    ev
                                } else {
                                    rest.0[i - 1]
                                });
                        }
                    }
                },
            }
        }
    }
}

/// Window soundness: every event a scan emits was generated inside the
/// trailing window; a record outside it contributes nothing.
pub proof fn lemma_scan_in_window(c: Seq<u8>, now: u32, off: int, room: nat)
    ensures
        forall|i: int| 0 <= i < scan_model(c, now, off, room).0.len() ==> in_window(
            #[trigger] scan_model(c, now, off, room).0[i].timestamp_secs,
            now,
        ),
    decreases c.len() - off,
{
    if room == 0 {
    } else if off < 0 || off >= c.len() {
    } else if cursor_malformed(c, off) {
    } else {
        let ts = rec_time_at(c, off);
        let next = off + rec_len_at(c, off);
        if !in_window(ts, now) {
        } else if !provider_ok(c, off) {
            lemma_scan_in_window(c, now, next, room);
        } else {
            match table_model(c, off) {
                Option::None => {},
                Option::Some(sv) => {
                    let ev = event_model(sv, ts);
                    if ev.image_path == UNKNOWN_IMAGE@ {
                        lemma_scan_in_window(c, now, next, room);
                    } else {
                        assert(ev.timestamp_secs == ts);
                        if room == 1 {
                            assert(scan_model(c, now, off, room).0 == seq![ev]);
                        } else {
                            lemma_scan_in_window(c, now, next, (room - 1) as nat);
                            let rest = scan_model(c, now, next, (room - 1) as nat);
                            assert(forall|i: int| 0 <= i < (seq![ev] + rest.0).len()
                                ==> #[trigger] (seq![ev] + rest.0)[i] == if i == 0 {
                                    ev
                                } else {
                                    rest.0[i - 1]
                                });
                        }
                    }
                },
            }
        }
    }
}

/// Stop, not skip: the moment the scan meets a sound record generated
/// outside the trailing window, it emits nothing further and halts, even
/// though a later record could in principle lie inside the window again;
/// the policy is valid only because records arrive newest-first.
pub proof fn lemma_stop_not_skip(c: Seq<u8>, now: u32, off: int, room: nat)
    requires
        room > 0,
        0 <= off < c.len(),
        !cursor_malformed(c, off),
        !in_window(rec_time_at(c, off), now),
    ensures
        scan_model(c, now, off, room) == (Seq::<EventModel>::empty(), ChunkOutcome::Halt),
{
}

/// Offset monotonicity, at the scan level: a chunk whose record declares a
/// zero length is malformed, so the scan halts on it rather than looping.
pub proof fn lemma_zero_length_halts(c: Seq<u8>, now: u32, off: int, room: nat)
    requires
        room > 0,
        0 <= off < c.len(),
        rec_len_at(c, off) == 0,
    ensures
        scan_model(c, now, off, room) == (Seq::<EventModel>::empty(), ChunkOutcome::Halt),
{
}

/// Determinism: what a scan yields is a function of the chunk's bytes, the
/// captured time and the room alone; scanning equal bytes twice yields
/// equal structured output.
pub proof fn lemma_scan_deterministic(c1: Seq<u8>, c2: Seq<u8>, now: u32, room: nat)
    requires
        c1 == c2,
    ensures
        scan_model(c1, now, 0, room) == scan_model(c2, now, 0, room),
{
}

} // verus!
