//! Null-terminated wide-string scanning inside a record's byte extent, and
//! extraction of a record's embedded string table.
//!
//! Every scan is bounded by the record's own declared extent: a terminator
//! must be found before that extent ends, otherwise the string (and with it
//! the record's decode) is malformed. No read ever leaves the extent.
use vstd::prelude::*;
use crate::bytes::{le16_at, read_le16};

verus! {

/// The text that lossy UTF-16 decoding yields for a sequence of code units.
pub uninterp spec fn utf16_lossy_of(units: Seq<u16>) -> Seq<char>;

/// Relies on widestring::U16Str::to_string_lossy: it decodes the code units
/// as UTF-16 (invalid sequences become replacement characters), so the
/// result is a function of the code units alone.
#[verifier::external_body]
pub(crate) fn decode_utf16_lossy(units: &Vec<u16>) -> (r: String)
    ensures
        r@ == utf16_lossy_of(units@),
{
    widestring::U16Str::from_slice(units.as_slice()).to_string_lossy()
}

/// Byte position of the first 16-bit null unit at or after `pos`, walking in
/// two-byte steps; `None` when no full unit holding zero lies before `end`.
pub open spec fn find_nul(c: Seq<u8>, pos: int, end: int) -> Option<int>
    decreases end - pos,
{
    if pos < 0 || pos + 2 > end || end > c.len() {
        None
    } else if le16_at(c, pos) == 0 {
        Some(pos)
    } else {
        find_nul(c, pos + 2, end)
    }
}

/// The code units stored between byte positions `start` and `nul`.
pub open spec fn units_between(c: Seq<u8>, start: int, nul: int) -> Seq<u16> {
    Seq::new(((nul - start) / 2) as nat, |k: int| le16_at(c, start + 2 * k))
}

/// One decoded wide string starting at `start`, together with the byte
/// position just past its terminator; `None` when no terminator lies in
/// `start..end`.
pub open spec fn wide_string_at(c: Seq<u8>, start: int, end: int) -> Option<(Seq<char>, int)> {
    match find_nul(c, start, end) {
        Option::None => Option::None,
        Option::Some(p) => Option::Some((utf16_lossy_of(units_between(c, start, p)), p + 2)),
    }
}

/// A found terminator lies at or after the scan's start, an even number of
/// bytes into the string, and leaves room for itself before `end`.
pub proof fn lemma_find_nul_props(c: Seq<u8>, pos: int, end: int)
    ensures
        find_nul(c, pos, end) matches Some(p) ==> pos <= p && p + 2 <= end && end <= c.len()
            && (p - pos) % 2 == 0 && le16_at(c, p) == 0,
    decreases end - pos,
{
    if !(pos < 0 || pos + 2 > end || end > c.len()) && le16_at(c, pos) != 0 {
        lemma_find_nul_props(c, pos + 2, end);
    }
}

/// Scans for the terminating null unit of the wide string at `pos`.
pub fn find_wide_nul(chunk: &Vec<u8>, pos: usize, end: usize) -> (r: Option<usize>)
    requires
        end <= chunk@.len(),
    ensures
        match r {
            Some(p) => find_nul(chunk@, pos as int, end as int) == Some(p as int),
            None => find_nul(chunk@, pos as int, end as int) is None,
        },
{
    let mut cur: usize = pos;
    loop
        invariant
            pos <= cur,
            end <= chunk@.len(),
            find_nul(chunk@, pos as int, end as int) == find_nul(chunk@, cur as int, end as int),
        decreases end - cur,
    {
        if cur >= end || end - cur < 2 {
            return None;
        }
        let v = read_le16(chunk, cur);
        if v == 0 {
            return Some(cur);
        }
        cur = cur + 2;
    }
}

/// Reads the code units of the wide string lying between `start` and `nul`.
pub(crate) fn read_units(chunk: &Vec<u8>, start: usize, nul: usize) -> (r: Vec<u16>)
    requires
        start <= nul,
        (nul - start) % 2 == 0,
        nul + 2 <= chunk@.len(),
    ensures
        r@ == units_between(chunk@, start as int, nul as int),
{
    let mut out: Vec<u16> = Vec::new();
    let mut cur: usize = start;
    while cur < nul
        invariant
            start <= cur <= nul,
            (nul - start) % 2 == 0,
            (cur - start) % 2 == 0,
            nul + 2 <= chunk@.len(),
            out@.len() == (cur - start) / 2,
            forall|k: int| 0 <= k < out@.len() ==> out@[k] == le16_at(chunk@, start + 2 * k),
        decreases nul - cur,
    {
        let v = read_le16(chunk, cur);
        out.push(v);
        cur = cur + 2;
    }
    proof {
        assert(out@ =~= units_between(chunk@, start as int, nul as int));
    }
    out
}

/// Decodes the null-terminated wide string at `start`, returning it with the
/// byte position just past its terminator; `None` when the string has no
/// terminator before `end`.
pub fn read_wide_string(chunk: &Vec<u8>, start: usize, end: usize) -> (r: Option<(String, usize)>)
    requires
        end <= chunk@.len(),
    ensures
        match r {
            Some(p) => wide_string_at(chunk@, start as int, end as int) matches Some(q)
                && p.0@ == q.0 && p.1 as int == q.1,
            None => wide_string_at(chunk@, start as int, end as int) is None,
        },
{
    match find_wide_nul(chunk, start, end) {
        None => None,
        Some(nul) => {
            proof {
                lemma_find_nul_props(chunk@, start as int, end as int);
            }
            let units = read_units(chunk, start, nul);
            let s = decode_utf16_lossy(&units);
            Some((s, nul + 2))
        },
    }
}

/// The record's string table: `count` consecutive null-terminated wide
/// strings starting at `pos`, each bounded by the record extent's `end`;
/// `None` when any of them lacks a terminator inside the extent.
pub open spec fn strings_model(c: Seq<u8>, pos: int, count: int, end: int) -> Option<Seq<Seq<char>>>
    decreases count,
{
    if count <= 0 {
        Option::Some(Seq::empty())
    } else {
        match wide_string_at(c, pos, end) {
            Option::None => Option::None,
            Option::Some((s, next)) => match strings_model(c, next, count - 1, end) {
                Option::None => Option::None,
                Option::Some(rest) => Option::Some(seq![s] + rest),
            },
        }
    }
}

/// Extracts `count` consecutive wide strings starting at `pos`, in encounter
/// order; `None` when the table is malformed (a terminator missing before
/// `end`).
pub fn extract_strings(chunk: &Vec<u8>, pos: usize, count: u16, end: usize) -> (r: Option<
    Vec<String>,
>)
    requires
        end <= chunk@.len(),
    ensures
        match r {
            Some(v) => strings_model(chunk@, pos as int, count as int, end as int) == Some(
                v.deep_view(),
            ),
            None => strings_model(chunk@, pos as int, count as int, end as int) is None,
        },
{
    let mut out: Vec<String> = Vec::new();
    let mut cur: usize = pos;
    let mut left: u16 = count;
    loop
        invariant
            end <= chunk@.len(),
            ({
                let whole = strings_model(chunk@, pos as int, count as int, end as int);
                let rest = strings_model(chunk@, cur as int, left as int, end as int);
                &&& (rest matches Some(m) ==> whole == Some(out.deep_view() + m))
                &&& (rest is None ==> whole is None)
            }),
        decreases left,
    {
        if left == 0 {
            proof {
                assert(strings_model(chunk@, cur as int, 0, end as int) == Some(
                    Seq::<Seq<char>>::empty(),
                ));
                assert(out.deep_view() + Seq::<Seq<char>>::empty() =~= out.deep_view());
            }
            return Some(out);
        }
        match read_wide_string(chunk, cur, end) {
            None => {
                return None;
            },
            Some((s, next)) => {
                let ghost s_view = s@;
                let ghost prev_deep = out.deep_view();
                proof {
                    let rest = strings_model(chunk@, cur as int, left as int, end as int);
                    let tail = strings_model(chunk@, next as int, left - 1, end as int);
                    assert(wide_string_at(chunk@, cur as int, end as int) == Some(
                        (s_view, next as int),
                    ));
                    match tail {
                        Option::Some(m2) => {
                            assert(rest == Some(seq![s_view] + m2));
                        },
                        Option::None => {
                            assert(rest is None);
                        },
                    }
                }
                out.push(s);
                proof {
                    assert(out.deep_view() =~= prev_deep.push(s_view));
                    let tail = strings_model(chunk@, next as int, left - 1, end as int);
                    match tail {
                        Option::Some(m2) => {
                            assert(prev_deep + (seq![s_view] + m2) =~= prev_deep.push(s_view)
                                + m2);
                        },
                        Option::None => {},
                    }
                }
                cur = next;
                left = left - 1;
            },
        }
    }
}

} // verus!
