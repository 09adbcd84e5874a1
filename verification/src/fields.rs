//! Mapping of string-table positions to semantic fields, under a fixed
//! positional schema, with the per-field acceptance and rejection policies.
//!
//! An image path is accepted only when it holds a path separator and ends,
//! case-insensitively, in the executable extension; a rejected path is set
//! to the sentinel, and the collector later drops the whole event. A command
//! line that starts with the environment-expansion-failure token, or is at
//! most two characters long, is replaced by the not-applicable marker. A
//! parent process id that does not parse is absent, and the user field is
//! synthesized only when the table holds at least three entries.
use vstd::prelude::*;
use crate::classify::spec_lower;

verus! {

/// String-table position of the acting user's domain.
pub const DOMAIN_INDEX: usize = 1;

/// String-table position of the acting user's account name.
pub const ACCOUNT_INDEX: usize = 2;

/// String-table position of the new process's image path.
pub const IMAGE_PATH_INDEX: usize = 5;

/// String-table position of the command line.
pub const COMMAND_LINE_INDEX: usize = 7;

/// String-table position of the parent process id.
pub const PARENT_PID_INDEX: usize = 8;

/// Sentinel an unacceptable image path is set to; such events are dropped.
pub const UNKNOWN_IMAGE: &'static str = "Unknown";

/// Marker that replaces a rejected command line.
pub const NOT_APPLICABLE: &'static str = "[n/a]";

/// One typed execution event, decoded from a record.
#[derive(Clone, Debug, PartialEq, Eq)]
pub struct ExecutionEvent {
    /// Generation time of the underlying record, in seconds since the epoch.
    pub timestamp_secs: u32,
    /// Image path of the new process.
    pub image_path: String,
    /// Command line, when present; a rejected one holds the marker.
    pub command_line: Option<String>,
    /// Parent process id, when the designated field parses.
    pub parent_pid: Option<u32>,
    /// Acting user, as domain and account name.
    pub user: Option<String>,
}

/// The mathematical value of an execution event.
pub struct EventModel {
    /// Generation time in seconds since the epoch.
    pub timestamp_secs: u32,
    /// Image path of the new process.
    pub image_path: Seq<char>,
    /// Command line, when present.
    pub command_line: Option<Seq<char>>,
    /// Parent process id, when present.
    pub parent_pid: Option<u32>,
    /// Acting user, when present.
    pub user: Option<Seq<char>>,
}

/// The model that an event denotes.
pub open spec fn event_view(e: ExecutionEvent) -> EventModel {
    EventModel {
        timestamp_secs: e.timestamp_secs,
        image_path: e.image_path@,
        command_line: e.command_line.deep_view(),
        parent_pid: e.parent_pid,
        user: e.user.deep_view(),
    }
}

/// An image path is accepted only when it holds a path separator and ends,
/// case-insensitively, in the executable extension.
pub open spec fn path_accepted(s: Seq<char>) -> bool {
    &&& exists|i: int| 0 <= i < s.len() && s[i] == '\\'
    &&& s.len() >= 4
    &&& s[s.len() - 4] == '.'
    &&& spec_lower(s[s.len() - 3]) == 'e'
    &&& spec_lower(s[s.len() - 2]) == 'x'
    &&& spec_lower(s[s.len() - 1]) == 'e'
}

/// A command line is kept only when it is longer than two characters and
/// does not begin with the environment-expansion-failure token.
pub open spec fn cmdline_kept(s: Seq<char>) -> bool {
    s.len() > 2 && !(s[0] == '%' && s[1] == '%')
}

/// Whether `s` consists of decimal digits only.
pub open spec fn all_digits(s: Seq<char>) -> bool {
    forall|i: int| 0 <= i < s.len() ==> '0' <= #[trigger] s[i] <= '9'
}

/// The number the digit string denotes.
pub open spec fn digits_val(s: Seq<char>) -> int
    decreases s.len(),
{
    if s.len() == 0 {
        0
    } else {
        digits_val(s.drop_last()) * 10 + (s.last() as int - '0' as int)
    }
}

/// The unsigned number a string denotes: defined only for a non-empty,
/// all-digit string whose value fits.
pub open spec fn spec_parse_u32(s: Seq<char>) -> Option<u32> {
    if s.len() > 0 && all_digits(s) && digits_val(s) <= u32::MAX {
        Option::Some(digits_val(s) as u32)
    } else {
        Option::None
    }
}

/// The image-path field: the accepted path, or the sentinel.
pub open spec fn image_model(sv: Seq<Seq<char>>) -> Seq<char> {
    if sv.len() > IMAGE_PATH_INDEX && path_accepted(sv[IMAGE_PATH_INDEX as int]) {
        sv[IMAGE_PATH_INDEX as int]
    } else {
        UNKNOWN_IMAGE@
    }
}

/// The command-line field: kept, replaced by the marker, or absent.
pub open spec fn cmdline_model(sv: Seq<Seq<char>>) -> Option<Seq<char>> {
    if sv.len() > COMMAND_LINE_INDEX {
        if cmdline_kept(sv[COMMAND_LINE_INDEX as int]) {
            Option::Some(sv[COMMAND_LINE_INDEX as int])
        } else {
            Option::Some(NOT_APPLICABLE@)
        }
    } else {
        Option::None
    }
}

/// The parent-pid field: the parsed number, or absent.
pub open spec fn pid_model(sv: Seq<Seq<char>>) -> Option<u32> {
    if sv.len() > PARENT_PID_INDEX {
        spec_parse_u32(sv[PARENT_PID_INDEX as int])
    } else {
        Option::None
    }
}

/// The user field: domain and account joined by a separator, or absent.
pub open spec fn user_model(sv: Seq<Seq<char>>) -> Option<Seq<char>> {
    if sv.len() > ACCOUNT_INDEX {
        Option::Some(sv[DOMAIN_INDEX as int] + "\\"@ + sv[ACCOUNT_INDEX as int])
    } else {
        Option::None
    }
}

/// The event a string table denotes, under the fixed positional schema.
pub open spec fn event_model(sv: Seq<Seq<char>>, ts: u32) -> EventModel {
    EventModel {
        timestamp_secs: ts,
        image_path: image_model(sv),
        command_line: cmdline_model(sv),
        parent_pid: pid_model(sv),
        user: user_model(sv),
    }
}

/// Whether the image path passes the acceptance heuristic.
pub fn path_ok(s: &str) -> (r: bool)
    ensures
        r == path_accepted(s@),
{
    let n: usize = s.unicode_len();
    if n < 4 {
        return false;
    }
    if !(s.get_char(n - 4) == '.' && crate::classify::lower_char(s.get_char(n - 3)) == 'e'
        && crate::classify::lower_char(s.get_char(n - 2)) == 'x'
        && crate::classify::lower_char(s.get_char(n - 1)) == 'e') {
        return false;
    }
    let mut i: usize = 0;
    while i < n
        invariant
            n == s@.len(),
            n >= 4,
            s@[n - 4] == '.',
            spec_lower(s@[n - 3]) == 'e',
            spec_lower(s@[n - 2]) == 'x',
            spec_lower(s@[n - 1]) == 'e',
            i <= n,
            forall|k: int| 0 <= k < i ==> s@[k] != '\\',
        decreases n - i,
    {
        if s.get_char(i) == '\\' {
            proof {
                let k = i as int;
                assert(0 <= k < s@.len() && s@[k] == '\\');
            }
            return true;
        }
        i = i + 1;
    }
    false
}

/// Parses a string of decimal digits as an unsigned number; `None` on any
/// other shape, or when the value does not fit.
pub fn parse_u32(s: &str) -> (r: Option<u32>)
    ensures
        r == spec_parse_u32(s@),
{
    let n: usize = s.unicode_len();
    if n == 0 {
        return None;
    }
    let mut value: u32 = 0;
    let mut i: usize = 0;
    while i < n
        invariant
            n == s@.len(),
            i <= n,
            all_digits(s@.take(i as int)),
            value == digits_val(s@.take(i as int)),
        decreases n - i,
    {
        let c = s.get_char(i);
        let d: u32 = match c {
            '0' => 0,
            '1' => 1,
            '2' => 2,
            '3' => 3,
            '4' => 4,
            '5' => 5,
            '6' => 6,
            '7' => 7,
            '8' => 8,
            '9' => 9,
            _ => {
                proof {
                    assert(!('0' <= s@[i as int] <= '9'));
                    assert(!all_digits(s@));
                }
                return None;
            },
        };
        if value > 429496729 || (value == 429496729 && d > 5) {
            proof {
                assert(s@.take(i + 1).drop_last() =~= s@.take(i as int));
                assert(s@.take(i + 1).last() == s@[i as int]);
                assert(digits_val(s@.take(i + 1)) == value * 10 + d);
                if all_digits(s@) {
                    lemma_digits_val_monotonic(s@, i + 1);
                    assert(digits_val(s@) > u32::MAX);
                }
            }
            return None;
        }
        proof {
            assert(s@.take(i + 1).drop_last() =~= s@.take(i as int));
            assert(s@.take(i + 1).last() == s@[i as int]);
        }
        value = value * 10 + d;
        i = i + 1;
    }
    proof {
        assert(s@.take(n as int) =~= s@);
    }
    Some(value)
}

/// The value of a digit string only grows as digits are appended: the whole
/// string denotes at least what any of its prefixes denotes.
proof fn lemma_digits_val_monotonic(s: Seq<char>, k: int)
    requires
        0 <= k <= s.len(),
        all_digits(s),
    ensures
        digits_val(s) >= digits_val(s.take(k)),
        digits_val(s) >= 0,
        digits_val(s.take(k)) >= 0,
    decreases s.len() - k,
{
    lemma_digits_val_nonneg(s);
    if k == s.len() {
        assert(s.take(k) =~= s);
        lemma_digits_val_nonneg(s.take(k));
    } else {
        lemma_digits_val_monotonic(s, k + 1);
        assert(s.take(k + 1).drop_last() =~= s.take(k));
        assert(all_digits(s.take(k + 1))) by {
            assert(forall|i: int| 0 <= i < k + 1 ==> s.take(k + 1)[i] == s[i]);
        }
        lemma_digits_val_nonneg(s.take(k));
        assert(digits_val(s.take(k + 1)) == digits_val(s.take(k)) * 10 + (s[k] as int
            - '0' as int));
        assert(s[k] as int - '0' as int >= 0);
        assert(digits_val(s.take(k)) * 10 >= digits_val(s.take(k))) by (nonlinear_arith)
            requires
                digits_val(s.take(k)) >= 0,
        ;
    }
}

/// A digit string never denotes a negative number.
proof fn lemma_digits_val_nonneg(s: Seq<char>)
    requires
        all_digits(s),
    ensures
        digits_val(s) >= 0,
    decreases s.len(),
{
    if s.len() > 0 {
        assert(all_digits(s.drop_last())) by {
            assert(forall|i: int| 0 <= i < s.len() - 1 ==> s.drop_last()[i] == s[i]);
        }
        lemma_digits_val_nonneg(s.drop_last());
        assert(s.last() as int - '0' as int >= 0);
        assert(digits_val(s.drop_last()) * 10 >= 0) by (nonlinear_arith)
            requires
                digits_val(s.drop_last()) >= 0,
        ;
    }
}

/// Maps a record's string table to a typed event under the fixed schema.
pub fn map_fields(strs: &Vec<String>, timestamp_secs: u32) -> (e: ExecutionEvent)
    ensures
        event_view(e) == event_model(strs.deep_view(), timestamp_secs),
{
    let ghost sv = strs.deep_view();
    let n: usize = strs.len();
    let image_path: String = if n > IMAGE_PATH_INDEX && path_ok(strs[IMAGE_PATH_INDEX].as_str()) {
        strs[IMAGE_PATH_INDEX].clone()
    } else {
        String::from_str(UNKNOWN_IMAGE)
    };
    let command_line: Option<String> = if n > COMMAND_LINE_INDEX {
        let c = &strs[COMMAND_LINE_INDEX];
        let keep = c.as_str().unicode_len() > 2 && !(c.as_str().get_char(0) == '%'
            && c.as_str().get_char(1) == '%');
        if keep {
            Some(c.clone())
        } else {
            Some(String::from_str(NOT_APPLICABLE))
        }
    } else {
        None
    };
    let parent_pid: Option<u32> = if n > PARENT_PID_INDEX {
        parse_u32(strs[PARENT_PID_INDEX].as_str())
    } else {
        None
    };
    let user: Option<String> = if n > ACCOUNT_INDEX {
        let mut u = String::from_str(strs[DOMAIN_INDEX].as_str());
        u.append("\\");
        u.append(strs[ACCOUNT_INDEX].as_str());
        Some(u)
    } else {
        None
    };
    let e = ExecutionEvent { timestamp_secs, image_path, command_line, parent_pid, user };
    proof {
        assert(forall|i: int| 0 <= i < sv.len() ==> sv[i] == strs@[i]@);
        assert(event_view(e).command_line == cmdline_model(sv));
        assert(event_view(e).user == user_model(sv));
    }
    e
}

} // verus!
