//! Advisory risk classification of an image path: a pure, case-insensitive
//! substring match against two curated lists of operator-interest names.
//! The tier never affects whether an event is collected.
use vstd::prelude::*;
use crate::RiskTier;

verus! {

/// The ASCII-lowercased counterpart of a character.
pub open spec fn spec_lower(c: char) -> char {
    match c {
        'A' => 'a',
        'B' => 'b',
        'C' => 'c',
        'D' => 'd',
        'E' => 'e',
        'F' => 'f',
        'G' => 'g',
        'H' => 'h',
        'I' => 'i',
        'J' => 'j',
        'K' => 'k',
        'L' => 'l',
        'M' => 'm',
        'N' => 'n',
        'O' => 'o',
        'P' => 'p',
        'Q' => 'q',
        'R' => 'r',
        'S' => 's',
        'T' => 't',
        'U' => 'u',
        'V' => 'v',
        'W' => 'w',
        'X' => 'x',
        'Y' => 'y',
        'Z' => 'z',
        _ => c,
    }
}

/// The ASCII-lowercased counterpart of a character.
pub fn lower_char(c: char) -> (r: char)
    ensures
        r == spec_lower(c),
{
    match c {
        'A' => 'a',
        'B' => 'b',
        'C' => 'c',
        'D' => 'd',
        'E' => 'e',
        'F' => 'f',
        'G' => 'g',
        'H' => 'h',
        'I' => 'i',
        'J' => 'j',
        'K' => 'k',
        'L' => 'l',
        'M' => 'm',
        'N' => 'n',
        'O' => 'o',
        'P' => 'p',
        'Q' => 'q',
        'R' => 'r',
        'S' => 's',
        'T' => 't',
        'U' => 'u',
        'V' => 'v',
        'W' => 'w',
        'X' => 'x',
        'Y' => 'y',
        'Z' => 'z',
        _ => c,
    }
}

/// The pattern occurs at position `i` of `t`, comparing `t` lowercased.
pub open spec fn match_at(t: Seq<char>, p: Seq<char>, i: int) -> bool {
    forall|j: int| 0 <= j < p.len() ==> spec_lower(t[i + j]) == p[j]
}

/// The pattern occurs somewhere in `t`, comparing `t` lowercased.
pub open spec fn spec_contains_ci(t: Seq<char>, p: Seq<char>) -> bool {
    exists|i: int| 0 <= i && i + p.len() <= t.len() && match_at(t, p, i)
}

/// Whether the pattern occurs at position `i` of `text`, lowercasing `text`
/// before comparing.
fn match_here(text: &str, pat: &str, i: usize) -> (r: bool)
    requires
        i + pat@.len() <= text@.len(),
    ensures
        r == match_at(text@, pat@, i as int),
{
    let n: usize = text.unicode_len();
    let m: usize = pat.unicode_len();
    let mut j: usize = 0;
    while j < m
        invariant
            n == text@.len(),
            m == pat@.len(),
            i + m <= n,
            j <= m,
            forall|q: int| 0 <= q < j ==> spec_lower(text@[i + q]) == pat@[q],
        decreases m - j,
    {
        let tc = lower_char(text.get_char(i + j));
        let pc = pat.get_char(j);
        if tc != pc {
            proof {
                assert(spec_lower(text@[i + j as int]) != pat@[j as int]);
            }
            return false;
        }
        j = j + 1;
    }
    true
}

/// Whether `pat` occurs in `text`, lowercasing `text` before comparing.
pub fn contains_ci(text: &str, pat: &str) -> (r: bool)
    ensures
        r == spec_contains_ci(text@, pat@),
{
    let n: usize = text.unicode_len();
    let m: usize = pat.unicode_len();
    if m > n {
        return false;
    }
    let mut i: usize = 0;
    while i <= n - m
        invariant
            m <= n,
            n == text@.len(),
            m == pat@.len(),
            i <= n - m + 1,
            forall|k: int| 0 <= k < i ==> !match_at(text@, pat@, k),
        decreases n - m + 1 - i,
    {
        if match_here(text, pat, i) {
            return true;
        }
        i = i + 1;
    }
    proof {
        assert(forall|k: int| 0 <= k && k + pat@.len() <= text@.len() ==> !match_at(
            text@,
            pat@,
            k,
        ));
    }
    false
}

/// The tier the two curated lists assign to an image path; the high list is
/// consulted before the medium one, and anything else is neutral.
pub open spec fn spec_risk(s: Seq<char>) -> RiskTier {
    if spec_contains_ci(s, "cmd.exe"@) || spec_contains_ci(s, "powershell.exe"@)
        || spec_contains_ci(s, "wscript.exe"@) || spec_contains_ci(s, "python.exe"@) {
        RiskTier::High
    } else if spec_contains_ci(s, "conhost.exe"@) || spec_contains_ci(s, "svchost.exe"@)
        || spec_contains_ci(s, "explorer.exe"@) {
        RiskTier::Medium
    } else {
        RiskTier::Neutral
    }
}

/// Classifies an image path into its advisory risk tier.
pub fn classify(image_path: &str) -> (r: RiskTier)
    ensures
        r == spec_risk(image_path@),
{
    if contains_ci(image_path, "cmd.exe") || contains_ci(image_path, "powershell.exe")
        || contains_ci(image_path, "wscript.exe") || contains_ci(image_path, "python.exe") {
        RiskTier::High
    } else if contains_ci(image_path, "conhost.exe") || contains_ci(image_path, "svchost.exe")
        || contains_ci(image_path, "explorer.exe") {
        RiskTier::Medium
    } else {
        RiskTier::Neutral
    }
}

/// The console color that renders each tier: red for high, yellow for
/// medium, and the reset sequence for neutral.
pub fn classify_color(image_path: &str) -> (r: &'static str)
    ensures
        spec_risk(image_path@) == RiskTier::High ==> r@ == "\x1b[31m"@,
        spec_risk(image_path@) == RiskTier::Medium ==> r@ == "\x1b[33m"@,
        spec_risk(image_path@) == RiskTier::Neutral ==> r@ == "\x1b[0m"@,
{
    match classify(image_path) {
        RiskTier::High => "\x1b[31m",
        RiskTier::Medium => "\x1b[33m",
        RiskTier::Neutral => "\x1b[0m",
    }
}

} // verus!
