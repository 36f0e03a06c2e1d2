//! The migration naming convention: a file is recognised exactly when its name
//! has the shape `V<digits-and-dots>__<description>.sql`, where the version
//! part is the longest run of digits and dots after the leading `V`, the
//! description is free text, and a literal dot separates it from the trailing
//! `sql` extension. Matching is anchored to the whole name, so a decoy that
//! merely contains such a shape is rejected.

use vstd::prelude::*;
use crate::version::is_digit_char;

verus! {

/// Characters allowed in the version part of a migration name.
pub open spec fn is_version_char(c: char) -> bool {
    is_digit_char(c) || c == '.'
}

/// The end of the run of version characters that starts at `i`.
pub open spec fn version_run_end(s: Seq<char>, i: int) -> int
    decreases s.len() - i,
{
    if 0 <= i < s.len() && is_version_char(s[i]) {
        version_run_end(s, i + 1)
    } else {
        i
    }
}

proof fn lemma_version_run_end_bounds(s: Seq<char>, i: int)
    requires
        0 <= i <= s.len(),
    ensures
        i <= version_run_end(s, i) <= s.len(),
        forall|k: int| i <= k < version_run_end(s, i) ==> is_version_char(#[trigger] s[k]),
        version_run_end(s, i) < s.len() ==> !is_version_char(s[version_run_end(s, i)]),
    decreases s.len() - i,
{
    if i < s.len() && is_version_char(s[i]) {
        lemma_version_run_end_bounds(s, i + 1);
    }
}

/// Whether a file name matches the migration naming convention.
pub open spec fn name_matches(name: Seq<char>) -> bool {
    let e = version_run_end(name, 1);
    &&& name.len() >= 1
    &&& name[0] == 'V'
    &&& e > 1
    &&& e + 2 <= name.len()
    &&& name[e] == '_'
    &&& name[e + 1] == '_'
    &&& name.len() >= e + 6
    &&& name[name.len() - 4] == '.'
    &&& name[name.len() - 3] == 's'
    &&& name[name.len() - 2] == 'q'
    &&& name[name.len() - 1] == 'l'
}

/// The version part of a matching name.
pub open spec fn name_version(name: Seq<char>) -> Seq<char> {
    name.subrange(1, version_run_end(name, 1))
}

/// The description part of a matching name.
pub open spec fn name_description(name: Seq<char>) -> Seq<char> {
    name.subrange(version_run_end(name, 1) + 2, name.len() - 4)
}

fn is_version_char_exec(c: char) -> (r: bool)
    ensures
        r == is_version_char(c),
{
    (c >= '0' && c <= '9') || c == '.'
}

/// Split a migration file name into its version and description parts, or
/// `None` when the name does not match the naming convention.
pub fn parse_name(name: &str) -> (r: Option<(String, String)>)
    ensures
        r is Some <==> name_matches(name@),
        r matches Some(p) ==> p.0@ == name_version(name@) && p.1@ == name_description(name@),
{
    let ghost s = name@;
    let n = name.unicode_len();
    if n < 1 || name.get_char(0) != 'V' {
        return None;
    }
    let mut e: usize = 1;
    while e < n && is_version_char_exec(name.get_char(e))
        invariant
            1 <= e <= n == s.len(),
            s == name@,
            forall|k: int| 1 <= k < e ==> is_version_char(#[trigger] s[k]),
        decreases n - e,
    {
        e = e + 1;
    }
    proof {
        lemma_run_end_shift(s, 1, e as int);
        assert(version_run_end(s, e as int) == e as int);
    }
    if e == 1 {
        return None;
    }
    if n - e < 2 {
        return None;
    }
    if name.get_char(e) != '_' || name.get_char(e + 1) != '_' {
        return None;
    }
    if n - e < 6 {
        return None;
    }
    if name.get_char(n - 4) != '.' {
        return None;
    }
    if name.get_char(n - 3) != 's' || name.get_char(n - 2) != 'q' || name.get_char(n - 1) != 'l' {
        return None;
    }
    let version = name.substring_char(1, e).to_owned();
    let description = name.substring_char(e + 2, n - 4).to_owned();
    Some((version, description))
}

/// Shifting the start of a run forward over version characters does not move
/// its end.
proof fn lemma_run_end_shift(s: Seq<char>, i: int, k: int)
    requires
        0 <= i <= k <= s.len(),
        forall|m: int| i <= m < k ==> is_version_char(#[trigger] s[m]),
    ensures
        version_run_end(s, i) == version_run_end(s, k),
    decreases k - i,
{
    if i < k {
        lemma_run_end_shift(s, i + 1, k);
    }
}

} // verus!
