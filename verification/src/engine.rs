//! The reconciliation engine: turns the raw file list and the raw history list
//! into a validated, ordered execution plan, and says exactly which error is
//! reported when validation fails.

use vstd::prelude::*;
use vstd::string::StringExecFns;
use core::cmp::Ordering;
use crate::{Migration, MigrationFile};
use crate::checksum::{checksum_of, crc32_of};
use crate::names::{name_description, name_matches, name_version, parse_name};
use crate::strutil::{dec_int, i32_dec_string, join_strings, join_with};
use crate::version::{compare_versions, is_valid_version, valid_version, version_cmp};

verus! {

// ---------------------------------------------------------------------------
// The error messages, character for character.
// ---------------------------------------------------------------------------

pub open spec fn parse_error_message(name: Seq<char>) -> Seq<char> {
    "Failed to parse migration file name: "@ + name
}

pub open spec fn failed_history_message(versions: Seq<Seq<char>>) -> Seq<char> {
    "Failed migrations detected! Roll back your database and start from a fresh backup. Failed migrations: "@
        + join_with(versions, ", "@)
}

pub open spec fn missing_migration_message(version: Seq<char>) -> Seq<char> {
    "Incoming migrations do not contain migration "@ + version
        + " - seems you are running code that is older than database contents."@
}

pub open spec fn checksum_mismatch_message(version: Seq<char>, existing: int, incoming: int) -> Seq<
    char,
> {
    "Checksum mismatch for migration "@ + version + ": existing migration "@ + dec_int(existing)
        + ", incoming migration "@ + dec_int(incoming)
}

pub open spec fn out_of_order_message(script: Seq<char>) -> Seq<char> {
    "Incoming new migration is older than existing: "@ + script
}

// ---------------------------------------------------------------------------
// Parsing a migration file into a migration record.
// ---------------------------------------------------------------------------

/// Whether a migration file parses: its name matches the naming convention and
/// the version part is numerically valid.
pub open spec fn file_parses(f: MigrationFile) -> bool {
    name_matches(f.name@) && valid_version(name_version(f.name@))
}

/// What parsing a migration file yields, field by field.
pub open spec fn is_parsed_migration(m: Migration, f: MigrationFile) -> bool {
    &&& m.version@ == name_version(f.name@)
    &&& m.description@ == name_description(f.name@)
    &&& m.migration_type@ == "SQL"@
    &&& m.script@ == f.name@
    &&& m.checksum == crc32_of(f.contents@)
    &&& m.execution_time == 0
    &&& m.success == false
    &&& m.contents@ == f.contents@
}

/// Parse one migration file, or report the parse error naming the file.
pub fn read_migration_file(file: &MigrationFile) -> (r: Result<Migration, String>)
    ensures
        r is Ok <==> file_parses(*file),
        r matches Ok(m) ==> is_parsed_migration(m, *file),
        r matches Err(e) ==> e@ == parse_error_message(file.name@),
{
    let parts = parse_name(file.name.as_str());
    let ok = match &parts {
        Some(p) => is_valid_version(p.0.as_str()),
        None => false,
    };
    if !ok {
        let mut e = "Failed to parse migration file name: ".to_owned();
        e.append(file.name.as_str());
        return Err(e);
    }
    let (version, description) = match parts {
        Some(p) => p,
        None => vstd::pervasive::unreached(),
    };
    let checksum = checksum_of(file.contents.as_str());
    Ok(
        Migration {
            version,
            description,
            migration_type: "SQL".to_owned(),
            script: file.name.clone(),
            checksum,
            execution_time: 0,
            success: false,
            contents: file.contents.clone(),
        },
    )
}

/// Parse every migration file; the first file that does not parse aborts the
/// whole run with the error naming it.
pub fn parse_migration_files(files: &Vec<MigrationFile>) -> (r: Result<Vec<Migration>, String>)
    ensures
        r is Ok <==> (forall|i: int| 0 <= i < files@.len() ==> file_parses(#[trigger] files@[i])),
        r matches Ok(ms) ==> ms@.len() == files@.len() && (forall|i: int|
            0 <= i < files@.len() ==> is_parsed_migration(#[trigger] ms@[i], files@[i])),
        r matches Err(e) ==> exists|i: int|
            0 <= i < files@.len() && !file_parses(#[trigger] files@[i]) && (forall|j: int|
                0 <= j < i ==> file_parses(#[trigger] files@[j])) && e@ == parse_error_message(
                files@[i].name@,
            ),
{
    let mut ms: Vec<Migration> = Vec::new();
    let mut i: usize = 0;
    while i < files.len()
        invariant
            0 <= i <= files@.len(),
            ms@.len() == i,
            forall|j: int| 0 <= j < i ==> file_parses(#[trigger] files@[j]),
            forall|j: int| 0 <= j < i ==> is_parsed_migration(#[trigger] ms@[j], files@[j]),
        decreases files@.len() - i,
    {
        match read_migration_file(&files[i]) {
            Ok(m) => {
                ms.push(m);
            },
            Err(e) => {
                return Err(e);
            },
        }
        i = i + 1;
    }
    Ok(ms)
}

// ---------------------------------------------------------------------------
// Sorting by version, ascending and stable.
// ---------------------------------------------------------------------------

/// Stable insertion of `m` into `s`: `m` moves left past exactly the elements
/// whose version is strictly greater.
pub open spec fn insert_by_version(s: Seq<Migration>, m: Migration) -> Seq<Migration>
    decreases s.len(),
{
    if s.len() == 0 {
        seq![m]
    } else if version_cmp(s.last().version@, m.version@) == Ordering::Greater {
        insert_by_version(s.drop_last(), m).push(s.last())
    } else {
        s.push(m)
    }
}

/// The sequence in ascending version order, equal versions keeping their
/// relative order (stable insertion sort).
pub open spec fn sort_by_version(s: Seq<Migration>) -> Seq<Migration>
    decreases s.len(),
{
    if s.len() == 0 {
        Seq::empty()
    } else {
        insert_by_version(sort_by_version(s.drop_last()), s.last())
    }
}

/// Where stable insertion puts the new element: right after the longest prefix
/// whose elements are not strictly greater.
proof fn lemma_insert_by_version_at(s: Seq<Migration>, m: Migration, p: int)
    requires
        0 <= p <= s.len(),
        forall|k: int|
            p <= k < s.len() ==> version_cmp(#[trigger] s[k].version@, m.version@)
                == Ordering::Greater,
        p > 0 ==> version_cmp(s[p - 1].version@, m.version@) != Ordering::Greater,
    ensures
        insert_by_version(s, m) =~= s.take(p) + seq![m] + s.skip(p),
    decreases s.len(),
{
    if s.len() == 0 {
    } else if p == s.len() {
        assert(s.take(p) =~= s);
        assert(s.skip(p) =~= Seq::<Migration>::empty());
    } else {
        lemma_insert_by_version_at(s.drop_last(), m, p);
        assert(s.drop_last().take(p) =~= s.take(p));
        assert(s.drop_last().skip(p).push(s.last()) =~= s.skip(p));
    }
}

/// Insert a migration into a sorted vector, keeping it sorted.
fn insert_migration(v: &mut Vec<Migration>, m: Migration)
    requires
        forall|i: int| 0 <= i < old(v)@.len() ==> valid_version(#[trigger] old(v)@[i].version@),
        valid_version(m.version@),
    ensures
        final(v)@ == insert_by_version(old(v)@, m),
        forall|i: int|
            0 <= i < final(v)@.len() ==> valid_version(#[trigger] final(v)@[i].version@),
{
    let ghost s = v@;
    let mut p: usize = v.len();
    while p > 0 && matches!(compare_versions(v[p - 1].version.as_str(), m.version.as_str()), Ordering::Greater)
        invariant
            0 <= p <= s.len(),
            v@ == s,
            valid_version(m.version@),
            forall|i: int| 0 <= i < s.len() ==> valid_version(#[trigger] s[i].version@),
            forall|k: int|
                p <= k < s.len() ==> version_cmp(#[trigger] s[k].version@, m.version@)
                    == Ordering::Greater,
        decreases p,
    {
        p = p - 1;
    }
    proof {
        lemma_insert_by_version_at(s, m, p as int);
    }
    v.insert(p, m);
    proof {
        assert(v@ =~= s.take(p as int) + seq![m] + s.skip(p as int));
    }
}

/// Sort migrations ascending by version (stable).
pub fn sort_migrations(ms: &Vec<Migration>) -> (r: Vec<Migration>)
    requires
        forall|i: int| 0 <= i < ms@.len() ==> valid_version(#[trigger] ms@[i].version@),
    ensures
        r@ == sort_by_version(ms@),
        forall|i: int| 0 <= i < r@.len() ==> valid_version(#[trigger] r@[i].version@),
{
    let mut r: Vec<Migration> = Vec::new();
    let mut k: usize = 0;
    while k < ms.len()
        invariant
            0 <= k <= ms@.len(),
            forall|i: int| 0 <= i < ms@.len() ==> valid_version(#[trigger] ms@[i].version@),
            r@ == sort_by_version(ms@.take(k as int)),
            forall|i: int| 0 <= i < r@.len() ==> valid_version(#[trigger] r@[i].version@),
        decreases ms@.len() - k,
    {
        insert_migration(&mut r, ms[k].clone());
        proof {
            assert(ms@.take(k + 1).drop_last() =~= ms@.take(k as int));
            assert(ms@.take(k + 1).last() == ms@[k as int]);
        }
        k = k + 1;
    }
    proof {
        assert(ms@.take(ms@.len() as int) =~= ms@);
    }
    r
}

// ---------------------------------------------------------------------------
// The failed-history gate.
// ---------------------------------------------------------------------------

/// Whether any historical record is a failed attempt.
pub open spec fn has_failed(history: Seq<Migration>) -> bool {
    exists|i: int| 0 <= i < history.len() && !(#[trigger] history[i]).success
}

/// The versions of the failed historical records, in history order.
pub open spec fn failed_versions_of(history: Seq<Migration>) -> Seq<Seq<char>> {
    history.filter(|m: Migration| !m.success).map_values(|m: Migration| m.version@)
}

/// Appending one more record extends the failed versions exactly when the
/// record is a failed one.
proof fn lemma_failed_versions_push(s: Seq<Migration>, x: Migration)
    ensures
        !x.success ==> failed_versions_of(s.push(x)) == failed_versions_of(s).push(x.version@),
        x.success ==> failed_versions_of(s.push(x)) == failed_versions_of(s),
        has_failed(s.push(x)) <==> (has_failed(s) || !x.success),
{
    reveal(Seq::filter);
    assert(s.push(x).drop_last() =~= s);
    assert(s.push(x).last() == x);
    if !x.success {
        assert(s.push(x).filter(|m: Migration| !m.success) == s.filter(
            |m: Migration| !m.success,
        ).push(x));
        assert(failed_versions_of(s.push(x)) =~= failed_versions_of(s).push(x.version@));
        assert(has_failed(s.push(x))) by {
            assert(!(s.push(x)[s.len() as int]).success);
        }
    } else {
        assert(failed_versions_of(s.push(x)) =~= failed_versions_of(s));
        if has_failed(s.push(x)) {
            let j = choose|j: int| 0 <= j < s.push(x).len() && !(#[trigger] s.push(x)[j]).success;
            assert(j < s.len() && s[j] == s.push(x)[j]);
            assert(has_failed(s));
        }
    }
    if has_failed(s) {
        let j = choose|j: int| 0 <= j < s.len() && !(#[trigger] s[j]).success;
        assert(s.push(x)[j] == s[j]);
        assert(has_failed(s.push(x)));
    }
}

/// No record, no failed versions; and conversely.
proof fn lemma_failed_versions_empty(s: Seq<Migration>)
    ensures
        failed_versions_of(s).len() == 0 <==> !has_failed(s),
    decreases s.len(),
{
    reveal(Seq::filter);
    if s.len() == 0 {
    } else {
        lemma_failed_versions_empty(s.drop_last());
        lemma_failed_versions_push(s.drop_last(), s.last());
        assert(s.drop_last().push(s.last()) =~= s);
    }
}

/// The failed-history gate: any failed record blocks the whole run, reporting
/// every failed version, joined in history order.
pub fn check_failed_history(history: &Vec<Migration>) -> (r: Result<(), String>)
    ensures
        r is Ok <==> !has_failed(history@),
        r matches Err(e) ==> e@ == failed_history_message(failed_versions_of(history@)),
{
    let mut failed: Vec<String> = Vec::new();
    let mut i: usize = 0;
    proof {
        assert(history@.take(0) =~= Seq::<Migration>::empty());
        reveal(Seq::filter);
    }
    while i < history.len()
        invariant
            0 <= i <= history@.len(),
            failed@.map_values(|s: String| s@) == failed_versions_of(history@.take(i as int)),
        decreases history@.len() - i,
    {
        let ghost pre = history@.take(i as int);
        if !history[i].success {
            failed.push(history[i].version.clone());
        }
        proof {
            lemma_failed_versions_push(pre, history@[i as int]);
            assert(pre.push(history@[i as int]) =~= history@.take(i + 1));
            assert(failed@.map_values(|s: String| s@) =~= failed_versions_of(
                history@.take(i + 1),
            ));
        }
        i = i + 1;
    }
    proof {
        assert(history@.take(history@.len() as int) =~= history@);
        lemma_failed_versions_empty(history@);
    }
    if failed.len() == 0 {
        Ok(())
    } else {
        let mut e =
            "Failed migrations detected! Roll back your database and start from a fresh backup. Failed migrations: ".to_owned();
        let joined = join_strings(&failed, ", ");
        e.append(joined.as_str());
        Err(e)
    }
}

// ---------------------------------------------------------------------------
// Presence and checksum validation of history against incoming.
// ---------------------------------------------------------------------------

/// The first incoming migration carrying the given version, if any.
pub open spec fn find_version(ms: Seq<Migration>, v: Seq<char>) -> Option<Migration>
    decreases ms.len(),
{
    if ms.len() == 0 {
        None
    } else if ms[0].version@ == v {
        Some(ms[0])
    } else {
        find_version(ms.drop_first(), v)
    }
}

/// A historical record is consistent with the incoming set when some incoming
/// migration carries its version and the first such one carries its checksum.
pub open spec fn record_consistent(incoming: Seq<Migration>, h: Migration) -> bool {
    match find_version(incoming, h.version@) {
        Some(m) => m.checksum == h.checksum,
        None => false,
    }
}

pub open spec fn history_consistent(incoming: Seq<Migration>, history: Seq<Migration>) -> bool {
    forall|i: int| 0 <= i < history.len() ==> record_consistent(incoming, #[trigger] history[i])
}

/// The error an inconsistent record is reported with: a missing migration, or
/// a checksum mismatch naming both values.
pub open spec fn consistency_error(incoming: Seq<Migration>, h: Migration) -> Seq<char> {
    match find_version(incoming, h.version@) {
        Some(m) => checksum_mismatch_message(h.version@, h.checksum as int, m.checksum as int),
        None => missing_migration_message(h.version@),
    }
}

/// A found migration came from the sequence.
proof fn lemma_find_version_is_member(ms: Seq<Migration>, v: Seq<char>)
    requires
        find_version(ms, v) is Some,
    ensures
        exists|i: int| 0 <= i < ms.len() && #[trigger] ms[i] == find_version(ms, v)->Some_0
            && ms[i].version@ == v,
    decreases ms.len(),
{
    if ms.len() > 0 && ms[0].version@ != v {
        lemma_find_version_is_member(ms.drop_first(), v);
        let i = choose|i: int|
            0 <= i < ms.drop_first().len() && #[trigger] ms.drop_first()[i] == find_version(
                ms.drop_first(),
                v,
            )->Some_0 && ms.drop_first()[i].version@ == v;
        assert(ms[i + 1] == ms.drop_first()[i]);
    }
}

/// The first incoming migration with version `v`, as an index.
fn find_version_idx(ms: &Vec<Migration>, v: &String) -> (r: Option<usize>)
    ensures
        r matches Some(k) ==> 0 <= k < ms@.len() && find_version(ms@, v@) == Some(ms@[k as int]),
        r is None ==> find_version(ms@, v@) is None,
{
    let mut i: usize = 0;
    proof {
        assert(ms@.skip(0) =~= ms@);
    }
    while i < ms.len()
        invariant
            0 <= i <= ms@.len(),
            find_version(ms@, v@) == find_version(ms@.skip(i as int), v@),
        decreases ms@.len() - i,
    {
        if ms[i].version.eq(v) {
            assert(ms@.skip(i as int)[0] == ms@[i as int]);
            return Some(i);
        }
        proof {
            assert(ms@.skip(i as int)[0] == ms@[i as int]);
            assert(ms@.skip(i as int).drop_first() =~= ms@.skip(i + 1));
        }
        i = i + 1;
    }
    proof {
        assert(ms@.skip(ms@.len() as int).len() == 0);
    }
    None
}

/// Validate every historical record against the incoming set, in history
/// order: the first record whose version is absent, or whose checksum differs
/// from the first incoming migration of that version, aborts the run.
pub fn validate_history(incoming: &Vec<Migration>, history: &Vec<Migration>) -> (r: Result<
    (),
    String,
>)
    ensures
        r is Ok <==> history_consistent(incoming@, history@),
        r matches Err(e) ==> exists|i: int|
            0 <= i < history@.len() && !record_consistent(incoming@, #[trigger] history@[i]) && (
            forall|j: int| 0 <= j < i ==> record_consistent(incoming@, #[trigger] history@[j]))
                && e@ == consistency_error(incoming@, history@[i]),
{
    let mut i: usize = 0;
    while i < history.len()
        invariant
            0 <= i <= history@.len(),
            forall|j: int| 0 <= j < i ==> record_consistent(incoming@, #[trigger] history@[j]),
        decreases history@.len() - i,
    {
        let h = &history[i];
        match find_version_idx(incoming, &h.version) {
            None => {
                let mut e = "Incoming migrations do not contain migration ".to_owned();
                e.append(h.version.as_str());
                e.append(" - seems you are running code that is older than database contents.");
                return Err(e);
            },
            Some(k) => {
                if incoming[k].checksum != h.checksum {
                    let mut e = "Checksum mismatch for migration ".to_owned();
                    e.append(h.version.as_str());
                    e.append(": existing migration ");
                    let old_sum = i32_dec_string(h.checksum);
                    e.append(old_sum.as_str());
                    e.append(", incoming migration ");
                    let new_sum = i32_dec_string(incoming[k].checksum);
                    e.append(new_sum.as_str());
                    return Err(e);
                }
            },
        }
        i = i + 1;
    }
    Ok(())
}

// ---------------------------------------------------------------------------
// The pending set and the order gate.
// ---------------------------------------------------------------------------

/// Whether some historical record has the given script as its join key.
pub open spec fn in_history_by_script(history: Seq<Migration>, script: Seq<char>) -> bool {
    exists|i: int| 0 <= i < history.len() && (#[trigger] history[i]).script@ == script
}

/// The pending set: incoming migrations whose script is absent from history,
/// in incoming order.
pub open spec fn pending_of(incoming: Seq<Migration>, history: Seq<Migration>) -> Seq<Migration> {
    incoming.filter(|m: Migration| !in_history_by_script(history, m.script@))
}

fn script_in_history(history: &Vec<Migration>, script: &String) -> (r: bool)
    ensures
        r == in_history_by_script(history@, script@),
{
    let mut i: usize = 0;
    while i < history.len()
        invariant
            0 <= i <= history@.len(),
            forall|j: int| 0 <= j < i ==> (#[trigger] history@[j]).script@ != script@,
        decreases history@.len() - i,
    {
        if history[i].script.eq(script) {
            return true;
        }
        i = i + 1;
    }
    false
}

/// Appending one more incoming migration extends the pending set exactly when
/// its script is absent from history.
proof fn lemma_pending_push(incoming: Seq<Migration>, history: Seq<Migration>, x: Migration)
    ensures
        !in_history_by_script(history, x.script@) ==> pending_of(incoming.push(x), history)
            == pending_of(incoming, history).push(x),
        in_history_by_script(history, x.script@) ==> pending_of(incoming.push(x), history)
            == pending_of(incoming, history),
{
    reveal(Seq::filter);
    assert(incoming.push(x).drop_last() =~= incoming);
    assert(incoming.push(x).last() == x);
}

/// The incoming migrations not yet recorded in history, preserving order.
pub fn compute_pending(incoming: &Vec<Migration>, history: &Vec<Migration>) -> (r: Vec<Migration>)
    ensures
        r@ == pending_of(incoming@, history@),
        forall|k: int|
            0 <= k < r@.len() ==> exists|j: int|
                0 <= j < incoming@.len() && #[trigger] r@[k] == incoming@[j],
{
    let mut r: Vec<Migration> = Vec::new();
    let mut i: usize = 0;
    proof {
        reveal(Seq::filter);
        assert(incoming@.take(0) =~= Seq::<Migration>::empty());
    }
    while i < incoming.len()
        invariant
            0 <= i <= incoming@.len(),
            r@ == pending_of(incoming@.take(i as int), history@),
            forall|k: int|
                0 <= k < r@.len() ==> exists|j: int|
                    0 <= j < incoming@.len() && #[trigger] r@[k] == incoming@[j],
        decreases incoming@.len() - i,
    {
        if !script_in_history(history, &incoming[i].script) {
            r.push(incoming[i].clone());
        }
        proof {
            lemma_pending_push(incoming@.take(i as int), history@, incoming@[i as int]);
            assert(incoming@.take(i as int).push(incoming@[i as int]) =~= incoming@.take(i + 1));
        }
        i = i + 1;
    }
    proof {
        assert(incoming@.take(incoming@.len() as int) =~= incoming@);
    }
    r
}

/// Whether some pending migration is not strictly newer than the newest
/// historical one.
pub open spec fn some_pending_out_of_order(newest: Migration, pending: Seq<Migration>) -> bool {
    exists|i: int|
        0 <= i < pending.len() && version_cmp(newest.version@, (#[trigger] pending[i]).version@)
            != Ordering::Less
}

/// The order gate: every pending migration must be strictly newer than the
/// newest historical one; the first that is not aborts the run, named by its
/// script.
pub fn check_order(newest: &Migration, pending: &Vec<Migration>) -> (r: Result<(), String>)
    requires
        valid_version(newest.version@),
        forall|i: int| 0 <= i < pending@.len() ==> valid_version(#[trigger] pending@[i].version@),
    ensures
        r is Ok <==> !some_pending_out_of_order(*newest, pending@),
        r matches Err(e) ==> exists|i: int|
            0 <= i < pending@.len() && version_cmp(newest.version@, pending@[i].version@)
                != Ordering::Less && (forall|j: int|
                0 <= j < i ==> version_cmp(newest.version@, (#[trigger] pending@[j]).version@)
                    == Ordering::Less) && e@ == out_of_order_message(pending@[i].script@),
{
    let mut i: usize = 0;
    while i < pending.len()
        invariant
            0 <= i <= pending@.len(),
            valid_version(newest.version@),
            forall|k: int|
                0 <= k < pending@.len() ==> valid_version(#[trigger] pending@[k].version@),
            forall|j: int|
                0 <= j < i ==> version_cmp(newest.version@, (#[trigger] pending@[j]).version@)
                    == Ordering::Less,
        decreases pending@.len() - i,
    {
        let c = compare_versions(newest.version.as_str(), pending[i].version.as_str());
        if !matches!(c, Ordering::Less) {
            let mut e = "Incoming new migration is older than existing: ".to_owned();
            e.append(pending[i].script.as_str());
            return Err(e);
        }
        i = i + 1;
    }
    Ok(())
}

// ---------------------------------------------------------------------------
// The whole plan.
// ---------------------------------------------------------------------------

/// Whether reconciliation succeeds: no failed history, every historical record
/// consistent with the (sorted) incoming set, and every pending migration
/// strictly newer than the newest historical one.
pub open spec fn plan_accepted(incoming: Seq<Migration>, history: Seq<Migration>) -> bool {
    let si = sort_by_version(incoming);
    let sh = sort_by_version(history);
    &&& !has_failed(history)
    &&& history_consistent(si, history)
    &&& (sh.len() > 0 ==> !some_pending_out_of_order(sh.last(), pending_of(si, sh)))
}

/// Turn the incoming migrations and the raw history into the ordered pending
/// set, or into the exact error the first violated rule is reported with:
/// failed history first, then presence and checksum record by record, then
/// version order.
pub fn plan(incoming: &Vec<Migration>, history: &Vec<Migration>) -> (r: Result<
    Vec<Migration>,
    String,
>)
    requires
        forall|i: int| 0 <= i < incoming@.len() ==> valid_version(#[trigger] incoming@[i].version@),
    ensures
        r is Ok <==> plan_accepted(incoming@, history@),
        r matches Ok(v) ==> v@ == pending_of(
            sort_by_version(incoming@),
            sort_by_version(history@),
        ) && sorted_by_version(v@),
        r matches Err(e) ==> {
            let si = sort_by_version(incoming@);
            let sh = sort_by_version(history@);
            if has_failed(history@) {
                e@ == failed_history_message(failed_versions_of(history@))
            } else if !history_consistent(si, history@) {
                exists|i: int|
                    0 <= i < history@.len() && !record_consistent(si, #[trigger] history@[i]) && (
                    forall|j: int| 0 <= j < i ==> record_consistent(si, #[trigger] history@[j]))
                        && e@ == consistency_error(si, history@[i])
            } else {
                sh.len() > 0 && exists|i: int|
                    0 <= i < pending_of(si, sh).len() && version_cmp(
                        sh.last().version@,
                        (#[trigger] pending_of(si, sh)[i]).version@,
                    ) != Ordering::Less && (forall|j: int|
                        0 <= j < i ==> version_cmp(
                            sh.last().version@,
                            (#[trigger] pending_of(si, sh)[j]).version@,
                        ) == Ordering::Less) && e@ == out_of_order_message(
                        pending_of(si, sh)[i].script@,
                    )
            }
        },
{
    let sorted_incoming = sort_migrations(incoming);
    match check_failed_history(history) {
        Ok(()) => (),
        Err(e) => {
            return Err(e);
        },
    }
    match validate_history(&sorted_incoming, history) {
        Ok(()) => (),
        Err(e) => {
            return Err(e);
        },
    }
    proof {
        assert forall|i: int| 0 <= i < history@.len() implies valid_version(
            #[trigger] history@[i].version@,
        ) by {
            assert(record_consistent(sorted_incoming@, history@[i]));
            lemma_find_version_is_member(sorted_incoming@, history@[i].version@);
        }
    }
    let sorted_history = sort_migrations(history);
    let pending = compute_pending(&sorted_incoming, &sorted_history);
    if sorted_history.len() > 0 {
        let newest = &sorted_history[sorted_history.len() - 1];
        proof {
            assert(newest == sorted_history@.last());
        }
        match check_order(newest, &pending) {
            Ok(()) => (),
            Err(e) => {
                return Err(e);
            },
        }
    }
    proof {
        lemma_sort_by_version_sorted(incoming@);
        lemma_pending_sorted(sorted_incoming@, sorted_history@);
    }
    Ok(pending)
}

// ---------------------------------------------------------------------------
// Recording one execution attempt.
// ---------------------------------------------------------------------------

/// The record one execution attempt leaves behind: the migration unchanged but
/// for the outcome's success flag and the measured milliseconds, truncated to
/// 32 bits.
pub open spec fn is_outcome_record(r: Migration, m: Migration, ok: bool, millis: u128) -> bool {
    &&& r.version == m.version
    &&& r.description == m.description
    &&& r.migration_type == m.migration_type
    &&& r.script == m.script
    &&& r.checksum == m.checksum
    &&& r.execution_time == millis as i32
    &&& r.success == ok
    &&& r.contents == m.contents
}

/// What one execution attempt yields: the record to persist — the migration
/// with the real success flag and the measured time attached — and the error
/// to propagate, exactly when the attempt failed. The record is always handed
/// back, so the outcome is recorded whatever it was, and the run goes on
/// exactly when the attempt succeeded.
pub fn attempt_outcome(m: &Migration, result: Result<(), String>, millis: u128) -> (r: (
    Migration,
    Option<String>,
))
    ensures
        is_outcome_record(r.0, *m, result is Ok, millis),
        result is Ok <==> r.1 is None,
        result matches Err(e) ==> r.1 == Some(e),
{
    let mut record = m.clone();
    record.execution_time = #[verifier::truncate] (millis as i32);
    record.success = result.is_ok();
    let failure = match result {
        Ok(()) => None,
        Err(e) => Some(e),
    };
    (record, failure)
}

// ---------------------------------------------------------------------------
// Laws.
// ---------------------------------------------------------------------------

/// Ascending by version: no earlier element is strictly newer than a later one.
pub open spec fn sorted_by_version(s: Seq<Migration>) -> bool {
    forall|i: int, j: int|
        #![trigger s[i], s[j]]
        0 <= i < j < s.len() ==> version_cmp(s[i].version@, s[j].version@) != Ordering::Greater
}

/// Every element of the stable insertion is the new one or one of the old.
proof fn lemma_insert_by_version_elements(s: Seq<Migration>, m: Migration, k: int)
    requires
        0 <= k < insert_by_version(s, m).len(),
    ensures
        insert_by_version(s, m)[k] == m || exists|j: int|
            0 <= j < s.len() && insert_by_version(s, m)[k] == #[trigger] s[j],
    decreases s.len(),
{
    if s.len() == 0 {
    } else if version_cmp(s.last().version@, m.version@) == Ordering::Greater {
        let r = insert_by_version(s.drop_last(), m).push(s.last());
        if k == r.len() - 1 {
            assert(r[k] == s[s.len() - 1]);
        } else {
            lemma_insert_by_version_elements(s.drop_last(), m, k);
            if insert_by_version(s.drop_last(), m)[k] != m {
                let j = choose|j: int|
                    0 <= j < s.drop_last().len() && insert_by_version(s.drop_last(), m)[k]
                        == #[trigger] s.drop_last()[j];
                assert(r[k] == s[j]);
            }
        }
    } else {
        if k == s.len() {
        } else {
            assert(insert_by_version(s, m)[k] == s[k]);
        }
    }
}

/// Stable insertion into an ascending sequence keeps it ascending.
proof fn lemma_insert_by_version_sorted(s: Seq<Migration>, m: Migration)
    requires
        sorted_by_version(s),
    ensures
        sorted_by_version(insert_by_version(s, m)),
    decreases s.len(),
{
    if s.len() == 0 {
    } else if version_cmp(s.last().version@, m.version@) == Ordering::Greater {
        let dl = s.drop_last();
        assert(sorted_by_version(dl)) by {
            assert forall|i: int, j: int| 0 <= i < j < dl.len() implies version_cmp(
                (#[trigger] dl[i]).version@,
                (#[trigger] dl[j]).version@,
            ) != Ordering::Greater by {
                assert(dl[i] == s[i] && dl[j] == s[j]);
            }
        }
        lemma_insert_by_version_sorted(dl, m);
        let r0 = insert_by_version(dl, m);
        let r = r0.push(s.last());
        assert forall|i: int, j: int| 0 <= i < j < r.len() implies version_cmp(
            (#[trigger] r[i]).version@,
            (#[trigger] r[j]).version@,
        ) != Ordering::Greater by {
            if j < r.len() - 1 {
                assert(r[i] == r0[i] && r[j] == r0[j]);
            } else {
                assert(r[j] == s.last());
                assert(r[i] == r0[i]);
                lemma_insert_by_version_elements(dl, m, i);
                if r0[i] == m {
                    crate::version::lemma_version_cmp_flip(s.last().version@, m.version@);
                } else {
                    let q = choose|q: int| 0 <= q < dl.len() && r0[i] == #[trigger] dl[q];
                    assert(r0[i] == s[q]);
                    assert(version_cmp(s[q].version@, s[s.len() - 1].version@)
                        != Ordering::Greater);
                }
            }
        }
    } else {
        let r = s.push(m);
        assert forall|i: int, j: int| 0 <= i < j < r.len() implies version_cmp(
            (#[trigger] r[i]).version@,
            (#[trigger] r[j]).version@,
        ) != Ordering::Greater by {
            if j < r.len() - 1 {
                assert(r[i] == s[i] && r[j] == s[j]);
            } else {
                assert(r[j] == m && r[i] == s[i]);
                if i < s.len() - 1 {
                    assert(version_cmp(s[i].version@, s[s.len() - 1].version@)
                        != Ordering::Greater);
                    crate::version::lemma_version_cmp_trans(
                        s[i].version@,
                        s.last().version@,
                        m.version@,
                    );
                }
            }
        }
    }
}

/// Law: what the sort yields is in ascending version order.
pub proof fn lemma_sort_by_version_sorted(s: Seq<Migration>)
    ensures
        sorted_by_version(sort_by_version(s)),
    decreases s.len(),
{
    if s.len() > 0 {
        lemma_sort_by_version_sorted(s.drop_last());
        lemma_insert_by_version_sorted(sort_by_version(s.drop_last()), s.last());
    }
}

/// Every pending migration is one of the incoming ones.
proof fn lemma_pending_elements(incoming: Seq<Migration>, history: Seq<Migration>, k: int)
    requires
        0 <= k < pending_of(incoming, history).len(),
    ensures
        exists|j: int| 0 <= j < incoming.len() && pending_of(incoming, history)[k]
            == #[trigger] incoming[j],
    decreases incoming.len(),
{
    reveal(Seq::filter);
    if incoming.len() > 0 {
        let dl = incoming.drop_last();
        let p = pending_of(incoming, history);
        let pd = pending_of(dl, history);
        if k < pd.len() {
            lemma_pending_elements(dl, history, k);
            let j = choose|j: int| 0 <= j < dl.len() && pd[k] == #[trigger] dl[j];
            assert(p[k] == incoming[j]);
        } else {
            assert(p[k] == incoming[incoming.len() - 1]);
        }
    }
}

/// Law: the pending set of an ascending incoming sequence is ascending too —
/// the plan executes in ascending version order.
pub proof fn lemma_pending_sorted(incoming: Seq<Migration>, history: Seq<Migration>)
    requires
        sorted_by_version(incoming),
    ensures
        sorted_by_version(pending_of(incoming, history)),
    decreases incoming.len(),
{
    reveal(Seq::filter);
    if incoming.len() > 0 {
        let dl = incoming.drop_last();
        assert(sorted_by_version(dl)) by {
            assert forall|i: int, j: int| 0 <= i < j < dl.len() implies version_cmp(
                (#[trigger] dl[i]).version@,
                (#[trigger] dl[j]).version@,
            ) != Ordering::Greater by {
                assert(dl[i] == incoming[i] && dl[j] == incoming[j]);
            }
        }
        lemma_pending_sorted(dl, history);
        let p = pending_of(incoming, history);
        let pd = pending_of(dl, history);
        assert forall|i: int, j: int| 0 <= i < j < p.len() implies version_cmp(
            (#[trigger] p[i]).version@,
            (#[trigger] p[j]).version@,
        ) != Ordering::Greater by {
            if j < pd.len() {
                assert(p[i] == pd[i] && p[j] == pd[j]);
            } else {
                assert(p[j] == incoming[incoming.len() - 1]);
                assert(p[i] == pd[i]);
                lemma_pending_elements(dl, history, i);
                let q = choose|q: int| 0 <= q < dl.len() && pd[i] == #[trigger] dl[q];
                assert(pd[i] == incoming[q]);
                assert(version_cmp(incoming[q].version@, incoming[incoming.len() - 1].version@)
                    != Ordering::Greater);
            }
        }
    }
}

/// Stable insertion keeps exactly the same migrations.
proof fn lemma_insert_by_version_multiset(s: Seq<Migration>, m: Migration)
    ensures
        insert_by_version(s, m).to_multiset() == s.to_multiset().insert(m),
    decreases s.len(),
{
    broadcast use vstd::seq_lib::group_to_multiset_ensures;

    if s.len() == 0 {
        assert(seq![m] =~= Seq::<Migration>::empty().push(m));
    } else if version_cmp(s.last().version@, m.version@) == Ordering::Greater {
        lemma_insert_by_version_multiset(s.drop_last(), m);
        assert(s.drop_last().push(s.last()) =~= s);
        assert(s.drop_last().to_multiset().insert(m).insert(s.last()) =~= s.drop_last()
            .to_multiset().insert(s.last()).insert(m));
    } else {
    }
}

/// Sorting keeps exactly the same migrations.
pub proof fn lemma_sort_by_version_multiset(s: Seq<Migration>)
    ensures
        sort_by_version(s).to_multiset() == s.to_multiset(),
    decreases s.len(),
{
    broadcast use vstd::seq_lib::group_to_multiset_ensures;

    if s.len() > 0 {
        lemma_sort_by_version_multiset(s.drop_last());
        lemma_insert_by_version_multiset(sort_by_version(s.drop_last()), s.last());
        assert(s.drop_last().push(s.last()) =~= s);
    }
}

/// Two sequences of the same migrations hold the same scripts.
proof fn lemma_same_multiset_same_scripts(a: Seq<Migration>, b: Seq<Migration>, script: Seq<char>)
    requires
        a.to_multiset() == b.to_multiset(),
        in_history_by_script(a, script),
    ensures
        in_history_by_script(b, script),
{
    broadcast use vstd::seq_lib::group_to_multiset_ensures;

    let i = choose|i: int| 0 <= i < a.len() && (#[trigger] a[i]).script@ == script;
    assert(a.contains(a[i]));
    assert(b.to_multiset().count(a[i]) > 0);
    assert(b.contains(a[i]));
    let j = choose|j: int| 0 <= j < b.len() && b[j] == a[i];
    assert((b[j]).script@ == script);
}

/// A pending set over incoming migrations whose scripts all stand in history
/// is empty.
proof fn lemma_pending_empty(incoming: Seq<Migration>, history: Seq<Migration>)
    requires
        forall|i: int|
            0 <= i < incoming.len() ==> in_history_by_script(
                history,
                (#[trigger] incoming[i]).script@,
            ),
    ensures
        pending_of(incoming, history).len() == 0,
    decreases incoming.len(),
{
    reveal(Seq::filter);
    if incoming.len() > 0 {
        lemma_pending_empty(incoming.drop_last(), history);
    }
}

/// Law: running again changes nothing. When history already records every
/// incoming script — as it does right after a fully successful run — the
/// pending set the plan computes is empty, so no script is re-executed.
pub proof fn lemma_rerun_is_noop(incoming: Seq<Migration>, history: Seq<Migration>)
    requires
        forall|i: int|
            0 <= i < incoming.len() ==> in_history_by_script(
                history,
                (#[trigger] incoming[i]).script@,
            ),
    ensures
        pending_of(sort_by_version(incoming), sort_by_version(history)).len() == 0,
{
    broadcast use vstd::seq_lib::group_to_multiset_ensures;

    let si = sort_by_version(incoming);
    let sh = sort_by_version(history);
    lemma_sort_by_version_multiset(incoming);
    lemma_sort_by_version_multiset(history);
    assert forall|i: int| 0 <= i < si.len() implies in_history_by_script(
        sh,
        (#[trigger] si[i]).script@,
    ) by {
        assert(si.contains(si[i]));
        assert(incoming.to_multiset().count(si[i]) > 0);
        assert(incoming.contains(si[i]));
        let j = choose|j: int| 0 <= j < incoming.len() && incoming[j] == si[i];
        assert(in_history_by_script(history, incoming[j].script@));
        lemma_same_multiset_same_scripts(history, sh, si[i].script@);
    }
    lemma_pending_empty(si, sh);
}

} // verus!
