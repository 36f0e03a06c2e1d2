//! Splitting a migration script into statements. The history store runs a
//! script as one transaction, statement by statement; the boundary is a
//! semicolon followed by any number of spaces and a newline, and each leftmost
//! such separator ends a statement.

use vstd::prelude::*;

verus! {

/// The end of the run of spaces starting at `i`.
pub open spec fn space_run_end(s: Seq<char>, i: int) -> int
    decreases s.len() - i,
{
    if 0 <= i < s.len() && s[i] == ' ' {
        space_run_end(s, i + 1)
    } else {
        i
    }
}

proof fn lemma_space_run_end_bounds(s: Seq<char>, i: int)
    requires
        0 <= i <= s.len(),
    ensures
        i <= space_run_end(s, i) <= s.len(),
    decreases s.len() - i,
{
    if i < s.len() && s[i] == ' ' {
        lemma_space_run_end_bounds(s, i + 1);
    }
}

/// A run of spaces ends at the first non-space.
proof fn lemma_space_run_end_value(s: Seq<char>, i: int, e: int)
    requires
        0 <= i <= e <= s.len(),
        forall|k: int| i <= k < e ==> s[k] == ' ',
        e < s.len() ==> s[e] != ' ',
    ensures
        space_run_end(s, i) == e,
    decreases e - i,
{
    if i < e {
        lemma_space_run_end_value(s, i + 1, e);
    }
}

/// Whether a statement separator — a semicolon, any spaces, then a newline —
/// stands at position `i`.
pub open spec fn sep_at(s: Seq<char>, i: int) -> bool {
    let e = space_run_end(s, i + 1);
    &&& 0 <= i < s.len()
    &&& s[i] == ';'
    &&& e < s.len()
    &&& s[e] == '\n'
}

/// The length of the separator standing at `i`.
pub open spec fn sep_len(s: Seq<char>, i: int) -> int {
    space_run_end(s, i + 1) + 1 - i
}

/// The statements of a script, split on each leftmost separator; a script
/// without separators is one statement, and every separator bounds two.
pub open spec fn split_statements_spec(s: Seq<char>) -> Seq<Seq<char>>
    decreases s.len(),
    via split_statements_spec_decreases
{
    if s.len() == 0 {
        seq![Seq::<char>::empty()]
    } else if sep_at(s, 0) {
        seq![Seq::<char>::empty()] + split_statements_spec(s.skip(sep_len(s, 0)))
    } else {
        let rest = split_statements_spec(s.drop_first());
        seq![seq![s[0]] + rest[0]] + rest.drop_first()
    }
}

#[via_fn]
proof fn split_statements_spec_decreases(s: Seq<char>) {
    if s.len() != 0 && sep_at(s, 0) {
        lemma_space_run_end_bounds(s, 1);
    }
}

proof fn lemma_split_nonempty(s: Seq<char>)
    ensures
        split_statements_spec(s).len() >= 1,
    decreases s.len(),
{
    if s.len() != 0 && sep_at(s, 0) {
        lemma_space_run_end_bounds(s, 1);
    } else if s.len() != 0 {
        lemma_split_nonempty(s.drop_first());
    }
}

/// The statements with the first one extended on the left by `cur`.
spec fn with_front(cur: Seq<char>, parts: Seq<Seq<char>>) -> Seq<Seq<char>> {
    seq![cur + parts[0]] + parts.drop_first()
}

/// Split a script into its statements.
pub fn split_statements(sql: &str) -> (r: Vec<String>)
    ensures
        r@.map_values(|t: String| t@) == split_statements_spec(sql@),
{
    let ghost s = sql@;
    let n = sql.unicode_len();
    let mut out: Vec<String> = Vec::new();
    let ghost mut past: Seq<Seq<char>> = Seq::empty();
    let mut st: usize = 0;
    let mut i: usize = 0;
    proof {
        assert(s.skip(0) =~= s);
        lemma_split_nonempty(s);
        assert(s.subrange(0, 0) =~= Seq::<char>::empty());
        assert(s.subrange(0, 0) + split_statements_spec(s)[0] =~= split_statements_spec(s)[0]);
        assert(past + with_front(s.subrange(0, 0), split_statements_spec(s))
            =~= split_statements_spec(s));
    }
    while i < n
        invariant
            0 <= st <= i <= n == s.len(),
            s == sql@,
            out@.map_values(|t: String| t@) == past,
            split_statements_spec(s) =~~= past + with_front(
                s.subrange(st as int, i as int),
                split_statements_spec(s.skip(i as int)),
            ),
        decreases n - i,
    {
        let ghost rem = s.skip(i as int);
        let ghost cur = s.subrange(st as int, i as int);
        proof {
            lemma_split_nonempty(rem);
            assert(rem[0] == s[i as int]);
        }
        let c = sql.get_char(i);
        let mut is_sep = false;
        let mut j: usize = i + 1;
        if c == ';' {
            while j < n && sql.get_char(j) == ' '
                invariant
                    i + 1 <= j <= n == s.len(),
                    s == sql@,
                    forall|k: int| i + 1 <= k < j ==> s[k] == ' ',
                decreases n - j,
            {
                j = j + 1;
            }
            if j < n && sql.get_char(j) == '\n' {
                is_sep = true;
            }
            proof {
                assert forall|k: int| 1 <= k < j - i implies rem[k] == ' ' by {
                    assert(rem[k] == s[k + i]);
                }
                if j < n {
                    assert(rem[j - i] == s[j as int]);
                }
                lemma_space_run_end_value(rem, 1, j - i);
            }
        } else {
            proof {
                assert(!sep_at(rem, 0));
            }
        }
        if is_sep {
            proof {
                assert(sep_at(rem, 0));
                assert(sep_len(rem, 0) == j - i + 1);
                assert(split_statements_spec(rem) == seq![Seq::<char>::empty()]
                    + split_statements_spec(rem.skip(j - i + 1)));
            }
            let stmt = sql.substring_char(st, i).to_owned();
            out.push(stmt);
            proof {
                let rest = split_statements_spec(rem.skip(j - i + 1));
                lemma_split_nonempty(rem.skip(j - i + 1));
                assert(split_statements_spec(rem)[0] =~= Seq::<char>::empty());
                assert(cur + split_statements_spec(rem)[0] =~= cur);
                past = past.push(cur);
                assert(rem.skip(j - i + 1) =~= s.skip(j + 1));
                assert(s.subrange(j + 1, j + 1) =~= Seq::<char>::empty());
                assert(s.subrange(j + 1, j + 1) + rest[0] =~= rest[0]);
                assert(split_statements_spec(s) =~~= past + with_front(
                    s.subrange(j + 1, j + 1),
                    split_statements_spec(s.skip(j + 1)),
                ));
            }
            i = j + 1;
            st = i;
        } else {
            proof {
                if c == ';' {
                    assert(space_run_end(rem, 1) == j - i);
                    assert(!sep_at(rem, 0));
                }
                let rest = split_statements_spec(rem.drop_first());
                lemma_split_nonempty(rem.drop_first());
                assert(split_statements_spec(rem) == seq![seq![rem[0]] + rest[0]]
                    + rest.drop_first());
                assert(rem.drop_first() =~= s.skip(i + 1));
                assert(cur + (seq![rem[0]] + rest[0]) =~= s.subrange(st as int, i + 1) + rest[0]);
                assert(with_front(cur, split_statements_spec(rem)) =~~= with_front(
                    s.subrange(st as int, i + 1),
                    split_statements_spec(s.skip(i + 1)),
                ));
            }
            i = i + 1;
        }
    }
    let stmt = sql.substring_char(st, n).to_owned();
    out.push(stmt);
    proof {
        assert(s.skip(n as int) =~= Seq::<char>::empty());
        assert(split_statements_spec(s.skip(n as int)) == seq![Seq::<char>::empty()]);
        let cur = s.subrange(st as int, n as int);
        assert(cur + Seq::<char>::empty() =~= cur);
        assert(with_front(cur, split_statements_spec(s.skip(n as int))) =~= seq![cur]);
        assert(out@.map_values(|t: String| t@) =~= past.push(cur));
        assert(split_statements_spec(s) =~~= past.push(cur));
    }
    out
}

} // verus!
