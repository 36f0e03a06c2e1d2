//! Version strings: dot-separated sequences of non-negative integers,
//! compared element-wise and numerically (never lexically).

use vstd::prelude::*;
use core::cmp::Ordering;

verus! {

/// True of the ten decimal digit characters.
pub open spec fn is_digit_char(c: char) -> bool {
    '0' <= c && c <= '9'
}

/// The numeric value of one decimal digit character.
pub open spec fn digit_val(c: char) -> nat {
    (c as int - '0' as int) as nat
}

/// The number denoted by a sequence of decimal digits, most significant first.
pub open spec fn digits_val(s: Seq<char>) -> nat
    decreases s.len(),
{
    if s.len() == 0 {
        0
    } else {
        digits_val(s.drop_last()) * 10 + digit_val(s.last())
    }
}

pub open spec fn all_digits(s: Seq<char>) -> bool {
    forall|i: int| 0 <= i < s.len() ==> is_digit_char(#[trigger] s[i])
}

/// The components of `s` split on `'.'`, as `str::split('.')` yields them:
/// the empty string has one empty component, and every dot separates two
/// (possibly empty) components.
pub open spec fn dot_components(s: Seq<char>) -> Seq<Seq<char>>
    decreases s.len(),
{
    if s.len() == 0 {
        seq![Seq::<char>::empty()]
    } else if s[0] == '.' {
        seq![Seq::<char>::empty()] + dot_components(s.drop_first())
    } else {
        let rest = dot_components(s.drop_first());
        seq![seq![s[0]] + rest[0]] + rest.drop_first()
    }
}

proof fn lemma_dot_components_nonempty(s: Seq<char>)
    ensures
        dot_components(s).len() >= 1,
    decreases s.len(),
{
    if s.len() != 0 {
        lemma_dot_components_nonempty(s.drop_first());
    }
}

/// A version string is valid when every dot-separated component is a nonempty
/// run of digits whose value fits in 32 bits.
pub open spec fn valid_version(s: Seq<char>) -> bool {
    forall|i: int|
        0 <= i < dot_components(s).len() ==> {
            let c = #[trigger] dot_components(s)[i];
            c.len() > 0 && all_digits(c) && digits_val(c) <= u32::MAX
        }
}

/// The numeric components of a version string.
pub open spec fn version_nums(s: Seq<char>) -> Seq<nat> {
    dot_components(s).map_values(|c: Seq<char>| digits_val(c))
}

/// Lexicographic, element-wise numeric comparison of component sequences;
/// a strict prefix orders before its extensions.
pub open spec fn nums_cmp(a: Seq<nat>, b: Seq<nat>) -> Ordering
    decreases a.len(),
{
    if a.len() == 0 && b.len() == 0 {
        Ordering::Equal
    } else if a.len() == 0 {
        Ordering::Less
    } else if b.len() == 0 {
        Ordering::Greater
    } else if a[0] < b[0] {
        Ordering::Less
    } else if a[0] > b[0] {
        Ordering::Greater
    } else {
        nums_cmp(a.drop_first(), b.drop_first())
    }
}

/// The order of two version strings: their numeric components compared
/// lexicographically.
pub open spec fn version_cmp(a: Seq<char>, b: Seq<char>) -> Ordering {
    nums_cmp(version_nums(a), version_nums(b))
}

/// The comparison is antisymmetric: one side is greater exactly when the
/// other is less.
proof fn lemma_nums_cmp_flip(a: Seq<nat>, b: Seq<nat>)
    ensures
        (nums_cmp(a, b) == Ordering::Greater) <==> (nums_cmp(b, a) == Ordering::Less),
    decreases a.len(),
{
    if a.len() > 0 && b.len() > 0 && a[0] == b[0] {
        lemma_nums_cmp_flip(a.drop_first(), b.drop_first());
    }
}

/// The comparison is transitive on "not greater".
proof fn lemma_nums_cmp_trans(a: Seq<nat>, b: Seq<nat>, c: Seq<nat>)
    requires
        nums_cmp(a, b) != Ordering::Greater,
        nums_cmp(b, c) != Ordering::Greater,
    ensures
        nums_cmp(a, c) != Ordering::Greater,
    decreases a.len(),
{
    if a.len() > 0 && b.len() > 0 && c.len() > 0 && a[0] == b[0] && b[0] == c[0] {
        lemma_nums_cmp_trans(a.drop_first(), b.drop_first(), c.drop_first());
    }
}

/// The version order is antisymmetric: `a` is greater than `b` exactly when
/// `b` is less than `a`.
pub proof fn lemma_version_cmp_flip(a: Seq<char>, b: Seq<char>)
    ensures
        (version_cmp(a, b) == Ordering::Greater) <==> (version_cmp(b, a) == Ordering::Less),
{
    lemma_nums_cmp_flip(version_nums(a), version_nums(b));
}

/// The version order is transitive: what is not newer than `b`, which is not
/// newer than `c`, is not newer than `c`.
pub proof fn lemma_version_cmp_trans(a: Seq<char>, b: Seq<char>, c: Seq<char>)
    requires
        version_cmp(a, b) != Ordering::Greater,
        version_cmp(b, c) != Ordering::Greater,
    ensures
        version_cmp(a, c) != Ordering::Greater,
{
    lemma_nums_cmp_trans(version_nums(a), version_nums(b), version_nums(c));
}

/// The lexicographic comparison of equally long sequences, characterised
/// numerically: equal exactly when all elements agree, and less exactly when
/// the first differing element is smaller.
proof fn lemma_nums_cmp_numeric(x: Seq<nat>, y: Seq<nat>)
    requires
        x.len() == y.len(),
    ensures
        (nums_cmp(x, y) == Ordering::Equal) <==> x == y,
        (nums_cmp(x, y) == Ordering::Less) <==> exists|i: int|
            #![trigger x[i], y[i]]
            0 <= i < x.len() && x[i] < y[i] && (forall|j: int|
                #![trigger x[j], y[j]]
                0 <= j < i ==> x[j] == y[j]),
    decreases x.len(),
{
    if x.len() == 0 {
        assert(x =~= y);
    } else if x[0] < y[0] {
        assert(exists|i: int|
            #![trigger x[i], y[i]]
            0 <= i < x.len() && x[i] < y[i] && (forall|j: int|
                #![trigger x[j], y[j]]
                0 <= j < i ==> x[j] == y[j])) by {
            assert(x[0] < y[0] && (forall|j: int| #![trigger x[j], y[j]] 0 <= j < 0 ==> x[j] == y[j]));
        }
    } else if x[0] > y[0] {
        assert(x[0] != y[0]);
    } else {
        let xd = x.drop_first();
        let yd = y.drop_first();
        lemma_nums_cmp_numeric(xd, yd);
        if xd == yd {
            assert forall|i: int| 0 <= i < x.len() implies x[i] == y[i] by {
                if i > 0 {
                    assert(xd[i - 1] == yd[i - 1]);
                }
            }
            assert(x =~= y);
        }
        if x == y {
            assert(xd =~= yd);
        }
        if nums_cmp(xd, yd) == Ordering::Less {
            let i = choose|i: int|
                #![trigger xd[i], yd[i]]
                0 <= i < xd.len() && xd[i] < yd[i] && (forall|j: int|
                    #![trigger xd[j], yd[j]]
                    0 <= j < i ==> xd[j] == yd[j]);
            assert(x[i + 1] < y[i + 1] && (forall|j: int|
                #![trigger x[j], y[j]]
                0 <= j < i + 1 ==> x[j] == y[j])) by {
                assert forall|j: int| 0 <= j < i + 1 implies #[trigger] x[j] == #[trigger] y[j] by {
                    if j > 0 {
                        assert(xd[j - 1] == yd[j - 1]);
                    }
                }
            }
        }
        if exists|i: int|
            #![trigger x[i], y[i]]
            0 <= i < x.len() && x[i] < y[i] && (forall|j: int|
                #![trigger x[j], y[j]]
                0 <= j < i ==> x[j] == y[j]) {
            let i = choose|i: int|
                #![trigger x[i], y[i]]
                0 <= i < x.len() && x[i] < y[i] && (forall|j: int|
                    #![trigger x[j], y[j]]
                    0 <= j < i ==> x[j] == y[j]);
            assert(i > 0);
            assert(xd[i - 1] < yd[i - 1] && (forall|j: int|
                #![trigger xd[j], yd[j]]
                0 <= j < i - 1 ==> xd[j] == yd[j])) by {
                assert forall|j: int| 0 <= j < i - 1 implies #[trigger] xd[j] == #[trigger] yd[j] by {
                    assert(x[j + 1] == y[j + 1]);
                }
            }
        }
    }
}

/// Law: for valid version strings of equal component count, the comparator's
/// order is the numeric order of the components — the versions compare equal
/// exactly when all components are numerically equal, and one compares less
/// exactly when its first differing component is numerically smaller (never
/// the lexical order of the strings).
pub proof fn lemma_version_order_numeric(a: Seq<char>, b: Seq<char>)
    requires
        valid_version(a),
        valid_version(b),
        version_nums(a).len() == version_nums(b).len(),
    ensures
        (version_cmp(a, b) == Ordering::Equal) <==> version_nums(a) == version_nums(b),
        (version_cmp(a, b) == Ordering::Less) <==> exists|i: int|
            #![trigger version_nums(a)[i], version_nums(b)[i]]
            0 <= i < version_nums(a).len() && version_nums(a)[i] < version_nums(b)[i] && (forall|
                j: int,
            |
                #![trigger version_nums(a)[j], version_nums(b)[j]]
                0 <= j < i ==> version_nums(a)[j] == version_nums(b)[j]),
{
    lemma_nums_cmp_numeric(version_nums(a), version_nums(b));
}

/// Splitting at the first dot: if no character before `p` is a dot and `p` is
/// either a dot or the end, the components are the prefix followed by the
/// components of what comes after the dot.
proof fn lemma_dot_components_split(s: Seq<char>, p: int)
    requires
        0 <= p <= s.len(),
        forall|k: int| 0 <= k < p ==> s[k] != '.',
        p < s.len() ==> s[p] == '.',
    ensures
        p == s.len() ==> dot_components(s) =~~= seq![s],
        p < s.len() ==> dot_components(s) =~~= seq![s.take(p)] + dot_components(s.skip(p + 1)),
    decreases s.len(),
{
    if s.len() == 0 {
    } else if s[0] == '.' {
        assert(s.skip(1) == s.drop_first());
        assert(s.take(0) == Seq::<char>::empty());
    } else {
        let t = s.drop_first();
        lemma_dot_components_split(t, p - 1);
        lemma_dot_components_nonempty(t);
        if p == s.len() {
            assert(seq![s[0]] + t =~= s);
        } else {
            assert(seq![s[0]] + t.take(p - 1) =~= s.take(p));
            assert(t.skip(p) =~= s.skip(p + 1));
        }
    }
}

/// Appending one more digit multiplies the value by ten and adds the digit.
proof fn lemma_digits_val_push(s: Seq<char>, c: char)
    ensures
        digits_val(s.push(c)) == digits_val(s) * 10 + digit_val(c),
{
    assert(s.push(c).drop_last() =~= s);
    assert(s.push(c).last() == c);
}

/// The value of a digit string is at least the value of any of its prefixes.
proof fn lemma_digits_val_prefix_le(s: Seq<char>, k: int)
    requires
        0 <= k <= s.len(),
    ensures
        digits_val(s.take(k)) <= digits_val(s),
    decreases s.len() - k,
{
    if k < s.len() {
        lemma_digits_val_prefix_le(s, k + 1);
        lemma_digits_val_push(s.take(k), s[k]);
        assert(s.take(k).push(s[k]) =~= s.take(k + 1));
        assert(digits_val(s.take(k)) <= digits_val(s.take(k)) * 10 + digit_val(s[k]));
    } else {
        assert(s.take(k) =~= s);
    }
}

/// Parse the digits of one version component; `None` when the component is
/// empty, holds a non-digit, or denotes a value above `u32::MAX`.
fn parse_component(v: &str, from: usize, to: usize) -> (r: Option<u32>)
    requires
        0 <= from <= to <= v@.len(),
    ensures
        match r {
            Some(x) => {
                let c = v@.subrange(from as int, to as int);
                &&& c.len() > 0
                &&& all_digits(c)
                &&& digits_val(c) <= u32::MAX
                &&& x as nat == digits_val(c)
            },
            None => {
                let c = v@.subrange(from as int, to as int);
                !(c.len() > 0 && all_digits(c) && digits_val(c) <= u32::MAX)
            },
        },
{
    let ghost c = v@.subrange(from as int, to as int);
    if from == to {
        return None;
    }
    let mut val: u64 = 0;
    let mut j: usize = from;
    while j < to
        invariant
            from <= j <= to <= v@.len(),
            c == v@.subrange(from as int, to as int),
            all_digits(c.take(j - from)),
            val as nat == digits_val(c.take(j - from)),
            val <= u32::MAX as u64,
        decreases to - j,
    {
        let ch = v.get_char(j);
        assert(c[j - from] == ch);
        if ch < '0' || ch > '9' {
            assert(!all_digits(c));
            return None;
        }
        let d: u32 = (ch as u32) - 48;
        assert(d as nat == digit_val(ch));
        let next: u64 = val * 10 + (d as u64);
        proof {
            lemma_digits_val_push(c.take(j - from), ch);
            assert(c.take(j - from).push(ch) =~= c.take(j - from + 1));
        }
        if next > u32::MAX as u64 {
            proof {
                lemma_digits_val_prefix_le(c, j - from + 1);
            }
            return None;
        }
        val = next;
        j = j + 1;
    }
    assert(c.take(to - from) =~= c);
    Some(val as u32)
}

/// Parse a version string into its numeric components; `None` exactly when the
/// string is not a valid version.
pub fn parse_version_opt(v: &str) -> (r: Option<Vec<u32>>)
    ensures
        r is Some <==> valid_version(v@),
        r matches Some(nums) ==> nums@.map_values(|x: u32| x as nat) == version_nums(v@),
{
    let ghost s = v@;
    let n = v.unicode_len();
    let mut comps: Vec<u32> = Vec::new();
    let ghost mut past: Seq<Seq<char>> = Seq::empty();
    let mut i: usize = 0;
    proof {
        assert(s.skip(0) =~= s);
        assert(past + dot_components(s.skip(0)) =~~= dot_components(s));
    }
    loop
        invariant
            0 <= i <= n == s.len(),
            s == v@,
            dot_components(s) =~~= past + dot_components(s.skip(i as int)),
            comps@.len() == past.len(),
            forall|k: int|
                0 <= k < past.len() ==> {
                    let c = #[trigger] past[k];
                    c.len() > 0 && all_digits(c) && digits_val(c) <= u32::MAX && comps@[k] as nat
                        == digits_val(c)
                },
        decreases n - i + 1,
    {
        let mut j: usize = i;
        while j < n && v.get_char(j) != '.'
            invariant
                i <= j <= n == s.len(),
                s == v@,
                forall|k: int| i <= k < j ==> s[k] != '.',
            decreases n - j,
        {
            j = j + 1;
        }
        proof {
            assert(s.skip(i as int).len() == n - i);
            assert forall|k: int| 0 <= k < j - i implies s.skip(i as int)[k] != '.' by {
                assert(s.skip(i as int)[k] == s[k + i]);
            }
            if j < n {
                assert(s.skip(i as int)[j - i] == s[j as int]);
            }
            lemma_dot_components_split(s.skip(i as int), j - i);
        }
        let ghost comp = s.subrange(i as int, j as int);
        proof {
            assert(s.skip(i as int).take(j - i) =~= comp);
            if j == n {
                assert(s.skip(i as int) =~= comp);
                assert(dot_components(s.skip(i as int)) == seq![comp]);
            }
            assert(dot_components(s.skip(i as int))[0] == comp);
        }
        let parsed = parse_component(v, i, j);
        match parsed {
            None => {
                proof {
                    lemma_dot_components_nonempty(s.skip(i as int));
                    let bad = past.len() as int;
                    assert(dot_components(s)[bad] == comp);
                    assert(!valid_version(s));
                }
                return None;
            },
            Some(x) => {
                comps.push(x);
                proof {
                    let past0 = past;
                    past = past.push(comp);
                    assert(past =~~= past0 + seq![comp]);
                    if j < n {
                        assert(s.skip(i as int).skip(j - i + 1) =~= s.skip(j as int + 1));
                        assert(dot_components(s) =~~= past + dot_components(s.skip(j as int + 1)));
                    }
                }
            },
        }
        if j == n {
            proof {
                assert(dot_components(s) =~~= past);
                assert(valid_version(s));
                assert(comps@.map_values(|x: u32| x as nat) =~= version_nums(s));
            }
            return Some(comps);
        }
        i = j + 1;
    }
}

/// Parse a valid version string into its numeric components.
pub fn parse_version(v: &str) -> (r: Vec<u32>)
    requires
        valid_version(v@),
    ensures
        r@.map_values(|x: u32| x as nat) == version_nums(v@),
{
    match parse_version_opt(v) {
        Some(r) => r,
        None => vstd::pervasive::unreached(),
    }
}

/// Whether a string is a valid version.
pub fn is_valid_version(v: &str) -> (r: bool)
    ensures
        r == valid_version(v@),
{
    parse_version_opt(v).is_some()
}

/// Compare two valid version strings numerically, component by component.
pub fn compare_versions(a: &str, b: &str) -> (r: Ordering)
    requires
        valid_version(a@),
        valid_version(b@),
    ensures
        r == version_cmp(a@, b@),
{
    let va = parse_version(a);
    let vb = parse_version(b);
    let ghost na = version_nums(a@);
    let ghost nb = version_nums(b@);
    let mut i: usize = 0;
    proof {
        assert(na.skip(0) =~= na);
        assert(nb.skip(0) =~= nb);
    }
    loop
        invariant
            0 <= i <= va@.len(),
            i <= vb@.len(),
            na == version_nums(a@),
            nb == version_nums(b@),
            na == va@.map_values(|x: u32| x as nat),
            nb == vb@.map_values(|x: u32| x as nat),
            nums_cmp(na, nb) == nums_cmp(na.skip(i as int), nb.skip(i as int)),
        decreases va@.len() - i,
    {
        if i == va.len() && i == vb.len() {
            return Ordering::Equal;
        } else if i == va.len() {
            assert(na.skip(i as int).len() == 0 && nb.skip(i as int).len() > 0);
            return Ordering::Less;
        } else if i == vb.len() {
            assert(nb.skip(i as int).len() == 0 && na.skip(i as int).len() > 0);
            return Ordering::Greater;
        } else {
            let x = va[i];
            let y = vb[i];
            assert(na.skip(i as int)[0] == x as nat && nb.skip(i as int)[0] == y as nat);
            if x < y {
                return Ordering::Less;
            } else if x > y {
                return Ordering::Greater;
            }
            proof {
                assert(na.skip(i as int).drop_first() =~= na.skip(i + 1));
                assert(nb.skip(i as int).drop_first() =~= nb.skip(i + 1));
            }
            i = i + 1;
        }
    }
}

} // verus!
