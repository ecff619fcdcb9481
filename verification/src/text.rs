//! Substrings of character sequences: where one occurs in another, how often,
//! and what is left when every occurrence is cut out.

use vstd::prelude::*;
use vstd::std_specs::iter::IteratorSpec;
use vstd::string::StringExecFns;

verus! {

/// `pat` stands in `s` at index `i`.
pub open spec fn occurs_at(s: Seq<char>, pat: Seq<char>, i: int) -> bool {
    0 <= i && i + pat.len() <= s.len() && s.subrange(i, i + pat.len()) == pat
}

/// `pat` stands somewhere in `s`.
pub open spec fn contains_sub(s: Seq<char>, pat: Seq<char>) -> bool {
    exists|i: int| occurs_at(s, pat, i)
}

/// The number of indices of `s` at which `pat` stands.
pub open spec fn count_sub(s: Seq<char>, pat: Seq<char>) -> nat
    decreases s.len(),
{
    if s.len() == 0 {
        0
    } else if occurs_at(s, pat, 0) {
        1 + count_sub(s.skip(1), pat)
    } else {
        count_sub(s.skip(1), pat)
    }
}

/// `s` without the occurrences of `pat`, found from the left and never
/// overlapping. An empty `pat` removes nothing.
pub open spec fn remove_all(s: Seq<char>, pat: Seq<char>) -> Seq<char>
    decreases s.len(),
{
    if s.len() == 0 || pat.len() == 0 {
        s
    } else if occurs_at(s, pat, 0) {
        remove_all(s.skip(pat.len() as int), pat)
    } else {
        seq![s[0]] + remove_all(s.skip(1), pat)
    }
}

/// Where the first `k` characters of `s` all differ from the first of `pat`,
/// no occurrence starts among them.
pub proof fn lemma_count_skips_mismatch(s: Seq<char>, pat: Seq<char>, k: int)
    requires
        pat.len() > 0,
        0 <= k <= s.len(),
        forall|j: int| 0 <= j < k ==> s[j] != pat[0],
    ensures
        count_sub(s, pat) == count_sub(s.skip(k), pat),
    decreases k,
{
    if k == 0 {
        assert(s.skip(0) =~= s);
    } else {
        if occurs_at(s, pat, 0) {
            assert(s.subrange(0, pat.len() as int)[0] == pat[0]);
        }
        let rest = s.skip(1);
        assert forall|j: int| 0 <= j < k - 1 implies rest[j] != pat[0] by {
            assert(rest[j] == s[j + 1]);
        }
        lemma_count_skips_mismatch(rest, pat, k - 1);
        assert(rest.skip(k - 1) =~= s.skip(k));
    }
}

/// A text that lacks the first character of `pat` holds no occurrence of it.
pub proof fn lemma_count_zero(s: Seq<char>, pat: Seq<char>)
    requires
        pat.len() > 0,
        !s.contains(pat[0]),
    ensures
        count_sub(s, pat) == 0,
{
    assert forall|j: int| 0 <= j < s.len() implies s[j] != pat[0] by {
        assert(s.contains(s[j]));
    }
    lemma_count_skips_mismatch(s, pat, s.len() as int);
}

/// Every occurrence of `pat` in `s` is directly followed by the character `c`.
pub open spec fn always_followed_by(s: Seq<char>, pat: Seq<char>, c: char) -> bool {
    forall|i: int| #[trigger]
        occurs_at(s, pat, i) ==> i + pat.len() < s.len() && s[i + pat.len()] == c
}

/// Dropping a prefix of `s` keeps each occurrence of `pat` followed by `c`.
proof fn lemma_followed_by_skip(s: Seq<char>, pat: Seq<char>, c: char, n: int)
    requires
        always_followed_by(s, pat, c),
        0 <= n <= s.len(),
    ensures
        always_followed_by(s.skip(n), pat, c),
{
    let t = s.skip(n);
    assert forall|i: int| #[trigger] occurs_at(t, pat, i) implies i + pat.len() < t.len() && t[i
        + pat.len()] == c by {
        assert(t.subrange(i, i + pat.len()) == s.subrange(n + i, n + i + pat.len()));
        assert(occurs_at(s, pat, n + i));
    }
}

/// A text that opens what is left of `s` also opens `s` itself, when each
/// occurrence of `pat` in `s` is followed by a character that neither `pat`
/// nor the text holds.
proof fn lemma_kept_prefix(s: Seq<char>, pat: Seq<char>, c: char, x: Seq<char>)
    requires
        pat.len() > 0,
        !pat.contains(c),
        always_followed_by(s, pat, c),
        x.len() > 0,
        !x.contains(c),
        occurs_at(remove_all(s, pat), x, 0),
    ensures
        occurs_at(s, x, 0),
    decreases s.len(),
{
    let left = remove_all(s, pat);
    assert(left.subrange(0, x.len() as int)[0] == x[0]);
    assert(x.contains(x[0]));
    if s.len() == 0 {
    } else if occurs_at(s, pat, 0) {
        let rest = s.skip(pat.len() as int);
        assert(rest[0] == c);
        if occurs_at(rest, pat, 0) {
            assert(rest.subrange(0, pat.len() as int)[0] == pat[0]);
            assert(pat.contains(c));
        }
        assert(left == remove_all(rest, pat));
        assert(remove_all(rest, pat) == seq![c] + remove_all(rest.skip(1), pat));
        assert(left[0] == c);
    } else {
        let rest = s.skip(1);
        let tail = remove_all(rest, pat);
        assert(left == seq![s[0]] + tail);
        assert(s[0] == x[0]);
        if x.len() == 1 {
            assert(s.subrange(0, 1) =~= x);
        } else {
            let shorter = x.skip(1);
            assert(tail.subrange(0, x.len() - 1) =~= left.subrange(0, x.len() as int).skip(1));
            assert(occurs_at(tail, shorter, 0));
            if shorter.contains(c) {
                let k = choose|k: int| 0 <= k < shorter.len() && shorter[k] == c;
                assert(x[k + 1] == c);
            }
            lemma_followed_by_skip(s, pat, c, 1);
            lemma_kept_prefix(rest, pat, c, shorter);
            assert(s.subrange(0, x.len() as int) =~= seq![s[0]] + rest.subrange(
                0,
                x.len() - 1,
            ));
            assert(x =~= seq![x[0]] + shorter);
        }
    }
}

/// Cutting every occurrence of `pat` out of `s` leaves none behind, when
/// each occurrence in `s` is followed by a character foreign to `pat`.
pub proof fn lemma_remove_all_clean(s: Seq<char>, pat: Seq<char>, c: char)
    requires
        pat.len() > 0,
        !pat.contains(c),
        always_followed_by(s, pat, c),
    ensures
        !contains_sub(remove_all(s, pat), pat),
    decreases s.len(),
{
    let left = remove_all(s, pat);
    if s.len() == 0 {
        assert forall|i: int| !occurs_at(left, pat, i) by {}
    } else if occurs_at(s, pat, 0) {
        lemma_followed_by_skip(s, pat, c, pat.len() as int);
        lemma_remove_all_clean(s.skip(pat.len() as int), pat, c);
    } else {
        let rest = s.skip(1);
        let tail = remove_all(rest, pat);
        lemma_followed_by_skip(s, pat, c, 1);
        lemma_remove_all_clean(rest, pat, c);
        assert(left == seq![s[0]] + tail);
        assert forall|i: int| !occurs_at(left, pat, i) by {
            if occurs_at(left, pat, i) {
                if i == 0 {
                    lemma_kept_prefix(s, pat, c, pat);
                } else {
                    assert(tail.subrange(i - 1, i - 1 + pat.len()) =~= left.subrange(
                        i,
                        i + pat.len(),
                    ));
                    assert(occurs_at(tail, pat, i - 1));
                }
            }
        }
    }
}

/// Cutting `pat` out of `s` brings in no text that `s` did not hold, when
/// each occurrence of `pat` in `s` is followed by a character that neither
/// `pat` nor the text holds.
pub proof fn lemma_remove_all_adds_nothing(s: Seq<char>, pat: Seq<char>, c: char, x: Seq<char>)
    requires
        pat.len() > 0,
        !pat.contains(c),
        always_followed_by(s, pat, c),
        x.len() > 0,
        !x.contains(c),
        contains_sub(remove_all(s, pat), x),
    ensures
        contains_sub(s, x),
    decreases s.len(),
{
    let left = remove_all(s, pat);
    let i = choose|i: int| occurs_at(left, x, i);
    if s.len() == 0 {
        assert(occurs_at(s, x, i));
    } else if occurs_at(s, pat, 0) {
        let m = pat.len() as int;
        let rest = s.skip(m);
        lemma_followed_by_skip(s, pat, c, m);
        assert(occurs_at(remove_all(rest, pat), x, i));
        lemma_remove_all_adds_nothing(rest, pat, c, x);
        let j = choose|j: int| occurs_at(rest, x, j);
        assert(s.subrange(j + m, j + m + x.len()) =~= rest.subrange(j, j + x.len()));
        assert(occurs_at(s, x, j + m));
    } else {
        let rest = s.skip(1);
        let tail = remove_all(rest, pat);
        assert(left == seq![s[0]] + tail);
        if i == 0 {
            lemma_kept_prefix(s, pat, c, x);
        } else {
            assert(tail.subrange(i - 1, i - 1 + x.len()) =~= left.subrange(i, i + x.len()));
            assert(occurs_at(tail, x, i - 1));
            lemma_followed_by_skip(s, pat, c, 1);
            lemma_remove_all_adds_nothing(rest, pat, c, x);
            let j = choose|j: int| occurs_at(rest, x, j);
            assert(s.subrange(j + 1, j + 1 + x.len()) =~= rest.subrange(j, j + x.len()));
            assert(occurs_at(s, x, j + 1));
        }
    }
}

/// No occurrence of `pat` in `s` reaches into the `len` characters that
/// start at index `from`.
pub open spec fn untouched(s: Seq<char>, pat: Seq<char>, from: int, len: int) -> bool {
    forall|j: int| #[trigger] occurs_at(s, pat, j) ==> j + pat.len() <= from || from + len <= j
}

/// Dropping `n` characters in front of the stretch keeps it untouched.
proof fn lemma_untouched_skip(s: Seq<char>, pat: Seq<char>, from: int, len: int, n: int)
    requires
        untouched(s, pat, from, len),
        0 <= n <= s.len(),
    ensures
        untouched(s.skip(n), pat, from - n, len),
{
    let t = s.skip(n);
    assert forall|j: int| #[trigger] occurs_at(t, pat, j) implies j + pat.len() <= from - n || from
        - n + len <= j by {
        assert(t.subrange(j, j + pat.len()) == s.subrange(n + j, n + j + pat.len()));
        assert(occurs_at(s, pat, n + j));
    }
}

/// A text that opens `s` and that no occurrence of `pat` reaches into still
/// opens what is left of `s`.
proof fn lemma_prefix_stays(s: Seq<char>, pat: Seq<char>, x: Seq<char>)
    requires
        pat.len() > 0,
        occurs_at(s, x, 0),
        untouched(s, pat, 0, x.len() as int),
    ensures
        occurs_at(remove_all(s, pat), x, 0),
    decreases x.len(),
{
    let left = remove_all(s, pat);
    if x.len() == 0 {
        assert(left.subrange(0, 0) =~= x);
    } else {
        let rest = s.skip(1);
        let tail = remove_all(rest, pat);
        let shorter = x.skip(1);
        assert(!occurs_at(s, pat, 0));
        assert(left == seq![s[0]] + tail);
        assert(s.subrange(0, x.len() as int)[0] == x[0]);
        assert(rest.subrange(0, x.len() - 1) =~= s.subrange(0, x.len() as int).skip(1));
        assert(occurs_at(rest, shorter, 0));
        lemma_untouched_skip(s, pat, 0, x.len() as int, 1);
        assert forall|j: int| #[trigger] occurs_at(rest, pat, j) implies j + pat.len() <= 0
            || shorter.len() <= j by {}
        lemma_prefix_stays(rest, pat, shorter);
        assert(left.subrange(0, x.len() as int) =~= seq![s[0]] + tail.subrange(
            0,
            x.len() - 1,
        ));
        assert(x =~= seq![x[0]] + shorter);
    }
}

/// Cutting `pat` out of `s` keeps a text that stands in `s` where no
/// occurrence of `pat` reaches into it.
pub proof fn lemma_remove_all_keeps(s: Seq<char>, pat: Seq<char>, x: Seq<char>, i: int)
    requires
        pat.len() > 0,
        x.len() > 0,
        occurs_at(s, x, i),
        untouched(s, pat, i, x.len() as int),
    ensures
        contains_sub(remove_all(s, pat), x),
    decreases s.len(),
{
    let left = remove_all(s, pat);
    if occurs_at(s, pat, 0) {
        let m = pat.len() as int;
        let rest = s.skip(m);
        assert(m <= i);
        assert(rest.subrange(i - m, i - m + x.len()) =~= s.subrange(i, i + x.len()));
        lemma_untouched_skip(s, pat, i, x.len() as int, m);
        lemma_remove_all_keeps(rest, pat, x, i - m);
    } else {
        let rest = s.skip(1);
        let tail = remove_all(rest, pat);
        assert(left == seq![s[0]] + tail);
        if i == 0 {
            lemma_prefix_stays(s, pat, x);
        } else {
            assert(rest.subrange(i - 1, i - 1 + x.len()) =~= s.subrange(i, i + x.len()));
            lemma_untouched_skip(s, pat, i, x.len() as int, 1);
            lemma_remove_all_keeps(rest, pat, x, i - 1);
            let k = choose|k: int| occurs_at(tail, x, k);
            assert(left.subrange(k + 1, k + 1 + x.len()) =~= tail.subrange(k, k + x.len()));
            assert(occurs_at(left, x, k + 1));
        }
    }
}

/// What is left of `s` starts with a text that opens `s` untouched, and
/// goes on with what is left of the rest of `s`.
proof fn lemma_prefix_splits(s: Seq<char>, pat: Seq<char>, x: Seq<char>)
    requires
        pat.len() > 0,
        occurs_at(s, x, 0),
        untouched(s, pat, 0, x.len() as int),
    ensures
        remove_all(s, pat) == x + remove_all(s.skip(x.len() as int), pat),
    decreases x.len(),
{
    let left = remove_all(s, pat);
    if x.len() == 0 {
        assert(s.skip(0) =~= s);
        assert(left =~= x + left);
    } else {
        let rest = s.skip(1);
        let shorter = x.skip(1);
        assert(!occurs_at(s, pat, 0));
        assert(left == seq![s[0]] + remove_all(rest, pat));
        assert(s.subrange(0, x.len() as int)[0] == x[0]);
        assert(rest.subrange(0, x.len() - 1) =~= s.subrange(0, x.len() as int).skip(1));
        lemma_untouched_skip(s, pat, 0, x.len() as int, 1);
        assert forall|j: int| #[trigger] occurs_at(rest, pat, j) implies j + pat.len() <= 0
            || shorter.len() <= j by {}
        lemma_prefix_splits(rest, pat, shorter);
        assert(rest.skip(shorter.len() as int) =~= s.skip(x.len() as int));
        assert(left =~= x + remove_all(s.skip(x.len() as int), pat));
    }
}

/// `pat` never stands in `s` directly behind `y`.
pub open spec fn never_behind(s: Seq<char>, pat: Seq<char>, y: Seq<char>) -> bool {
    forall|j: int| #[trigger] occurs_at(s, pat, j) ==> !occurs_at(s, y, j - y.len())
}

/// Cutting `pat` out of `s` leaves as many occurrences of a text as `s`
/// held, when the text neither starts with a character of `pat` nor holds
/// the first one of `pat`, each occurrence of `pat` is followed by a
/// character foreign to `pat` that the text holds at its end at most, and,
/// where the text ends with that character, `pat` never stands directly
/// behind the rest of it.
pub proof fn lemma_remove_all_keeps_count(s: Seq<char>, pat: Seq<char>, c: char, x: Seq<char>)
    requires
        pat.len() > 0,
        !pat.contains(c),
        always_followed_by(s, pat, c),
        x.len() > 0,
        !pat.contains(x[0]),
        !x.contains(pat[0]),
        !x.drop_last().contains(c),
        x.last() == c ==> never_behind(s, pat, x.drop_last()),
    ensures
        count_sub(remove_all(s, pat), x) == count_sub(s, x),
    decreases s.len(),
{
    let left = remove_all(s, pat);
    let y = x.drop_last();
    if s.len() == 0 {
    } else if occurs_at(s, pat, 0) {
        let m = pat.len() as int;
        let rest = s.skip(m);
        assert forall|j: int| 0 <= j < m implies s[j] != x[0] by {
            assert(s.subrange(0, m)[j] == pat[j]);
            assert(pat.contains(pat[j]));
        }
        lemma_count_skips_mismatch(s, x, m);
        lemma_followed_by_skip(s, pat, c, m);
        if x.last() == c {
            lemma_never_behind_skip(s, pat, y, m);
        }
        lemma_remove_all_keeps_count(rest, pat, c, x);
    } else {
        let rest = s.skip(1);
        let tail = remove_all(rest, pat);
        assert(left == seq![s[0]] + tail);
        assert(left.skip(1) =~= tail);
        lemma_followed_by_skip(s, pat, c, 1);
        if x.last() == c {
            lemma_never_behind_skip(s, pat, y, 1);
        }
        lemma_remove_all_keeps_count(rest, pat, c, x);
        if occurs_at(s, x, 0) {
            assert forall|j: int| #[trigger] occurs_at(s, pat, j) implies j + pat.len() <= 0
                || x.len() <= j by {
                if j < x.len() {
                    assert(s.subrange(j, j + pat.len())[0] == pat[0]);
                    assert(s.subrange(0, x.len() as int)[j] == x[j]);
                    assert(x.contains(x[j]));
                }
            }
            lemma_prefix_stays(s, pat, x);
        }
        if occurs_at(left, x, 0) {
            if x.contains(c) {
                assert(left.subrange(0, x.len() as int) == x);
                assert(left.subrange(0, y.len() as int) =~= x.subrange(0, y.len() as int));
                assert(x.subrange(0, y.len() as int) =~= y);
                let k = choose|k: int| 0 <= k < x.len() && x[k] == c;
                if k < y.len() {
                    assert(y[k] == c);
                }
                assert(x.last() == c);
                if y.len() > 0 {
                    lemma_kept_prefix(s, pat, c, y);
                }
                assert(occurs_at(s, y, 0)) by {
                    if y.len() == 0 {
                        assert(s.subrange(0, 0) =~= y);
                    }
                }
                assert forall|j: int| #[trigger] occurs_at(s, pat, j) implies j + pat.len() <= 0
                    || y.len() <= j by {
                    if j < y.len() {
                        assert(s.subrange(j, j + pat.len())[0] == pat[0]);
                        assert(s.subrange(0, y.len() as int)[j] == y[j]);
                        assert(x[j] == y[j]);
                        assert(x.contains(x[j]));
                    }
                }
                lemma_prefix_splits(s, pat, y);
                let after = s.skip(y.len() as int);
                let kept = remove_all(after, pat);
                assert(left == y + kept);
                assert(left.subrange(0, x.len() as int)[y.len() as int] == c);
                assert(kept[0] == c);
                if occurs_at(after, pat, 0) {
                    assert(after.subrange(0, pat.len() as int) =~= s.subrange(
                        y.len() as int,
                        (y.len() + pat.len()) as int,
                    ));
                    assert(occurs_at(s, pat, y.len() as int));
                }
                assert(after.len() > 0);
                assert(kept == seq![after[0]] + remove_all(after.skip(1), pat));
                assert(s[y.len() as int] == c);
                assert(s.subrange(0, x.len() as int) =~= y.push(c));
                assert(x =~= y.push(c));
            } else {
                lemma_kept_prefix(s, pat, c, x);
            }
        }
    }
}

/// Dropping `n` characters in front keeps `pat` from standing behind `y`.
proof fn lemma_never_behind_skip(s: Seq<char>, pat: Seq<char>, y: Seq<char>, n: int)
    requires
        never_behind(s, pat, y),
        0 <= n <= s.len(),
    ensures
        never_behind(s.skip(n), pat, y),
{
    let t = s.skip(n);
    assert forall|j: int| #[trigger] occurs_at(t, pat, j) implies !occurs_at(t, y, j - y.len()) by {
        assert(t.subrange(j, j + pat.len()) == s.subrange(n + j, n + j + pat.len()));
        assert(occurs_at(s, pat, n + j));
        if occurs_at(t, y, j - y.len()) {
            assert(t.subrange(j - y.len(), j - y.len() + y.len()) == s.subrange(
                n + j - y.len(),
                n + j - y.len() + y.len(),
            ));
            assert(occurs_at(s, y, n + j - y.len()));
        }
    }
}

/// Where a text opens `s`, untouched, and `pat` follows it at once, the
/// text opens what is left of `s` with the character behind `pat` at its
/// end.
proof fn lemma_prefix_joins(s: Seq<char>, pat: Seq<char>, c: char, x: Seq<char>)
    requires
        pat.len() > 0,
        !pat.contains(c),
        always_followed_by(s, pat, c),
        occurs_at(s, x, 0),
        untouched(s, pat, 0, x.len() as int),
        occurs_at(s, pat, x.len() as int),
    ensures
        occurs_at(remove_all(s, pat), x.push(c), 0),
    decreases x.len(),
{
    let left = remove_all(s, pat);
    if x.len() == 0 {
        let rest = s.skip(pat.len() as int);
        assert(rest[0] == c);
        if occurs_at(rest, pat, 0) {
            assert(rest.subrange(0, pat.len() as int)[0] == pat[0]);
            assert(pat.contains(c));
        }
        assert(left == remove_all(rest, pat));
        assert(remove_all(rest, pat) == seq![c] + remove_all(rest.skip(1), pat));
        assert(left.subrange(0, 1) =~= x.push(c));
    } else {
        let rest = s.skip(1);
        let tail = remove_all(rest, pat);
        let shorter = x.skip(1);
        assert(!occurs_at(s, pat, 0));
        assert(left == seq![s[0]] + tail);
        assert(s.subrange(0, x.len() as int)[0] == x[0]);
        assert(rest.subrange(0, x.len() - 1) =~= s.subrange(0, x.len() as int).skip(1));
        assert(occurs_at(rest, shorter, 0));
        lemma_untouched_skip(s, pat, 0, x.len() as int, 1);
        assert forall|j: int| #[trigger] occurs_at(rest, pat, j) implies j + pat.len() <= 0
            || shorter.len() <= j by {}
        lemma_followed_by_skip(s, pat, c, 1);
        assert(rest.subrange(x.len() - 1, x.len() - 1 + pat.len()) =~= s.subrange(
            x.len() as int,
            (x.len() + pat.len()) as int,
        ));
        lemma_prefix_joins(rest, pat, c, shorter);
        assert(left.subrange(0, (x.len() + 1) as int) =~= seq![s[0]] + tail.subrange(
            0,
            x.len() as int,
        ));
        assert(x.push(c) =~= seq![x[0]] + shorter.push(c));
    }
}

/// Where a text stands in `s`, untouched, and `pat` follows it at once,
/// what is left of `s` holds the text with the character behind `pat` at
/// its end.
pub proof fn lemma_remove_all_joins(s: Seq<char>, pat: Seq<char>, c: char, x: Seq<char>, i: int)
    requires
        pat.len() > 0,
        !pat.contains(c),
        always_followed_by(s, pat, c),
        x.len() > 0,
        occurs_at(s, x, i),
        untouched(s, pat, i, x.len() as int),
        occurs_at(s, pat, i + x.len()),
    ensures
        contains_sub(remove_all(s, pat), x.push(c)),
    decreases s.len(),
{
    let left = remove_all(s, pat);
    let y = x.push(c);
    if occurs_at(s, pat, 0) {
        let m = pat.len() as int;
        let rest = s.skip(m);
        assert(m <= i);
        assert(rest.subrange(i - m, i - m + x.len()) =~= s.subrange(i, i + x.len()));
        assert(rest.subrange(i - m + x.len(), i - m + x.len() + m) =~= s.subrange(
            i + x.len(),
            i + x.len() + m,
        ));
        lemma_untouched_skip(s, pat, i, x.len() as int, m);
        lemma_followed_by_skip(s, pat, c, m);
        lemma_remove_all_joins(rest, pat, c, x, i - m);
    } else {
        let rest = s.skip(1);
        let tail = remove_all(rest, pat);
        assert(left == seq![s[0]] + tail);
        if i == 0 {
            lemma_prefix_joins(s, pat, c, x);
        } else {
            assert(rest.subrange(i - 1, i - 1 + x.len()) =~= s.subrange(i, i + x.len()));
            assert(rest.subrange(i - 1 + x.len(), i - 1 + x.len() + pat.len()) =~= s.subrange(
                i + x.len(),
                i + x.len() + pat.len(),
            ));
            lemma_untouched_skip(s, pat, i, x.len() as int, 1);
            lemma_followed_by_skip(s, pat, c, 1);
            lemma_remove_all_joins(rest, pat, c, x, i - 1);
            let k = choose|k: int| occurs_at(tail, y, k);
            assert(left.subrange(k + 1, k + 1 + y.len()) =~= tail.subrange(k, k + y.len()));
            assert(occurs_at(left, y, k + 1));
        }
    }
}

/// The characters of a string, in order.
fn chars_of(text: &str) -> (chars: Vec<char>)
    ensures
        chars@ == text@,
{
    let mut chars: Vec<char> = Vec::new();
    for c in it: text.chars()
        invariant
            it.seq() == text@,
            chars@ == text@.take(it.index() as int),
    {
        chars.push(c);
        assert(text@.take(it.index() + 1) =~= text@.take(it.index() as int).push(c));
    }
    assert(text@.take(text@.len() as int) =~= text@);
    chars
}

/// Whether `pat` stands in `text` at index `at`.
fn stands_at(text: &Vec<char>, pat: &Vec<char>, at: usize) -> (found: bool)
    requires
        at + pat.len() <= text.len(),
    ensures
        found == occurs_at(text@, pat@, at as int),
{
    let mut j: usize = 0;
    while j < pat.len()
        invariant
            at + pat.len() <= text.len(),
            0 <= j <= pat.len(),
            forall|k: int| 0 <= k < j ==> text@[at + k] == pat@[k],
        decreases pat.len() - j,
    {
        if text[at + j] != pat[j] {
            assert(text@.subrange(at as int, at + pat.len())[j as int] != pat@[j as int]);
            return false;
        }
        j = j + 1;
    }
    assert(text@.subrange(at as int, at + pat.len()) =~= pat@);
    true
}

/// The number of places of the text at which `pat` stands.
pub fn count_of(text: &str, pat: &str) -> (count: usize)
    requires
        pat@.len() > 0,
    ensures
        count == count_sub(text@, pat@),
{
    let chars = chars_of(text);
    let sought = chars_of(pat);
    let mut count: usize = 0;
    let mut i: usize = 0;
    assert(chars@.skip(0) =~= chars@);
    while i < chars.len()
        invariant
            sought.len() > 0,
            0 <= i <= chars.len(),
            count <= i,
            count + count_sub(chars@.skip(i as int), sought@) == count_sub(chars@, sought@),
        decreases chars.len() - i,
    {
        let ghost rest = chars@.skip(i as int);
        let found = sought.len() <= chars.len() - i && stands_at(&chars, &sought, i);
        proof {
            if sought.len() <= chars.len() - i {
                assert(rest.subrange(0, sought.len() as int) =~= chars@.subrange(
                    i as int,
                    i + sought.len(),
                ));
            }
            assert(found == occurs_at(rest, sought@, 0));
            assert(rest.skip(1) =~= chars@.skip(i + 1));
        }
        if found {
            count = count + 1;
        }
        i = i + 1;
    }
    count
}

/// The text without the occurrences of `pat`, found from the left and never
/// overlapping.
pub fn without(text: &str, pat: &str) -> (out: String)
    ensures
        out@ == remove_all(text@, pat@),
{
    let chars = chars_of(text);
    let cut = chars_of(pat);
    if cut.len() == 0 {
        return String::from_str(text);
    }
    let mut out = String::new();
    let mut i: usize = 0;
    assert(chars@.skip(0) =~= chars@);
    while i < chars.len()
        invariant
            cut.len() > 0,
            0 <= i <= chars.len(),
            out@ + remove_all(chars@.skip(i as int), cut@) == remove_all(chars@, cut@),
        decreases chars.len() - i,
    {
        let ghost rest = chars@.skip(i as int);
        let found = cut.len() <= chars.len() - i && stands_at(&chars, &cut, i);
        proof {
            if cut.len() <= chars.len() - i {
                assert(rest.subrange(0, cut.len() as int) =~= chars@.subrange(
                    i as int,
                    i + cut.len(),
                ));
            }
            assert(found == occurs_at(rest, cut@, 0));
        }
        if found {
            assert(rest.skip(cut.len() as int) =~= chars@.skip(i + cut.len()));
            i = i + cut.len();
        } else {
            assert(rest.skip(1) =~= chars@.skip(i + 1));
            assert(out@.push(chars@[i as int]) + remove_all(rest.skip(1), cut@) =~= out@ + (
            seq![rest[0]] + remove_all(rest.skip(1), cut@)));
            out.push(chars[i]);
            i = i + 1;
        }
    }
    assert(out@ + remove_all(chars@.skip(chars.len() as int), cut@) =~= out@);
    out
}

} // verus!
