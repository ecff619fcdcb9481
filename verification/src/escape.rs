//! HTML escaping of literal text.

use vstd::prelude::*;
use crate::text::{contains_sub, occurs_at};

verus! {

/// Whether a character has a meaning in HTML and is written as an entity.
pub open spec fn is_special(c: char) -> bool {
    c == '&' || c == '<' || c == '>' || c == '"' || c == '\'' || c == '/'
}

/// What stands for one character in escaped text: an entity for each of
/// `&`, `<`, `>`, `"`, `'` and `/`, and the character itself otherwise.
pub open spec fn escape_char(c: char) -> Seq<char> {
    if c == '&' {
        seq!['&', 'a', 'm', 'p', ';']
    } else if c == '<' {
        seq!['&', 'l', 't', ';']
    } else if c == '>' {
        seq!['&', 'g', 't', ';']
    } else if c == '"' {
        seq!['&', 'q', 'u', 'o', 't', ';']
    } else if c == '\'' {
        seq!['&', '#', 'x', '2', '7', ';']
    } else if c == '/' {
        seq!['&', '#', 'x', '2', 'F', ';']
    } else {
        seq![c]
    }
}

/// Escaped text: each character replaced by what stands for it, in order.
pub open spec fn escaped(s: Seq<char>) -> Seq<char>
    decreases s.len(),
{
    if s.len() == 0 {
        Seq::empty()
    } else {
        escaped(s.drop_last()) + escape_char(s.last())
    }
}

/// An entity, as escaping writes it, stands in `t` at index `i`.
pub open spec fn entity_at(t: Seq<char>, i: int) -> bool {
    exists|c: char| is_special(c) && #[trigger] occurs_at(t, escape_char(c), i)
}

/// Escapes text for HTML with `tera::escape_html`, which walks the
/// characters and writes `&amp;`, `&lt;`, `&gt;`, `&quot;`, `&#x27;` and
/// `&#x2F;` for the six special ones and every other character as it is.
#[verifier::external_body]
pub(crate) fn escape_html(input: &str) -> (out: String)
    ensures
        out@ == escaped(input@),
{
    tera::escape_html(input)
}

/// Escaped text keeps none of the special characters but `&`, each `&` in it
/// opens an entity, and it is at least as long as the text it came from.
pub proof fn lemma_escaped_is_safe(s: Seq<char>)
    ensures
        forall|i: int|
            0 <= i < escaped(s).len() ==> #[trigger] escaped(s)[i] == '&' || !is_special(
                escaped(s)[i],
            ),
        forall|i: int|
            0 <= i < escaped(s).len() && #[trigger] escaped(s)[i] == '&' ==> entity_at(
                escaped(s),
                i,
            ),
        escaped(s).len() >= s.len(),
    decreases s.len(),
{
    if s.len() > 0 {
        let init = escaped(s.drop_last());
        let last = escape_char(s.last());
        let all = escaped(s);
        lemma_escaped_is_safe(s.drop_last());
        assert(all == init + last);
        assert forall|i: int| 0 <= i < all.len() && #[trigger] all[i] == '&' implies entity_at(
            all,
            i,
        ) by {
            if i < init.len() {
                assert(init[i] == '&');
                let c = choose|c: char| is_special(c) && #[trigger] occurs_at(init, escape_char(c), i);
                assert(all.subrange(i, i + escape_char(c).len()) =~= init.subrange(
                    i,
                    i + escape_char(c).len(),
                ));
                assert(occurs_at(all, escape_char(c), i));
            } else {
                assert(last[i - init.len()] == '&');
                assert(i == init.len());
                assert(is_special(s.last()));
                assert(all.subrange(i, i + last.len()) =~= last);
                assert(occurs_at(all, escape_char(s.last()), i));
            }
        }
    }
}

/// Escaped text holds no tag: no pattern that has a `<` in it stands in it.
pub proof fn lemma_escaped_has_no_tag(s: Seq<char>, pat: Seq<char>)
    requires
        pat.contains('<'),
    ensures
        !contains_sub(escaped(s), pat),
{
    lemma_escaped_is_safe(s);
    let t = escaped(s);
    assert forall|i: int| !occurs_at(t, pat, i) by {
        if occurs_at(t, pat, i) {
            let k = choose|k: int| 0 <= k < pat.len() && pat[k] == '<';
            assert(t.subrange(i, i + pat.len())[k] == t[i + k]);
            assert(is_special(t[i + k]));
        }
    }
}

} // verus!
