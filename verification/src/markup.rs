//! The tags and attributes of the markup that highlighting writes.

use vstd::prelude::*;
use crate::color::{css_color, Color};
use crate::escape::{escaped, is_special, lemma_escaped_is_safe};
use crate::text::{
    contains_sub, count_of, count_sub, lemma_count_skips_mismatch, lemma_count_zero, occurs_at,
};

verus! {

/// The characters that open a span tag: `<span`.
pub open spec fn span_open() -> Seq<char> {
    seq!['<', 's', 'p', 'a', 'n']
}

/// The tag that closes a span: `</span>`.
pub open spec fn span_close() -> Seq<char> {
    seq!['<', '/', 's', 'p', 'a', 'n', '>']
}

/// The number of span tags that a piece of markup opens.
pub open spec fn spans_opened(html: Seq<char>) -> nat {
    count_sub(html, span_open())
}

/// The number of span tags that a piece of markup closes.
pub open spec fn spans_closed(html: Seq<char>) -> nat {
    count_sub(html, span_close())
}

/// The spans that a piece of markup opens less those that it closes.
pub open spec fn span_balance(html: Seq<char>) -> int {
    spans_opened(html) - spans_closed(html)
}

/// Whether a piece of markup opens this many spans more than it closes.
pub fn has_span_balance(html: &str, balance: isize) -> (has: bool)
    ensures
        has == (span_balance(html@) == balance),
{
    proof {
        reveal_strlit("<span");
        reveal_strlit("</span>");
        assert("<span"@ =~= span_open());
        assert("</span>"@ =~= span_close());
    }
    let opened = count_of(html, "<span");
    let closed = count_of(html, "</span>");
    opened as i128 - closed as i128 == balance as i128
}

/// The spans that a run of fragments opens.
pub open spec fn total_opened(fragments: Seq<Seq<char>>) -> nat
    decreases fragments.len(),
{
    if fragments.len() == 0 {
        0
    } else {
        total_opened(fragments.drop_last()) + spans_opened(fragments.last())
    }
}

/// The spans that a run of fragments closes.
pub open spec fn total_closed(fragments: Seq<Seq<char>>) -> nat
    decreases fragments.len(),
{
    if fragments.len() == 0 {
        0
    } else {
        total_closed(fragments.drop_last()) + spans_closed(fragments.last())
    }
}

/// Every double quote in the markup stands directly behind a `=` or
/// directly before a `>`: it opens or closes the value of an attribute.
pub open spec fn quotes_fence_attributes(html: Seq<char>) -> bool {
    forall|i: int|
        0 <= i < html.len() && #[trigger] html[i] == '"' ==> (i > 0 && html[i - 1] == '=') || (i
            + 1 < html.len() && html[i + 1] == '>')
}

/// How a style attribute opens that declares a background: a double quote
/// and `background-color:`.
pub open spec fn background_attribute() -> Seq<char> {
    seq!['"', 'b', 'a', 'c', 'k', 'g', 'r', 'o', 'u', 'n', 'd', '-', 'c', 'o', 'l', 'o', 'r', ':']
}

/// How a style attribute opens: ` style="`, with the space in front.
pub open spec fn style_attribute_open() -> Seq<char> {
    seq![' ', 's', 't', 'y', 'l', 'e', '=', '"']
}

/// Every style attribute of the markup stands directly behind `<span`.
pub open spec fn styles_sit_in_spans(html: Seq<char>) -> bool {
    forall|p: int| #[trigger]
        occurs_at(html, style_attribute_open(), p) ==> occurs_at(html, span_open(), p - 5)
}

/// How a span with a style attribute opens: `<span style="`.
pub open spec fn span_style_open() -> Seq<char> {
    seq!['<', 's', 'p', 'a', 'n', ' ', 's', 't', 'y', 'l', 'e', '=', '"']
}

/// How the style attribute of a span opens that declares a background:
/// ` style="background-color:`.
pub open spec fn background_style() -> Seq<char> {
    seq![' ', 's', 't', 'y', 'l', 'e', '='] + background_attribute()
}

/// How a span opens that declares this background:
/// `<span style="background-color:#rrggbb;`.
pub open spec fn background_open(bg: Color) -> Seq<char> {
    span_open() + background_style() + css_color(bg) + seq![';']
}

/// A span opens at index `p` whose style starts with another declaration
/// than that of a background: with `text-decoration`, `font-weight`,
/// `font-style` or `color`.
pub open spec fn plain_span_at(html: Seq<char>, p: int) -> bool {
    &&& occurs_at(html, span_style_open(), p)
    &&& p + 13 < html.len()
    &&& (html[p + 13] == 't' || html[p + 13] == 'f' || html[p + 13] == 'c')
}

/// A span opens at index `p` and declares no background.
pub open spec fn bare_span_at(html: Seq<char>, p: int) -> bool {
    occurs_at(html, span_open(), p) && !occurs_at(html, background_style(), p + 5)
}

/// The markup holds the span that a region with this background asks for:
/// one that opens with the declaration of that very background where it
/// differs from the default, and one that declares no background where it
/// does not.
pub open spec fn region_is_spanned(html: Seq<char>, region_bg: Color, default_bg: Color) -> bool {
    if region_bg != default_bg {
        contains_sub(html, background_open(region_bg))
    } else {
        exists|p: int| bare_span_at(html, p)
    }
}

/// Some span of the markup declares a background.
pub open spec fn declares_background(html: Seq<char>) -> bool {
    contains_sub(html, background_attribute())
}

/// `n` closing span tags in a row.
pub open spec fn closers(n: nat) -> Seq<char>
    decreases n,
{
    if n == 0 {
        Seq::empty()
    } else {
        span_close() + closers((n - 1) as nat)
    }
}

/// One more closing tag at the end makes the next run of closing tags.
pub proof fn lemma_closers_grow(n: nat)
    ensures
        closers(n) + span_close() == closers(n + 1),
    decreases n,
{
    if n == 0 {
        assert(closers(1) == span_close() + closers(0));
        assert(closers(0) + span_close() =~= span_close() + closers(0));
    } else {
        lemma_closers_grow((n - 1) as nat);
        assert(closers(n) + span_close() =~= span_close() + (closers((n - 1) as nat)
            + span_close()));
    }
}

/// A run of `n` closing tags closes `n` spans and opens none.
pub proof fn lemma_closers_count(n: nat)
    ensures
        spans_closed(closers(n)) == n,
        spans_opened(closers(n)) == 0,
    decreases n,
{
    if n > 0 {
        let rest = closers((n - 1) as nat);
        let all = closers(n);
        lemma_closers_count((n - 1) as nat);
        assert(all == span_close() + rest);
        assert(all.subrange(0, 7) =~= span_close());
        assert(occurs_at(all, span_close(), 0));
        if occurs_at(all, span_open(), 0) {
            assert(all.subrange(0, 5)[1] == span_open()[1]);
        }
        let tail = all.skip(1);
        assert forall|j: int| 0 <= j < 6 implies tail[j] != '<' by {
            assert(tail[j] == span_close()[j + 1]);
        }
        lemma_count_skips_mismatch(tail, span_close(), 6);
        lemma_count_skips_mismatch(tail, span_open(), 6);
        assert(tail.skip(6) =~= rest);
    }
}

/// Escaped text opens no span and closes none.
pub proof fn lemma_plain_balance(text: Seq<char>)
    ensures
        spans_opened(escaped(text)) == 0,
        spans_closed(escaped(text)) == 0,
        span_balance(escaped(text)) == 0,
{
    lemma_escaped_is_safe(text);
    let t = escaped(text);
    if t.contains('<') {
        let i = choose|i: int| 0 <= i < t.len() && t[i] == '<';
        assert(t[i] == '&' || !is_special(t[i]));
    }
    lemma_count_zero(t, span_open());
    lemma_count_zero(t, span_close());
}

} // verus!
