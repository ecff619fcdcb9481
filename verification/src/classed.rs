//! Highlighting with CSS classes: each scope of the grammar becomes a span
//! with a class, and the spans that a line leaves open are counted so that
//! the block can be closed at its end.

use vstd::prelude::*;
use vstd::string::{StrSliceExecFns, StringExecFns};
use syntect::parsing::{ParseState, ScopeStack, ScopeStackOp, SyntaxReference, SyntaxSet};
use crate::engine::{
    classed, classed_spans, copy_stack, new_parse_state, new_scope_stack, parse_line, parsed,
    set_parses, shape_of, stack_cleared, stack_depth, stack_shape, start_state, state_in_set,
    syntax_in_set, token_shapes, tokens_fit, Tokens,
};
use crate::escape::{escape_html, escaped};
use crate::markup::{
    closers, has_span_balance, lemma_closers_count, lemma_closers_grow, lemma_plain_balance,
    span_balance, span_close, spans_closed, spans_opened, total_closed, total_opened,
};
use crate::scopes::{lemma_walk_stays_none, step, walk, OpShape, StackShape};

verus! {

/// The prefix of every class name that the markup uses: `z-`.
pub open spec fn class_prefix() -> Seq<char> {
    seq!['z', '-']
}

/// The prefix of every class name that the markup uses.
fn class_prefix_str() -> (prefix: &'static str)
    ensures
        prefix@ == class_prefix(),
{
    let prefix = "z-";
    proof {
        reveal_strlit("z-");
        assert(prefix@ =~= class_prefix());
    }
    prefix
}

/// The line ends with a newline character.
pub open spec fn ends_with_newline(line: Seq<char>) -> bool {
    line.len() > 0 && line.last() == '\n'
}

/// Whether the line ends with a newline character.
pub fn is_terminated(line: &str) -> (terminated: bool)
    ensures
        terminated == ends_with_newline(line@),
{
    let n = line.unicode_len();
    n > 0 && line.get_char(n - 1) == '\n'
}

/// Renders the lines of one block as spans with classes.
pub struct ClassHighlighter<'config> {
    syntax_set: &'config SyntaxSet,
    open_spans: isize,
    parse_state: ParseState,
    scope_stack: ScopeStack,
    /// The sizes of the groups of scopes that the stack has set aside.
    cleared: Vec<usize>,
}

impl<'config> ClassHighlighter<'config> {
    /// The set of syntaxes that lines are parsed with.
    pub closed spec fn syntax_set(&self) -> SyntaxSet {
        *self.syntax_set
    }

    /// The spans opened so far less the spans closed.
    pub closed spec fn open_spans(&self) -> int {
        self.open_spans as int
    }

    /// The state of the parser after the lines so far.
    pub closed spec fn parse_state(&self) -> ParseState {
        self.parse_state
    }

    /// The scopes that are open after the lines so far.
    pub closed spec fn scope_stack(&self) -> ScopeStack {
        self.scope_stack
    }

    /// The size of the scope stack.
    pub open spec fn shape(&self) -> StackShape {
        stack_shape(self.scope_stack())
    }

    /// Lines can be parsed with the set of syntaxes, the parser belongs to
    /// it, and the count of open spans is the number of scopes on the
    /// stack. This holds from `new` until `finalize`.
    pub closed spec fn wf(&self) -> bool {
        &&& set_parses(*self.syntax_set)
        &&& state_in_set(self.parse_state, *self.syntax_set)
        &&& self.open_spans == stack_depth(self.scope_stack)
        &&& self.cleared@ == stack_cleared(self.scope_stack)
    }

    /// While the count follows the scope stack it is not negative.
    pub proof fn lemma_wf_count(&self)
        requires
            self.wf(),
        ensures
            self.open_spans() == self.shape().depth,
            self.open_spans() >= 0,
    {
    }

    /// The tokens can be rendered as spans: they fit the line and the scope
    /// stack, and the markup that the engine writes for them opens and
    /// closes as many spans as scopes come onto the stack and leave it. The
    /// engine writes the names of scopes into the markup as they are, so a
    /// name that itself holds a tag upsets that.
    pub open spec fn renderable(&self, line: Seq<char>, ops: Seq<(usize, ScopeStackOp)>) -> bool {
        let (html, stack) = classed(line, ops, class_prefix(), self.scope_stack());
        &&& tokens_fit(line, ops, self.shape())
        &&& span_balance(html) == stack_depth(stack) - stack_depth(self.scope_stack())
    }

    /// What rendering the tokens of a line does: they become spans, and the
    /// count of open spans moves by the spans that the markup opens less
    /// those it closes.
    pub open spec fn renders(
        &self,
        line: Seq<char>,
        ops: Seq<(usize, ScopeStackOp)>,
        after: &Self,
        html: Seq<char>,
    ) -> bool {
        &&& (html, after.scope_stack()) == classed(line, ops, class_prefix(), self.scope_stack())
        &&& after.open_spans() - self.open_spans() == span_balance(html)
    }

    /// What highlighting a line does: the parser moves past the line, and
    /// the tokens that it found are rendered. Should the tokens not be
    /// renderable, the scopes and the count stay as they are and the markup
    /// is the escaped line.
    pub open spec fn highlights(&self, line: Seq<char>, after: &Self, html: Seq<char>) -> bool {
        let (state, ops) = parsed(self.parse_state(), line, self.syntax_set());
        &&& after.wf()
        &&& after.open_spans() >= 0
        &&& after.syntax_set() == self.syntax_set()
        &&& after.parse_state() == state
        &&& if self.renderable(line, ops) {
            self.renders(line, ops, after, html)
        } else {
            &&& html == escaped(line)
            &&& after.scope_stack() == self.scope_stack()
            &&& after.open_spans() == self.open_spans()
        }
    }

    /// The highlighter stands at the start of a block of this syntax: the
    /// parser is at its start, no scope is on the stack and no span is open.
    pub open spec fn starts(&self, syntax: SyntaxReference, syntax_set: SyntaxSet) -> bool {
        &&& self.wf()
        &&& self.open_spans() == 0
        &&& self.syntax_set() == syntax_set
        &&& self.parse_state() == start_state(syntax)
        &&& self.shape() == (StackShape { depth: 0, cleared: Seq::empty() })
    }

    /// A highlighter at the start of a block, with no span open.
    pub fn new(syntax: &SyntaxReference, syntax_set: &'config SyntaxSet) -> (h: Self)
        requires
            set_parses(*syntax_set),
            syntax_in_set(*syntax, *syntax_set),
        ensures
            h.starts(*syntax, *syntax_set),
    {
        let parse_state = new_parse_state(syntax);
        let scope_stack = new_scope_stack();
        let h = Self { syntax_set, open_spans: 0, parse_state, scope_stack, cleared: Vec::new() };
        assert(h.cleared@ =~= stack_cleared(h.scope_stack));
        assert(h.shape().cleared =~= Seq::empty());
        h
    }

    /// The class of the element around the block: the prefix and `code`.
    pub fn pre_class(&self) -> (class: String)
        ensures
            class@ == class_prefix() + "code"@,
    {
        let mut class = String::from_str(class_prefix_str());
        class.append("code");
        class
    }

    /// The count of open spans.
    pub fn open_span_count(&self) -> (n: isize)
        ensures
            n == self.open_spans(),
    {
        self.open_spans
    }

    /// Follows the tokens over the size of the scope stack and tells what
    /// size they leave, or `None` where they do not fit.
    fn walk_tokens(&self, line: &str, ops: &Tokens) -> (end: Option<(usize, Vec<usize>)>)
        requires
            self.wf(),
        ensures
            match end {
                Some((depth, cleared)) => {
                    &&& tokens_fit(line@, ops@, self.shape())
                    &&& walk(token_shapes(ops@), self.shape()) == Some(
                        StackShape { depth, cleared: cleared@ },
                    )
                    &&& depth <= isize::MAX
                },
                None => !tokens_fit(line@, ops@, self.shape()),
            },
    {
        let n = ops.len();
        if n > (isize::MAX as usize) / 8 {
            return None;
        }
        if line.as_bytes().len() > (isize::MAX as usize) - 8 * n {
            return None;
        }
        let ghost shapes = token_shapes(ops@);
        let ghost start = self.shape();
        let mut depth: usize = self.open_spans as usize;
        let mut cleared: Vec<usize> = self.cleared.clone();
        assert(cleared@ =~= self.cleared@);
        let mut i: usize = 0;
        assert(shapes.take(0) =~= Seq::empty());
        while i < n
            invariant
                n == ops.len(),
                shapes == token_shapes(ops@),
                start == self.shape(),
                0 <= i <= n,
                depth <= isize::MAX,
                walk(shapes.take(i as int), start) == Some(StackShape { depth, cleared: cleared@ }),
                forall|k: int|
                    0 <= k < i ==> vstd::utf8::is_char_boundary(
                        vstd::utf8::encode_utf8(line@),
                        (#[trigger] ops@[k]).0 as int,
                    ),
            decreases n - i,
        {
            let offset: usize = ops[i].0;
            if !line.is_char_boundary(offset) {
                return None;
            }
            let op = shape_of(&ops[i].1);
            proof {
                assert(shapes.take(i + 1).drop_last() =~= shapes.take(i as int));
                assert(shapes.take(i + 1).last() == op);
                if step(StackShape { depth, cleared: cleared@ }, op) is None {
                    lemma_walk_stays_none(shapes, start, i + 1);
                }
            }
            match op {
                OpShape::Push => {
                    if depth >= isize::MAX as usize {
                        return None;
                    }
                    depth = depth + 1;
                },
                OpShape::Pop(count) => {
                    if count > depth {
                        return None;
                    }
                    depth = depth - count;
                },
                OpShape::ClearTop(count) => {
                    let taken: usize = if count <= depth {
                        count
                    } else {
                        depth
                    };
                    depth = depth - taken;
                    cleared.push(taken);
                },
                OpShape::ClearAll => {
                    cleared.push(depth);
                    depth = 0;
                },
                OpShape::Restore => {
                    if cleared.len() == 0 {
                        return None;
                    }
                    let back: usize = cleared[cleared.len() - 1];
                    if back > (isize::MAX as usize) - depth {
                        return None;
                    }
                    let ghost before = cleared@;
                    cleared.pop();
                    assert(cleared@ =~= before.drop_last());
                    depth = depth + back;
                },
                OpShape::Noop => {},
            }
            i = i + 1;
        }
        assert(shapes.take(n as int) =~= shapes);
        Some((depth, cleared))
    }

    /// Whether the tokens fit the line and the scope stack: whether they
    /// can be rendered as spans.
    pub fn tokens_fit(&self, line: &str, ops: &Tokens) -> (fit: bool)
        requires
            self.wf(),
        ensures
            fit == tokens_fit(line@, ops@, self.shape()),
    {
        self.walk_tokens(line, ops).is_some()
    }

    /// Renders tokens of which it is known what they leave set aside, and
    /// keeps the markup if its tags are as many as the scopes that came and
    /// went. Otherwise the scope stack is put back as it was.
    fn render_walked(&mut self, line: &str, ops: &Tokens, cleared: Vec<usize>) -> (markup: Option<
        String,
    >)
        requires
            old(self).wf(),
            tokens_fit(line@, ops@, old(self).shape()),
            walk(token_shapes(ops@), old(self).shape())->Some_0.cleared == cleared@,
            walk(token_shapes(ops@), old(self).shape())->Some_0.depth <= isize::MAX,
        ensures
            final(self).wf(),
            final(self).open_spans() >= 0,
            final(self).syntax_set() == old(self).syntax_set(),
            final(self).parse_state() == old(self).parse_state(),
            match markup {
                Some(html) => old(self).renderable(line@, ops@) && old(self).renders(
                    line@,
                    ops@,
                    final(self),
                    html@,
                ),
                None => {
                    &&& !old(self).renderable(line@, ops@)
                    &&& final(self).scope_stack() == old(self).scope_stack()
                    &&& final(self).open_spans() == old(self).open_spans()
                },
            },
    {
        let saved = copy_stack(&self.scope_stack);
        let (html, delta) = classed_spans(line, ops, class_prefix_str(), &mut self.scope_stack);
        if has_span_balance(html.as_str(), delta) {
            self.open_spans = self.open_spans + delta;
            self.cleared = cleared;
            Some(html)
        } else {
            self.scope_stack = saved;
            None
        }
    }

    /// Renders the tokens that the parser found in a line, which have to
    /// fit the line and the scope stack. `None`, with nothing changed, where
    /// the markup for them does not open and close its spans as the scopes
    /// come and go.
    pub fn render_tokens(&mut self, line: &str, ops: &Tokens) -> (markup: Option<String>)
        requires
            old(self).wf(),
            tokens_fit(line@, ops@, old(self).shape()),
        ensures
            final(self).wf(),
            final(self).open_spans() >= 0,
            final(self).syntax_set() == old(self).syntax_set(),
            final(self).parse_state() == old(self).parse_state(),
            match markup {
                Some(html) => old(self).renderable(line@, ops@) && old(self).renders(
                    line@,
                    ops@,
                    final(self),
                    html@,
                ),
                None => {
                    &&& !old(self).renderable(line@, ops@)
                    &&& final(self).scope_stack() == old(self).scope_stack()
                    &&& final(self).open_spans() == old(self).open_spans()
                },
            },
    {
        match self.walk_tokens(line, ops) {
            Some((_, cleared)) => self.render_walked(line, ops, cleared),
            None => unreached(),
        }
    }

    /// Parses the line and renders what the parser found. The line has to
    /// end with a newline.
    pub fn highlight_line(&mut self, line: &str) -> (html: String)
        requires
            old(self).wf(),
            ends_with_newline(line@),
        ensures
            old(self).highlights(line@, final(self), html@),
    {
        let ops = parse_line(&mut self.parse_state, line, self.syntax_set);
        let rendered = match self.walk_tokens(line, &ops) {
            Some((_, cleared)) => self.render_walked(line, &ops, cleared),
            None => None,
        };
        match rendered {
            Some(html) => html,
            None => escape_html(line),
        }
    }

    /// Closes every span that is open, and sets the count back to zero.
    pub fn finalize(&mut self) -> (html: String)
        requires
            old(self).open_spans() >= 0,
        ensures
            html@ == closers(old(self).open_spans() as nat),
            final(self).open_spans() == 0,
            final(self).syntax_set() == old(self).syntax_set(),
            final(self).parse_state() == old(self).parse_state(),
            final(self).scope_stack() == old(self).scope_stack(),
    {
        let mut html = String::new();
        let mut i: isize = 0;
        assert(html@ =~= closers(0));
        while i < self.open_spans
            invariant
                0 <= i <= self.open_spans,
                html@ == closers(i as nat),
            decreases self.open_spans - i,
        {
            proof {
                reveal_strlit("</span>");
                assert("</span>"@ =~= span_close());
                lemma_closers_grow(i as nat);
            }
            html.append("</span>");
            i = i + 1;
        }
        self.open_spans = 0;
        html
    }
}

/// After the first `k` lines of a run, the count of open spans is what the
/// fragments so far have opened less what they have closed.
proof fn lemma_count_follows_fragments<'a>(
    states: Seq<ClassHighlighter<'a>>,
    lines: Seq<Seq<char>>,
    fragments: Seq<Seq<char>>,
    k: int,
)
    requires
        states.len() == lines.len() + 1,
        fragments.len() == lines.len(),
        states[0].wf(),
        states[0].open_spans() == 0,
        forall|i: int|
            0 <= i < lines.len() ==> (#[trigger] states[i]).highlights(
                lines[i],
                &states[i + 1],
                fragments[i],
            ),
        0 <= k <= lines.len(),
    ensures
        states[k].wf(),
        states[k].open_spans() == total_opened(fragments.take(k)) - total_closed(fragments.take(k)),
    decreases k,
{
    if k > 0 {
        lemma_count_follows_fragments(states, lines, fragments, k - 1);
        let before = states[k - 1];
        assert(before.highlights(lines[k - 1], &states[k], fragments[k - 1]));
        lemma_plain_balance(lines[k - 1]);
        assert(fragments.take(k).drop_last() =~= fragments.take(k - 1));
        assert(fragments.take(k).last() == fragments[k - 1]);
    } else {
        assert(fragments.take(0).len() == 0);
    }
}

/// Span balance. Over the lines of a block, rendered one after another from
/// a fresh highlighter, and the closing markup that `finalize` then gives,
/// as many spans are opened as are closed.
pub proof fn lemma_spans_balance<'a>(
    states: Seq<ClassHighlighter<'a>>,
    lines: Seq<Seq<char>>,
    fragments: Seq<Seq<char>>,
    closing: Seq<char>,
)
    requires
        states.len() == lines.len() + 1,
        fragments.len() == lines.len(),
        states[0].wf(),
        states[0].open_spans() == 0,
        forall|i: int|
            0 <= i < lines.len() ==> (#[trigger] states[i]).highlights(
                lines[i],
                &states[i + 1],
                fragments[i],
            ),
        closing == closers(states.last().open_spans() as nat),
    ensures
        states.last().open_spans() >= 0,
        total_opened(fragments) + spans_opened(closing) == total_closed(fragments) + spans_closed(
            closing,
        ),
{
    let n = lines.len() as int;
    lemma_count_follows_fragments(states, lines, fragments, n);
    assert(fragments.take(n) =~= fragments);
    states[n].lemma_wf_count();
    lemma_closers_count(states[n].open_spans() as nat);
}

} // verus!
