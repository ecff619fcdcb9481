//! The grammar engine: syntect's types, what its calls are taken to return,
//! and the plain values that stand for what the library reads of them.
//!
//! Nothing in this module is proved. Each contract states what syntect's
//! source shows of the function that the body calls.

use vstd::prelude::*;
use vstd::utf8::{encode_utf8, is_char_boundary};
use syntect::easy::HighlightLines;
use syntect::highlighting::{Style, Theme};
use syntect::parsing::{ClearAmount, ParseState, ScopeStack, ScopeStackOp, SyntaxReference, SyntaxSet};
use crate::color::Color;
use crate::inline::ThemeColors;
use crate::scopes::{walk, OpShape, StackShape};
use crate::markup::{
    background_open, declares_background, plain_span_at, quotes_fence_attributes, span_balance,
    styles_sit_in_spans,
};
use crate::text::contains_sub;

verus! {

/// syntect's set of syntaxes, linked with one another.
#[verifier::external_type_specification]
#[verifier::external_body]
pub struct ExSyntaxSet(SyntaxSet);

/// One syntax of a set.
#[verifier::external_type_specification]
#[verifier::external_body]
pub struct ExSyntaxReference(SyntaxReference);

/// A colour theme.
#[verifier::external_type_specification]
#[verifier::external_body]
pub struct ExTheme(Theme);

/// The state of the parser between two lines.
#[verifier::external_type_specification]
#[verifier::external_body]
pub struct ExParseState(ParseState);

/// The scopes that are open at a point of the text, with the groups of
/// scopes that were set aside.
#[verifier::external_type_specification]
#[verifier::external_body]
pub struct ExScopeStack(ScopeStack);

/// One change to a scope stack.
#[verifier::external_type_specification]
#[verifier::external_body]
pub struct ExScopeStackOp(ScopeStackOp);

/// The foreground, background and font style of a piece of text.
#[verifier::external_type_specification]
#[verifier::external_body]
pub struct ExStyle(Style);

/// A parser and a theme together, which turn lines into styled regions.
#[verifier::external_type_specification]
#[verifier::external_body]
pub struct ExHighlightLines<'a>(HighlightLines<'a>);

/// The tokens of one line: byte offsets into the line, each with the change
/// to the scope stack that happens there.
pub type Tokens = Vec<(usize, ScopeStackOp)>;

/// The syntaxes that a set holds and has linked.
pub uninterp spec fn set_syntaxes(set: SyntaxSet) -> Seq<SyntaxReference>;

/// Lines can be parsed with the set: every syntax of it has its start
/// context, every pattern of it compiles, and no context of it pops the
/// last level of the parser.
pub uninterp spec fn set_parses(set: SyntaxSet) -> bool;

/// The syntax that `SyntaxSet::find_syntax_by_token` finds for a token.
pub uninterp spec fn syntax_for_token(set: SyntaxSet, token: Seq<char>) -> Option<SyntaxReference>;

/// The parse state that `ParseState::new` makes for a syntax.
pub uninterp spec fn start_state(syntax: SyntaxReference) -> ParseState;

/// The contexts that a parse state refers to are contexts of the set: the
/// state was made for a syntax of the set and moved on with the set.
pub uninterp spec fn state_in_set(state: ParseState, set: SyntaxSet) -> bool;

/// The parse state after `ParseState::parse_line`, and the tokens it returns.
pub uninterp spec fn parsed(state: ParseState, line: Seq<char>, set: SyntaxSet) -> (
    ParseState,
    Seq<(usize, ScopeStackOp)>,
);

/// The number of scopes on a scope stack.
pub uninterp spec fn stack_depth(stack: ScopeStack) -> usize;

/// The sizes of the groups of scopes that a scope stack has set aside,
/// oldest first.
pub uninterp spec fn stack_cleared(stack: ScopeStack) -> Seq<usize>;

/// Which of the six changes a `ScopeStackOp` is, with its count.
pub uninterp spec fn op_shape(op: ScopeStackOp) -> OpShape;

/// The markup that `line_tokens_to_classed_spans` writes, and the scope
/// stack that it leaves. The class names in the markup are the names of the
/// scopes: a scope stands for its name, which syntect keeps for as long as
/// the process runs.
pub uninterp spec fn classed(
    line: Seq<char>,
    ops: Seq<(usize, ScopeStackOp)>,
    prefix: Seq<char>,
    stack: ScopeStack,
) -> (Seq<char>, ScopeStack);

/// The line highlighter that `HighlightLines::new` makes for a syntax and a
/// theme.
pub uninterp spec fn start_lines(syntax: SyntaxReference, theme: Theme) -> HighlightLines<'static>;

/// The parse state of a line highlighter refers to contexts of the set.
pub uninterp spec fn lines_in_set(lines: HighlightLines<'_>, set: SyntaxSet) -> bool;

/// The line highlighter after `HighlightLines::highlight`, and the styled
/// regions it returns.
pub uninterp spec fn styled(lines: HighlightLines<'_>, line: Seq<char>, set: SyntaxSet) -> (
    HighlightLines<'_>,
    Seq<(Style, &str)>,
);

/// The background colour of a style.
pub uninterp spec fn style_background(style: Style) -> Color;

/// The markup that `styled_line_to_highlighted_html` writes when it is to
/// declare a background only where it differs from `bg`.
pub uninterp spec fn styled_markup(regions: Seq<(Style, &str)>, bg: Color) -> Seq<char>;

/// The foreground, background and line-highlight settings of a theme.
pub uninterp spec fn theme_colors(theme: Theme) -> ThemeColors;

/// The syntax is one of those that the set holds.
pub open spec fn syntax_in_set(syntax: SyntaxReference, set: SyntaxSet) -> bool {
    set_syntaxes(set).contains(syntax)
}

/// The syntax is one of a set that lines can be parsed with.
pub open spec fn syntax_parses(syntax: SyntaxReference) -> bool {
    exists|set: SyntaxSet| set_parses(set) && #[trigger] set_syntaxes(set).contains(syntax)
}

/// The size of a scope stack, from the two things named of it.
pub open spec fn stack_shape(stack: ScopeStack) -> StackShape {
    StackShape { depth: stack_depth(stack), cleared: stack_cleared(stack) }
}

/// Some region has a background other than `bg`.
pub open spec fn some_background_differs(regions: Seq<(Style, &str)>, bg: Color) -> bool {
    exists|k: int| 0 <= k < regions.len() && style_background((#[trigger] regions[k]).0) != bg
}

/// The changes that a line's tokens make, without their offsets.
pub open spec fn token_shapes(ops: Seq<(usize, ScopeStackOp)>) -> Seq<OpShape> {
    Seq::new(ops.len(), |k: int| op_shape(ops[k].1))
}

/// Every offset of the tokens lies on a character boundary of the line, and
/// the line with eight bytes for each token is no more than a string holds.
pub open spec fn offsets_fit(line: Seq<char>, ops: Seq<(usize, ScopeStackOp)>) -> bool {
    &&& encode_utf8(line).len() + 8 * ops.len() <= isize::MAX
    &&& forall|k: int|
        0 <= k < ops.len() ==> is_char_boundary(encode_utf8(line), (#[trigger] ops[k]).0 as int)
}

/// The tokens can be turned into markup for this line on a stack of this
/// size: their offsets fit the line and no change asks for scopes that are
/// not there.
pub open spec fn tokens_fit(line: Seq<char>, ops: Seq<(usize, ScopeStackOp)>, start: StackShape) -> bool {
    offsets_fit(line, ops) && walk(token_shapes(ops), start) is Some
}

/// `SyntaxSet::find_syntax_by_token` searches the set's own syntaxes, by
/// file extension and then by name, and returns a reference to the one it
/// finds.
#[verifier::external_body]
pub(crate) fn find_syntax<'a>(set: &'a SyntaxSet, token: &str) -> (found: Option<
    &'a SyntaxReference,
>)
    ensures
        match found {
            Some(syntax) => syntax_for_token(*set, token@) == Some(*syntax) && set_syntaxes(
                *set,
            ).contains(*syntax),
            None => syntax_for_token(*set, token@) is None,
        },
{
    set.find_syntax_by_token(token)
}

/// `SyntaxSet::load_defaults_newlines` loads the set of syntaxes that
/// syntect ships, made for lines that end with a newline. They were built
/// from definition files, which gives each syntax its start context and
/// keeps its main context on the parser's stack, and their patterns
/// compile.
#[verifier::external_body]
pub(crate) fn load_default_syntaxes() -> (set: SyntaxSet)
    ensures
        set_parses(set),
{
    SyntaxSet::load_defaults_newlines()
}

/// `ParseState::new` makes the state that stands at the start context of
/// the syntax, which it looks up by name and has to find. The state refers
/// to contexts by their index in the set that holds the syntax.
#[verifier::external_body]
pub(crate) fn new_parse_state(syntax: &SyntaxReference) -> (state: ParseState)
    requires
        syntax_parses(*syntax),
    ensures
        state == start_state(*syntax),
        forall|set: SyntaxSet|
            set_syntaxes(set).contains(*syntax) ==> #[trigger] state_in_set(state, set),
{
    ParseState::new(syntax)
}

/// `ParseState::parse_line` tokenizes one line and moves the state on. Its
/// documentation asks for the set that holds the syntax that the state was
/// made for, since the state refers to the contexts of the set by index. It
/// compiles the patterns it meets and asserts that a level of the parser is
/// left, so lines have to be parsable with the set.
#[verifier::external_body]
pub(crate) fn parse_line(state: &mut ParseState, line: &str, set: &SyntaxSet) -> (ops: Tokens)
    requires
        set_parses(*set),
        state_in_set(*old(state), *set),
    ensures
        (*final(state), ops@) == parsed(*old(state), line@, *set),
        state_in_set(*final(state), *set),
{
    state.parse_line(line, set)
}

/// `ScopeStack::new` makes a stack with no scope on it and none set aside.
#[verifier::external_body]
pub(crate) fn new_scope_stack() -> (stack: ScopeStack)
    ensures
        stack_depth(stack) == 0,
        stack_cleared(stack).len() == 0,
{
    ScopeStack::new()
}

/// Tells the variants of `ScopeStackOp` apart and hands out the count that
/// a pop or a clear carries.
#[verifier::external_body]
pub(crate) fn shape_of(op: &ScopeStackOp) -> (shape: OpShape)
    ensures
        shape == op_shape(*op),
{
    match *op {
        ScopeStackOp::Push(_) => OpShape::Push,
        ScopeStackOp::Pop(n) => OpShape::Pop(n),
        ScopeStackOp::Clear(ClearAmount::TopN(n)) => OpShape::ClearTop(n),
        ScopeStackOp::Clear(ClearAmount::All) => OpShape::ClearAll,
        ScopeStackOp::Restore => OpShape::Restore,
        ScopeStackOp::Noop => OpShape::Noop,
    }
}

/// `Clone::clone` of a `ScopeStack`, which syntect derives: a stack with the
/// same scopes on it and the same groups set aside.
#[verifier::external_body]
pub(crate) fn copy_stack(stack: &ScopeStack) -> (copy: ScopeStack)
    ensures
        copy == *stack,
{
    stack.clone()
}

/// `line_tokens_to_classed_spans` applies the tokens to the stack in order
/// and writes a `<span class="..">` for each scope that comes onto the stack
/// and a `</span>` for each that leaves, with the escaped text of the line
/// between them; the classes are the atoms of the scope, unescaped, each
/// behind the prefix. It slices the line at the offsets and panics on a
/// restore when nothing was set aside, so the tokens have to fit. The number
/// it returns goes up by one for each scope pushed and down by one for each
/// popped, which with tokens that fit is the change in the number of scopes
/// on the stack. Nothing is said here of how that number relates to the
/// tags in the markup: an atom may hold any text.
#[verifier::external_body]
pub(crate) fn classed_spans(line: &str, ops: &Tokens, prefix: &'static str, stack: &mut ScopeStack) -> (out: (
    String,
    isize,
))
    requires
        tokens_fit(line@, ops@, stack_shape(*old(stack))),
    ensures
        (out.0@, *final(stack)) == classed(line@, ops@, prefix@, *old(stack)),
        Some(stack_shape(*final(stack))) == walk(token_shapes(ops@), stack_shape(*old(stack))),
        out.1 == stack_depth(*final(stack)) - stack_depth(*old(stack)),
{
    let style = syntect::html::ClassStyle::SpacedPrefixed { prefix };
    syntect::html::line_tokens_to_classed_spans(line, ops.as_slice(), style, stack)
}

/// `HighlightLines::new` makes a line highlighter bound to the theme, with a
/// parse state from `ParseState::new`, which has to find the start context
/// of the syntax.
#[verifier::external_body]
pub(crate) fn new_lines<'a>(syntax: &SyntaxReference, theme: &'a Theme) -> (lines: HighlightLines<
    'a,
>)
    requires
        syntax_parses(*syntax),
    ensures
        lines == start_lines(*syntax, *theme),
        forall|set: SyntaxSet|
            set_syntaxes(set).contains(*syntax) ==> #[trigger] lines_in_set(lines, set),
{
    HighlightLines::new(syntax, theme)
}

/// `HighlightLines::highlight` tokenizes one line with `parse_line`, which
/// asks for the set that holds the syntax and for lines to be parsable with
/// it, and gives each piece of the line the style that the theme has for its
/// scopes. It applies the tokens to a scope stack of its own, in step with
/// its parser.
#[verifier::external_body]
pub(crate) fn highlight<'a, 'b>(lines: &mut HighlightLines<'a>, line: &'b str, set: &SyntaxSet) -> (regions: Vec<
    (Style, &'b str),
>)
    requires
        set_parses(*set),
        lines_in_set(*old(lines), *set),
    ensures
        (*final(lines), regions@) == styled(*old(lines), line@, *set),
        lines_in_set(*final(lines), *set),
{
    lines.highlight(line, set)
}

/// `styled_line_to_highlighted_html` with `IncludeBackground::IfDifferent`.
/// It writes `<span style="` .. `;">`, the escaped text and `</span>` for
/// the first region and for each later one that does not share the span
/// before it, which it does only with the same background; each span is
/// closed before the next opens, and the last at the end. The text has `<`
/// and its quotes escaped and the declarations hold neither, so the markup
/// closes as many spans as it opens, a quote in it either opens an
/// attribute, behind `=`, or closes one, before `>`, and ` style="` stands
/// only behind `<span`. A span
/// declares its background where it differs from `bg`, and then as the first
/// declaration of its attribute; the declarations that may follow are
/// `text-decoration`, `font-weight`, `font-style` and, always, `color`. So
/// the span that holds a region opens with the declaration of the region's
/// background where that differs from `bg`, and with another declaration
/// where it does not.
#[verifier::external_body]
pub(crate) fn styled_html(regions: &Vec<(Style, &str)>, bg: Color) -> (out: String)
    ensures
        out@ == styled_markup(regions@, bg),
        span_balance(out@) == 0,
        quotes_fence_attributes(out@),
        styles_sit_in_spans(out@),
        declares_background(out@) == (exists|k: int|
            0 <= k < regions@.len() && style_background((#[trigger] regions@[k]).0) != bg),
        forall|k: int|
            0 <= k < regions@.len() ==> if style_background((#[trigger] regions@[k]).0) != bg {
                contains_sub(out@, background_open(style_background(regions@[k].0)))
            } else {
                exists|p: int| plain_span_at(out@, p)
            },
{
    let color = syntect::highlighting::Color { r: bg.r, g: bg.g, b: bg.b, a: bg.a };
    let mode = syntect::html::IncludeBackground::IfDifferent(color);
    syntect::html::styled_line_to_highlighted_html(regions.as_slice(), mode)
}

/// Reads the foreground, background and line-highlight colours out of the
/// settings of a theme.
#[verifier::external_body]
pub(crate) fn read_theme_colors(theme: &Theme) -> (colors: ThemeColors)
    ensures
        colors == theme_colors(*theme),
{
    let color = |c: syntect::highlighting::Color| Color { r: c.r, g: c.g, b: c.b, a: c.a };
    ThemeColors {
        foreground: theme.settings.foreground.map(color),
        background: theme.settings.background.map(color),
        line_highlight: theme.settings.line_highlight.map(color),
    }
}

} // verus!
