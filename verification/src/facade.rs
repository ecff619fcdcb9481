//! One highlighter for a block of code, in one of three modes: inline
//! styles, classes, or no highlighting at all.

use vstd::prelude::*;
use crate::classed::{class_prefix, ends_with_newline, ClassHighlighter};
use crate::escape::{escape_html, escaped};
use crate::inline::{container_style, line_style, InlineHighlighter};
use crate::markup::closers;
use crate::selection::SyntaxAndTheme;

verus! {

/// Renders the lines of one block in the mode chosen when it was made.
pub enum SyntaxHighlighter<'config> {
    /// Spans with inline styles, from a theme.
    Inlined(InlineHighlighter<'config>),
    /// Spans with classes, to be coloured by a stylesheet.
    Classed(ClassHighlighter<'config>),
    /// Escaped text and nothing more.
    NoHighlight,
}

impl<'config> SyntaxHighlighter<'config> {
    /// The highlighter inside, if there is one, is in order.
    pub open spec fn wf(&self) -> bool {
        match self {
            SyntaxHighlighter::Inlined(h) => h.wf(),
            SyntaxHighlighter::Classed(h) => h.wf(),
            SyntaxHighlighter::NoHighlight => true,
        }
    }

    /// Chooses the mode. Without highlighting the block is only escaped,
    /// whether there is a theme or not; with highlighting a theme gives
    /// inline styles, and no theme gives classes.
    pub fn new(highlight_code: bool, s: SyntaxAndTheme<'config>) -> (h: Self)
        requires
            s.wf(),
        ensures
            h.wf(),
            match h {
                SyntaxHighlighter::Inlined(inner) => highlight_code && s.theme is Some
                    && inner.starts(*s.syntax, *s.syntax_set, *s.theme->Some_0),
                SyntaxHighlighter::Classed(inner) => highlight_code && s.theme is None
                    && inner.starts(*s.syntax, *s.syntax_set),
                SyntaxHighlighter::NoHighlight => !highlight_code,
            },
    {
        if highlight_code {
            if let Some(theme) = s.theme {
                SyntaxHighlighter::Inlined(InlineHighlighter::new(s.syntax, s.syntax_set, theme))
            } else {
                SyntaxHighlighter::Classed(ClassHighlighter::new(s.syntax, s.syntax_set))
            }
        } else {
            SyntaxHighlighter::NoHighlight
        }
    }

    /// Renders one line in the mode of the highlighter. Where the block is
    /// highlighted, the line has to end with a newline.
    pub fn highlight_line(&mut self, line: &str) -> (html: String)
        requires
            old(self).wf(),
            !(*old(self) is NoHighlight) ==> ends_with_newline(line@),
        ensures
            match *old(self) {
                SyntaxHighlighter::Inlined(before) => *final(self) matches SyntaxHighlighter::Inlined(
                    after,
                ) && before.highlights(line@, &after, html@),
                SyntaxHighlighter::Classed(before) => *final(self) matches SyntaxHighlighter::Classed(
                    after,
                ) && before.highlights(line@, &after, html@),
                SyntaxHighlighter::NoHighlight => *final(self) is NoHighlight && html@ == escaped(
                    line@,
                ),
            },
    {
        match self {
            SyntaxHighlighter::Inlined(h) => h.highlight_line(line),
            SyntaxHighlighter::Classed(h) => h.highlight_line(line),
            SyntaxHighlighter::NoHighlight => escape_html(line),
        }
    }

    /// Closes the block: with classes, the tags that close the open spans;
    /// in the other modes there is nothing to close.
    pub fn finalize(&mut self) -> (closing: Option<String>)
        requires
            *old(self) matches SyntaxHighlighter::Classed(h) ==> h.open_spans() >= 0,
        ensures
            match *old(self) {
                SyntaxHighlighter::Classed(before) => {
                    &&& closing matches Some(html) && html@ == closers(before.open_spans() as nat)
                    &&& *final(self) matches SyntaxHighlighter::Classed(after)
                        && after.open_spans() == 0 && after.syntax_set() == before.syntax_set()
                        && after.parse_state() == before.parse_state() && after.scope_stack()
                        == before.scope_stack()
                },
                _ => closing is None && *final(self) == *old(self),
            },
    {
        match self {
            SyntaxHighlighter::Inlined(_) | SyntaxHighlighter::NoHighlight => None,
            SyntaxHighlighter::Classed(h) => Some(h.finalize()),
        }
    }

    /// The style of the element around the block, which inline styles need
    /// for the background and the foreground of the whole block.
    pub fn pre_style(&self) -> (style: Option<String>)
        ensures
            match *self {
                SyntaxHighlighter::Inlined(h) => style matches Some(text) && text@
                    == container_style(h.background(), h.foreground()),
                _ => style is None,
            },
    {
        match self {
            SyntaxHighlighter::Classed(_) | SyntaxHighlighter::NoHighlight => None,
            SyntaxHighlighter::Inlined(h) => Some(h.pre_style()),
        }
    }

    /// The class of the element around the block, which classes need.
    pub fn pre_class(&self) -> (class: Option<String>)
        ensures
            match *self {
                SyntaxHighlighter::Classed(_) => class matches Some(text) && text@
                    == class_prefix() + "code"@,
                _ => class is None,
            },
    {
        match self {
            SyntaxHighlighter::Classed(h) => Some(h.pre_class()),
            SyntaxHighlighter::Inlined(_) | SyntaxHighlighter::NoHighlight => None,
        }
    }

    /// The style that marks a highlighted line, which inline styles need.
    pub fn mark_style(&self) -> (style: Option<String>)
        ensures
            match *self {
                SyntaxHighlighter::Inlined(h) => style matches Some(text) && text@ == line_style(
                    h.line_highlight(),
                ),
                _ => style is None,
            },
    {
        match self {
            SyntaxHighlighter::Classed(_) | SyntaxHighlighter::NoHighlight => None,
            SyntaxHighlighter::Inlined(h) => Some(h.mark_style()),
        }
    }
}

} // verus!
