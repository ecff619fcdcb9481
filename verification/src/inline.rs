//! Highlighting with inline styles: each styled region of a line becomes a
//! span that carries its colours, and the declaration of the theme's own
//! foreground, which the enclosing element already makes, is taken out.

use vstd::prelude::*;
use vstd::string::StringExecFns;
use syntect::easy::HighlightLines;
use syntect::highlighting::{Style, Theme};
use syntect::parsing::{SyntaxReference, SyntaxSet};
use crate::color::{css_color, hex_digits, hex_pair, write_css_color, Color};
use crate::classed::ends_with_newline;
use crate::engine::{
    highlight, lines_in_set, new_lines, read_theme_colors, set_parses, some_background_differs,
    start_lines, style_background, styled, styled_html, styled_markup, syntax_in_set,
    theme_colors,
};
use crate::markup::{
    background_attribute, background_open, background_style, bare_span_at, declares_background,
    plain_span_at, quotes_fence_attributes, region_is_spanned, span_balance, span_close,
    span_open, span_style_open, style_attribute_open, styles_sit_in_spans,
};
use crate::text::{
    always_followed_by, contains_sub, lemma_remove_all_adds_nothing, lemma_remove_all_clean,
    lemma_remove_all_joins, lemma_remove_all_keeps, lemma_remove_all_keeps_count, never_behind,
    occurs_at, remove_all, untouched, without,
};

verus! {

/// The colours that a theme names for the whole view.
#[derive(Clone, Copy, Debug, PartialEq, Eq, Structural)]
pub struct ThemeColors {
    pub foreground: Option<Color>,
    pub background: Option<Color>,
    pub line_highlight: Option<Color>,
}

/// The foreground of a theme, black where it names none.
pub open spec fn default_foreground(colors: ThemeColors) -> Color {
    match colors.foreground {
        Some(c) => c,
        None => Color::black(),
    }
}

/// The background of a theme, white where it names none.
pub open spec fn default_background(colors: ThemeColors) -> Color {
    match colors.background {
        Some(c) => c,
        None => Color::white(),
    }
}

/// The colour of a highlighted line, yellow with an alpha of zero where the
/// theme names none.
pub open spec fn default_line_highlight(colors: ThemeColors) -> Color {
    match colors.line_highlight {
        Some(c) => c,
        None => Color { r: 255, g: 255, b: 0, a: 0 },
    }
}

/// The attribute of a span that declares nothing but this foreground:
/// ` style="color:#rrggbb;"`, with the space in front.
pub open spec fn style_fragment(fg: Color) -> Seq<char> {
    " style=\"color:"@ + css_color(fg) + ";\""@
}

/// The style of the element around a block: its background, then its
/// foreground.
pub open spec fn container_style(bg: Color, fg: Color) -> Seq<char> {
    "background-color:"@ + css_color(bg) + ";color:"@ + css_color(fg) + ";"@
}

/// The style that marks a highlighted line: its background.
pub open spec fn line_style(highlight: Color) -> Seq<char> {
    "background-color:"@ + css_color(highlight) + ";"@
}

/// The notation of a colour is a `#` and hexadecimal digits.
proof fn lemma_css_color_chars(c: Color)
    ensures
        7 <= css_color(c).len() <= 9,
        forall|i: int|
            0 <= i < css_color(c).len() ==> #[trigger] css_color(c)[i] == '#' || hex_digits().contains(
                css_color(c)[i],
            ),
{
    assert forall|b: u8, k: int| 0 <= k < 2 implies hex_digits().contains(
        #[trigger] hex_pair(b)[k],
    ) by {
        let n = if k == 0 {
            b as int / 16
        } else {
            b as int % 16
        };
        assert(hex_pair(b)[k] == hex_digits()[n]);
    }
    let s = css_color(c);
    assert forall|i: int| 0 <= i < s.len() implies #[trigger] s[i] == '#' || hex_digits().contains(
        s[i],
    ) by {
        if i == 0 {
        } else if i < 3 {
            assert(s[i] == hex_pair(c.r)[i - 1]);
        } else if i < 5 {
            assert(s[i] == hex_pair(c.g)[i - 3]);
        } else if i < 7 {
            assert(s[i] == hex_pair(c.b)[i - 5]);
        } else {
            assert(s[i] == hex_pair(c.a)[i - 7]);
        }
    }
}

/// The foreground attribute starts with a space, has its two quotes at
/// index 7, before the `c` of `color`, and at its end, behind a `;`, and
/// holds neither `<` nor `>`.
proof fn lemma_fragment_chars(fg: Color)
    ensures
        style_fragment(fg).len() >= 23,
        style_fragment(fg)[0] == ' ',
        style_fragment(fg)[8] == 'c',
        style_fragment(fg)[style_fragment(fg).len() - 1] == '"',
        style_fragment(fg)[style_fragment(fg).len() - 2] == ';',
        !style_fragment(fg).contains('>'),
        !style_fragment(fg).contains('<'),
        forall|i: int|
            0 <= i < style_fragment(fg).len() && #[trigger] style_fragment(fg)[i] == '"' ==> i == 7
                || i == style_fragment(fg).len() - 1,
{
    reveal_strlit(" style=\"color:");
    reveal_strlit(";\"");
    lemma_css_color_chars(fg);
    let head = " style=\"color:"@;
    let mid = css_color(fg);
    let f = style_fragment(fg);
    assert(f.len() == head.len() + mid.len() + 2);
    assert(f[0] == head[0]);
    assert(f[8] == head[8]);
    assert forall|i: int| 0 <= i < f.len() implies f[i] != '>' && f[i] != '<' && (#[trigger] f[i]
        == '"' ==> i == 7 || i == f.len() - 1) by {
        if i < head.len() {
            assert(f[i] == head[i]);
        } else if i < head.len() + mid.len() {
            assert(f[i] == mid[i - head.len()]);
            if hex_digits().contains(mid[i - head.len()]) {
                let k = choose|k: int| 0 <= k < 16 && hex_digits()[k] == mid[i - head.len()];
                assert(hex_digits()[k] != '>' && hex_digits()[k] != '"' && hex_digits()[k] != '<');
            }
        } else {
            assert(f[i] == ";\""@[i - head.len() - mid.len()]);
        }
    }
}

/// In markup whose quotes fence attributes, every foreground attribute is
/// directly followed by `>`.
proof fn lemma_fragment_followed(markup: Seq<char>, fg: Color)
    requires
        quotes_fence_attributes(markup),
    ensures
        always_followed_by(markup, style_fragment(fg), '>'),
{
    lemma_fragment_chars(fg);
    let f = style_fragment(fg);
    assert forall|i: int| #[trigger] occurs_at(markup, f, i) implies i + f.len() < markup.len()
        && markup[i + f.len()] == '>' by {
        let piece = markup.subrange(i, i + f.len());
        let j = i + f.len() - 1;
        assert(piece[f.len() - 1] == markup[j]);
        assert(piece[f.len() - 2] == markup[j - 1]);
        assert(markup[j] == '"');
    }
}

/// In markup whose quotes fence attributes, no foreground attribute reaches
/// into the opening of a background declaration.
proof fn lemma_background_untouched(markup: Seq<char>, fg: Color, at: int)
    requires
        quotes_fence_attributes(markup),
        occurs_at(markup, background_attribute(), at),
    ensures
        untouched(markup, style_fragment(fg), at, background_attribute().len() as int),
{
    lemma_fragment_chars(fg);
    lemma_fragment_followed(markup, fg);
    let f = style_fragment(fg);
    let q = background_attribute();
    assert(markup.subrange(at, at + q.len())[0] == q[0]);
    assert(markup.subrange(at, at + q.len())[1] == q[1]);
    assert forall|j: int| #[trigger] occurs_at(markup, f, j) implies j + f.len() <= at || at
        + q.len() <= j by {
        let piece = markup.subrange(j, j + f.len());
        if at <= j < at + q.len() {
            assert(piece[0] == markup[j]);
            assert(markup.subrange(at, at + q.len())[j - at] == q[j - at]);
        } else if j < at < j + f.len() {
            assert(piece[at - j] == markup[at]);
            if at - j == 7 {
                assert(piece[8] == markup[j + 8]);
            }
        }
    }
}

/// Taking the foreground attribute out of markup whose quotes fence
/// attributes neither removes a background declaration nor makes one.
proof fn lemma_background_survives(markup: Seq<char>, fg: Color)
    requires
        quotes_fence_attributes(markup),
    ensures
        declares_background(remove_all(markup, style_fragment(fg))) == declares_background(markup),
{
    lemma_fragment_chars(fg);
    lemma_fragment_followed(markup, fg);
    let f = style_fragment(fg);
    let q = background_attribute();
    if q.contains('>') {
        let k = choose|k: int| 0 <= k < q.len() && q[k] == '>';
        assert(q[k] != '>');
    }
    if declares_background(remove_all(markup, f)) {
        lemma_remove_all_adds_nothing(markup, f, '>', q);
    }
    if declares_background(markup) {
        let at = choose|at: int| occurs_at(markup, q, at);
        lemma_background_untouched(markup, fg, at);
        lemma_remove_all_keeps(markup, f, q, at);
    }
}

/// No foreground attribute reaches into a stretch of markup that starts
/// with `<`, is too short for a space or has its one space at index 5, and
/// goes on behind ` style="` with another character than `c`.
proof fn lemma_tag_untouched(markup: Seq<char>, fg: Color, x: Seq<char>, at: int)
    requires
        occurs_at(markup, x, at),
        x.len() > 0,
        x[0] == '<',
        forall|k: int| 0 <= k < x.len() && x[k] == ' ' ==> k == 5,
        x.len() <= 5 || (x.len() > 13 && x[13] != 'c'),
    ensures
        untouched(markup, style_fragment(fg), at, x.len() as int),
{
    lemma_fragment_chars(fg);
    let f = style_fragment(fg);
    let stretch = markup.subrange(at, at + x.len());
    assert(stretch[0] == markup[at]);
    assert forall|j: int| #[trigger] occurs_at(markup, f, j) implies j + f.len() <= at || at
        + x.len() <= j by {
        let piece = markup.subrange(j, j + f.len());
        if at <= j < at + x.len() {
            assert(piece[0] == markup[j]);
            assert(stretch[j - at] == markup[j]);
            assert(j - at == 5);
            assert(piece[8] == markup[j + 8]);
            assert(stretch[13] == markup[at + 13]);
        } else if j < at < j + f.len() {
            assert(piece[at - j] == markup[at]);
            assert(f.contains(f[at - j]));
        }
    }
}

/// The opening of a span with a background has its one space at index 5
/// and a `b` at index 13.
proof fn lemma_background_open_chars(bg: Color)
    ensures
        background_open(bg).len() > 13,
        background_open(bg)[0] == '<',
        background_open(bg)[13] == 'b',
        forall|k: int| 0 <= k < background_open(bg).len() && background_open(bg)[k] == ' ' ==> k == 5,
{
    lemma_css_color_chars(bg);
    let head = span_open() + background_style();
    let mid = css_color(bg);
    let x = background_open(bg);
    assert(head.len() == 30);
    assert(x[0] == head[0]);
    assert(x[13] == head[13]);
    assert forall|k: int| 0 <= k < x.len() && x[k] == ' ' implies k == 5 by {
        if k < 30 {
            assert(x[k] == head[k]);
        } else if k < 30 + mid.len() {
            assert(x[k] == mid[k - 30]);
            if hex_digits().contains(mid[k - 30]) {
                let d = choose|d: int| 0 <= d < 16 && hex_digits()[d] == mid[k - 30];
                assert(hex_digits()[d] != ' ');
            }
        }
    }
}

/// Taking the foreground attribute out of markup leaves each span that
/// opens with the declaration of a background as it is.
proof fn lemma_background_open_survives(markup: Seq<char>, fg: Color, bg: Color)
    requires
        contains_sub(markup, background_open(bg)),
    ensures
        contains_sub(remove_all(markup, style_fragment(fg)), background_open(bg)),
{
    lemma_fragment_chars(fg);
    lemma_background_open_chars(bg);
    let x = background_open(bg);
    let at = choose|at: int| occurs_at(markup, x, at);
    lemma_tag_untouched(markup, fg, x, at);
    lemma_remove_all_keeps(markup, style_fragment(fg), x, at);
}

/// Taking the foreground attribute out of markup whose quotes fence
/// attributes leaves a span without a background without one.
proof fn lemma_plain_span_survives(markup: Seq<char>, fg: Color, p: int)
    requires
        quotes_fence_attributes(markup),
        plain_span_at(markup, p),
    ensures
        exists|q: int| bare_span_at(remove_all(markup, style_fragment(fg)), q),
{
    lemma_fragment_chars(fg);
    lemma_fragment_followed(markup, fg);
    let f = style_fragment(fg);
    let left = remove_all(markup, f);
    let whole = markup.subrange(p, p + 13);
    assert(whole == span_style_open());
    if occurs_at(markup, f, p + 5) {
        let x = span_open();
        assert(markup.subrange(p, p + 5) =~= whole.subrange(0, 5));
        assert(whole.subrange(0, 5) =~= x);
        lemma_tag_untouched(markup, fg, x, p);
        lemma_remove_all_joins(markup, f, '>', x, p);
        let q = choose|q: int| occurs_at(left, x.push('>'), q);
        assert(left.subrange(q, q + 5) =~= left.subrange(q, q + 6).subrange(0, 5));
        assert(x.push('>').subrange(0, 5) =~= x);
        assert(left.subrange(q, q + 6)[5] == '>');
        if occurs_at(left, background_style(), q + 5) {
            assert(left.subrange(q + 5, q + 5 + 25)[0] == background_style()[0]);
        }
        assert(bare_span_at(left, q));
    } else {
        let z = markup.subrange(p, p + 14);
        assert forall|k: int| 0 <= k < 14 && z[k] == ' ' implies k == 5 by {
            if k < 13 {
                assert(z[k] == whole[k]);
            }
        }
        assert(z[0] == whole[0]);
        assert(z[13] == markup[p + 13]);
        lemma_plain_untouched(markup, fg, p);
        lemma_remove_all_keeps(markup, f, z, p);
        let q = choose|q: int| occurs_at(left, z, q);
        assert(left.subrange(q, q + 5) =~= left.subrange(q, q + 14).subrange(0, 5));
        assert(z.subrange(0, 5) =~= span_open());
        if occurs_at(left, background_style(), q + 5) {
            assert(left.subrange(q + 5, q + 5 + 25)[8] == background_style()[8]);
            assert(left.subrange(q, q + 14)[13] == left[q + 13]);
        }
        assert(bare_span_at(left, q));
    }
}

/// Where no foreground attribute stands behind the `<span` of a span
/// without a background, none reaches into its first fourteen characters.
proof fn lemma_plain_untouched(markup: Seq<char>, fg: Color, p: int)
    requires
        plain_span_at(markup, p),
        !occurs_at(markup, style_fragment(fg), p + 5),
    ensures
        untouched(markup, style_fragment(fg), p, 14),
{
    lemma_fragment_chars(fg);
    let f = style_fragment(fg);
    let whole = markup.subrange(p, p + 13);
    assert(whole == span_style_open());
    assert(whole[0] == markup[p]);
    assert forall|j: int| #[trigger] occurs_at(markup, f, j) implies j + f.len() <= p || p + 14
        <= j by {
        let piece = markup.subrange(j, j + f.len());
        if p <= j < p + 14 {
            assert(piece[0] == markup[j]);
            if j < p + 13 {
                assert(whole[j - p] == markup[j]);
            }
        } else if j < p < j + f.len() {
            assert(piece[p - j] == markup[p]);
            assert(f.contains(f[p - j]));
        }
    }
}

/// Taking the foreground attribute out of markup whose style attributes
/// sit in spans neither opens a span nor closes one.
proof fn lemma_balance_survives(markup: Seq<char>, fg: Color)
    requires
        quotes_fence_attributes(markup),
        styles_sit_in_spans(markup),
    ensures
        span_balance(remove_all(markup, style_fragment(fg))) == span_balance(markup),
{
    reveal_strlit(" style=\"color:");
    lemma_fragment_chars(fg);
    lemma_fragment_followed(markup, fg);
    let f = style_fragment(fg);
    let close = span_close();
    let y = close.drop_last();
    assert(f.subrange(0, 8) =~= style_attribute_open());
    assert forall|j: int| #[trigger] occurs_at(markup, f, j) implies !occurs_at(
        markup,
        y,
        j - y.len(),
    ) by {
        assert(markup.subrange(j, j + 8) =~= markup.subrange(j, j + f.len()).subrange(0, 8));
        assert(occurs_at(markup, style_attribute_open(), j));
        assert(markup.subrange(j - 5, j)[0] == span_open()[0]);
        if occurs_at(markup, y, j - 6) {
            assert(markup.subrange(j - 6, j)[1] == y[1]);
        }
    }
    assert forall|k: int| 0 <= k < 5 implies span_open()[k] != ' ' && span_open()[k] != '>' by {}
    assert forall|k: int| 0 <= k < 7 implies close[k] != ' ' by {}
    assert forall|k: int| 0 <= k < 6 implies y[k] != '>' by {}
    lemma_remove_all_keeps_count(markup, f, '>', span_open());
    lemma_remove_all_keeps_count(markup, f, '>', close);
}

/// Renders the lines of one block as spans with inline styles.
pub struct InlineHighlighter<'config> {
    /// The foreground attribute that is taken out of every line.
    fg_color: String,
    foreground: Color,
    bg_color: Color,
    line_highlight: Color,
    syntax_set: &'config SyntaxSet,
    h: HighlightLines<'config>,
}

impl<'config> InlineHighlighter<'config> {
    /// The set of syntaxes that lines are parsed with.
    pub closed spec fn syntax_set(&self) -> SyntaxSet {
        *self.syntax_set
    }

    /// The line highlighter of the engine, after the lines so far.
    pub closed spec fn lines(&self) -> HighlightLines<'config> {
        self.h
    }

    /// The default foreground of the block.
    pub closed spec fn foreground(&self) -> Color {
        self.foreground
    }

    /// The default background of the block.
    pub closed spec fn background(&self) -> Color {
        self.bg_color
    }

    /// The background of a highlighted line.
    pub closed spec fn line_highlight(&self) -> Color {
        self.line_highlight
    }

    /// The foreground attribute is that of the default foreground, lines
    /// can be parsed with the set of syntaxes, and the line highlighter
    /// belongs to it.
    pub closed spec fn wf(&self) -> bool {
        &&& self.fg_color@ == style_fragment(self.foreground)
        &&& set_parses(*self.syntax_set)
        &&& lines_in_set(self.h, *self.syntax_set)
    }

    /// The markup of the styled regions of a line: a background is declared
    /// only where it differs from the default, and the attribute of the
    /// default foreground is cut out.
    pub open spec fn renders(&self, regions: Seq<(Style, &str)>, html: Seq<char>) -> bool {
        html == remove_all(
            styled_markup(regions, self.background()),
            style_fragment(self.foreground()),
        )
    }

    /// For each region the markup holds the span that its background asks
    /// for: one that opens with the declaration of that background where it
    /// differs from the default, one without a background where it does
    /// not.
    pub open spec fn spans_regions(&self, regions: Seq<(Style, &str)>, html: Seq<char>) -> bool {
        forall|k: int|
            0 <= k < regions.len() ==> region_is_spanned(
                html,
                style_background((#[trigger] regions[k]).0),
                self.background(),
            )
    }

    /// What highlighting a line does: the line highlighter moves past the
    /// line, and the regions that it found are rendered.
    pub open spec fn highlights(&self, line: Seq<char>, after: &Self, html: Seq<char>) -> bool {
        let (lines, regions) = styled(self.lines(), line, self.syntax_set());
        &&& after.wf()
        &&& after.lines() == lines
        &&& after.syntax_set() == self.syntax_set()
        &&& after.foreground() == self.foreground()
        &&& after.background() == self.background()
        &&& after.line_highlight() == self.line_highlight()
        &&& self.renders(regions, html)
        &&& !contains_sub(html, style_fragment(self.foreground()))
        &&& span_balance(html) == 0
        &&& declares_background(html) == some_background_differs(regions, self.background())
        &&& self.spans_regions(regions, html)
    }

    /// The highlighter stands at the start of a block of this syntax, with
    /// the colours of this theme.
    pub open spec fn starts(&self, syntax: SyntaxReference, syntax_set: SyntaxSet, theme: Theme) -> bool {
        &&& self.wf()
        &&& self.syntax_set() == syntax_set
        &&& self.lines() == start_lines(syntax, theme)
        &&& self.foreground() == default_foreground(theme_colors(theme))
        &&& self.background() == default_background(theme_colors(theme))
        &&& self.line_highlight() == default_line_highlight(theme_colors(theme))
    }

    /// A highlighter at the start of a block, with the colours of the theme.
    pub fn new(
        syntax: &'config SyntaxReference,
        syntax_set: &'config SyntaxSet,
        theme: &'config Theme,
    ) -> (h: Self)
        requires
            set_parses(*syntax_set),
            syntax_in_set(*syntax, *syntax_set),
        ensures
            h.starts(*syntax, *syntax_set, *theme),
    {
        let h = new_lines(syntax, theme);
        let colors = read_theme_colors(theme);
        let foreground = match colors.foreground {
            Some(c) => c,
            None => Color { r: 0, g: 0, b: 0, a: 0xFF },
        };
        let bg_color = match colors.background {
            Some(c) => c,
            None => Color { r: 0xFF, g: 0xFF, b: 0xFF, a: 0xFF },
        };
        let line_highlight = match colors.line_highlight {
            Some(c) => c,
            None => Color { r: 255, g: 255, b: 0, a: 0 },
        };
        let mut fg_color = String::from_str(" style=\"color:");
        write_css_color(&mut fg_color, foreground);
        fg_color.append(";\"");
        Self { fg_color, foreground, bg_color, line_highlight, syntax_set, h }
    }

    /// Renders the styled regions that the engine found in a line.
    pub fn render_regions(&self, regions: &Vec<(Style, &str)>) -> (html: String)
        requires
            self.wf(),
        ensures
            self.renders(regions@, html@),
            !contains_sub(html@, style_fragment(self.foreground())),
            span_balance(html@) == 0,
            declares_background(html@) == some_background_differs(regions@, self.background()),
            self.spans_regions(regions@, html@),
    {
        let highlighted = styled_html(regions, self.bg_color);
        proof {
            lemma_fragment_chars(self.foreground);
            lemma_fragment_followed(highlighted@, self.foreground);
            lemma_remove_all_clean(highlighted@, style_fragment(self.foreground), '>');
            lemma_background_survives(highlighted@, self.foreground);
            lemma_balance_survives(highlighted@, self.foreground);
            assert forall|k: int| 0 <= k < regions@.len() implies region_is_spanned(
                remove_all(highlighted@, style_fragment(self.foreground)),
                style_background((#[trigger] regions@[k]).0),
                self.bg_color,
            ) by {
                let region_bg = style_background(regions@[k].0);
                if region_bg != self.bg_color {
                    lemma_background_open_survives(highlighted@, self.foreground, region_bg);
                } else {
                    let p = choose|p: int| plain_span_at(highlighted@, p);
                    lemma_plain_span_survives(highlighted@, self.foreground, p);
                }
            }
        }
        without(highlighted.as_str(), self.fg_color.as_str())
    }

    /// Highlights the line and renders the regions as spans. The line has
    /// to end with a newline.
    pub fn highlight_line(&mut self, line: &str) -> (html: String)
        requires
            old(self).wf(),
            ends_with_newline(line@),
        ensures
            old(self).highlights(line@, final(self), html@),
    {
        let regions = highlight(&mut self.h, line, self.syntax_set);
        self.render_regions(&regions)
    }

    /// The style of the element around the block.
    pub fn pre_style(&self) -> (style: String)
        ensures
            style@ == container_style(self.background(), self.foreground()),
    {
        let mut styles = String::from_str("background-color:");
        write_css_color(&mut styles, self.bg_color);
        styles.append(";color:");
        write_css_color(&mut styles, self.foreground);
        styles.append(";");
        styles
    }

    /// The style that marks a highlighted line.
    pub fn mark_style(&self) -> (style: String)
        ensures
            style@ == line_style(self.line_highlight()),
    {
        let mut styles = String::from_str("background-color:");
        write_css_color(&mut styles, self.line_highlight);
        styles.append(";");
        styles
    }
}

} // verus!
