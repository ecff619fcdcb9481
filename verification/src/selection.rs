//! What is chosen for one block of code: its syntax, the set that the
//! syntax belongs to, and the theme, if colours are to be written inline.

use vstd::prelude::*;
use syntect::highlighting::Theme;
use syntect::parsing::{SyntaxReference, SyntaxSet};
use crate::engine::{
    find_syntax, load_default_syntaxes, set_parses, syntax_for_token, syntax_in_set,
};

verus! {

/// The syntaxes that come with the engine, for lines that end with a
/// newline. Lines can be parsed with them.
pub fn default_syntaxes() -> (set: SyntaxSet)
    ensures
        set_parses(set),
{
    load_default_syntaxes()
}

/// The syntax and the theme to highlight one block with.
#[derive(Clone, Copy)]
pub struct SyntaxAndTheme<'config> {
    pub syntax: &'config SyntaxReference,
    pub syntax_set: &'config SyntaxSet,
    pub theme: Option<&'config Theme>,
}

impl<'config> SyntaxAndTheme<'config> {
    /// Lines can be parsed with the set, and the syntax is one of it.
    pub open spec fn wf(&self) -> bool {
        set_parses(*self.syntax_set) && syntax_in_set(*self.syntax, *self.syntax_set)
    }

    /// The syntax that the set has for a language token, found by file
    /// extension and then by name, together with the theme; `None` where
    /// the set has no syntax for the token.
    pub fn for_token(
        syntax_set: &'config SyntaxSet,
        token: &str,
        theme: Option<&'config Theme>,
    ) -> (found: Option<Self>)
        ensures
            match found {
                Some(s) => {
                    &&& syntax_in_set(*s.syntax, *syntax_set)
                    &&& set_parses(*syntax_set) ==> s.wf()
                    &&& syntax_for_token(*syntax_set, token@) == Some(*s.syntax)
                    &&& *s.syntax_set == *syntax_set
                    &&& s.theme == theme
                },
                None => syntax_for_token(*syntax_set, token@) is None,
            },
    {
        match find_syntax(syntax_set, token) {
            Some(syntax) => Some(SyntaxAndTheme { syntax, syntax_set, theme }),
            None => None,
        }
    }
}

} // verus!
