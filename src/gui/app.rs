use vstd::prelude::*;

use crate::gui::tree::MorseTree;
use crate::symbols::MorseSymbol;
use crate::translations::TranslationLeaf;

verus! {

/// `c` with an ASCII lowercase letter made uppercase.
pub open spec fn ascii_upper(c: char) -> char {
    if 97 <= (c as u32) && (c as u32) <= 122 {
        ((c as u32) - 32) as u32 as char
    } else {
        c
    }
}

/// Relies on char::to_ascii_uppercase: the letters `a` to `z` become `A` to
/// `Z`, and every other character stays as it is.
#[verifier::external_body]
fn to_ascii_upper(c: char) -> (r: char)
    ensures
        r == ascii_upper(c),
{
    c.to_ascii_uppercase()
}

/// How a symbol is written in dotted text.
pub open spec fn symbol_text(s: MorseSymbol) -> Seq<char> {
    match s {
        MorseSymbol::WordBoundary => seq![' ', ' '],
        MorseSymbol::CharacterBoundary => seq![' '],
        MorseSymbol::Dit => seq!['.'],
        MorseSymbol::Dah => seq!['-'],
    }
}

/// A code written in dotted text.
pub open spec fn code_text(code: Seq<MorseSymbol>) -> Seq<char>
    decreases code.len(),
{
    if code.len() == 0 {
        Seq::empty()
    } else {
        code_text(code.drop_last()) + symbol_text(code.last())
    }
}

/// How one typed character is shown: a space as a word gap, a character of
/// the tree (taken in upper case) as its code and a space, any other as `?`.
pub open spec fn char_text(tree: TranslationLeaf, c: char) -> Seq<char> {
    if c == ' ' {
        seq![' ', ' ']
    } else {
        match tree.path_to(ascii_upper(c)) {
            Some(code) => code_text(code) + seq![' '],
            None => seq!['?'],
        }
    }
}

/// Typed text shown in dotted Morse.
pub open spec fn morse_text(tree: TranslationLeaf, text: Seq<char>) -> Seq<char>
    decreases text.len(),
{
    if text.len() == 0 {
        Seq::empty()
    } else {
        morse_text(tree, text.drop_last()) + char_text(tree, text.last())
    }
}

/// The state of the interactive view: the typed text and the tree highlight.
pub struct App {
    pub tree: MorseTree,
    pub search_str: String,
}

impl Default for App {
    fn default() -> (r: Self)
        ensures
            r.tree.current_sequence@ == Seq::<MorseSymbol>::empty(),
            r.search_str@ == Seq::<char>::empty(),
    {
        App { tree: MorseTree::default(), search_str: String::new() }
    }
}

/// Writes `code` in dotted text at the end of `out`.
fn push_code(out: &mut String, code: &Vec<MorseSymbol>)
    ensures
        final(out)@ == old(out)@ + code_text(code@),
{
    let mut j: usize = 0;
    let ghost start = out@;
    assert(code@.take(0) =~= Seq::<MorseSymbol>::empty());
    while j < code.len()
        invariant
            j <= code@.len(),
            out@ == start + code_text(code@.take(j as int)),
        decreases code@.len() - j,
    {
        proof {
            reveal_strlit("  ");
            reveal_strlit(" ");
            reveal_strlit(".");
            reveal_strlit("-");
            assert(code@.take(j + 1).drop_last() =~= code@.take(j as int));
        }
        match code[j] {
            MorseSymbol::WordBoundary => out.append("  "),
            MorseSymbol::CharacterBoundary => out.append(" "),
            MorseSymbol::Dit => out.append("."),
            MorseSymbol::Dah => out.append("-"),
        }
        assert(out@ =~= start + code_text(code@.take(j + 1)));
        j = j + 1;
    }
    assert(code@.take(code@.len() as int) =~= code@);
}

impl App {
    /// Renders the typed text in dotted Morse, and points the tree highlight
    /// at the code of the last typed character where the tree holds it.
    pub fn refresh(&mut self, tree: &TranslationLeaf) -> (r: String)
        ensures
            r@ == morse_text(*tree, old(self).search_str@),
            final(self).search_str@ == old(self).search_str@,
            final(self).tree.current_sequence@ == (if old(self).search_str@.len() > 0
                && tree.path_to(ascii_upper(old(self).search_str@.last())) is Some {
                tree.path_to(ascii_upper(old(self).search_str@.last()))->0
            } else {
                old(self).tree.current_sequence@
            }),
    {
        let text = self.search_str.as_str();
        let n = text.unicode_len();
        let mut out = String::new();
        let mut i: usize = 0;
        assert(text@.take(0) =~= Seq::<char>::empty());
        while i < n
            invariant
                n == text@.len(),
                i <= n,
                out@ == morse_text(*tree, text@.take(i as int)),
            decreases n - i,
        {
            let c = text.get_char(i);
            proof {
                reveal_strlit("  ");
                reveal_strlit(" ");
                reveal_strlit("?");
                assert(text@.take(i + 1).drop_last() =~= text@.take(i as int));
                assert(text@.take(i + 1).last() == c);
            }
            if c == ' ' {
                out.append("  ");
            } else {
                match tree.translate_into_symbols(to_ascii_upper(c)) {
                    Some(code) => {
                        push_code(&mut out, &code);
                        out.append(" ");
                    },
                    None => out.append("?"),
                }
            }
            assert(out@ =~= morse_text(*tree, text@.take(i + 1)));
            i = i + 1;
        }
        assert(text@.take(n as int) =~= text@);
        if n > 0 {
            let last = text.get_char(n - 1);
            if let Some(code) = tree.translate_into_symbols(to_ascii_upper(last)) {
                self.tree.current_sequence = code;
            }
        }
        out
    }
}

} // verus!
