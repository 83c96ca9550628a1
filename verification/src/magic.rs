//! Magic shell-level commands handled by the terminal itself.
//!
//! When a line typed at a shell prompt matches a magic command, the terminal
//! swallows it: the text is never handed to the shell, and the action runs
//! inside the terminal instead. Magic lines are recognized when enter is
//! pressed from whatever was actually typed.
use vstd::prelude::*;
use vstd::string::*;

use crate::text::{
    ascii_lower, ascii_lower_text, is_white, is_word, lemma_trimmed_words, lemma_word_alone,
    lemma_words_split, owned, same, same_ascii, same_ignoring_case, texts, trimmed, words, words_of,
};

verus! {

/// A recognized magic command.
#[derive(Debug, Clone, PartialEq, Eq)]
pub enum Magic {
    /// `theme` with no arguments: list the available themes.
    ThemeList,
    /// `theme <name>`: switch to that theme.
    ThemeSet(String),
}

/// A magic command with the text of its argument.
pub enum MagicView {
    ThemeList,
    ThemeSet(Seq<char>),
}

impl View for Magic {
    type V = MagicView;

    open spec fn view(&self) -> MagicView {
        match self {
            Magic::ThemeList => MagicView::ThemeList,
            Magic::ThemeSet(name) => MagicView::ThemeSet(name@),
        }
    }
}

/// Names of the magic commands.
pub const NAMES: [&'static str; 1] = ["theme"];

/// Whether an argument asks for help.
pub open spec fn asks_help(arg: Seq<char>) -> bool {
    same_ascii(arg, "help"@) || arg == "-h"@ || arg == "--help"@
}

/// The magic command that a line is: the word `theme`, in any case, with at most
/// one argument. A line with more than one is never one, so that no other shell
/// line can be swallowed by mistake.
pub open spec fn magic_of(line: Seq<char>) -> Option<MagicView> {
    let parts = words(line);
    if parts.len() == 0 || parts.len() > 2 || !same_ascii(parts[0], "theme"@) {
        None
    } else if parts.len() == 1 || asks_help(parts[1]) {
        Some(MagicView::ThemeList)
    } else {
        Some(MagicView::ThemeSet(parts[1]))
    }
}

/// Whether an argument asks for help.
pub(crate) fn is_help(arg: &str) -> (r: bool)
    ensures
        r == asks_help(arg@),
{
    same_ignoring_case(arg, "help") || same(arg, "-h") || same(arg, "--help")
}

/// Parse the text typed since the last enter as a magic command.
///
/// Returns `None` when the line is not a magic command and should be passed
/// through to the shell untouched. White space around and between the words
/// does not matter.
pub fn parse(line: &str) -> (r: Option<Magic>)
    ensures
        match r {
            Some(magic) => magic_of(line@) == Some(magic@),
            None => magic_of(line@) is None,
        },
{
    let parts = words_of(line);
    let ghost all = texts(parts@);
    assert(all == words(line@));
    if parts.len() == 0 || parts.len() > 2 {
        return None;
    }
    assert(all[0] == parts@[0]@);
    if !same_ignoring_case(parts[0].as_str(), "theme") {
        return None;
    }
    if parts.len() == 1 {
        return Some(Magic::ThemeList);
    }
    assert(all[1] == parts@[1]@);
    if is_help(parts[1].as_str()) {
        Some(Magic::ThemeList)
    } else {
        Some(Magic::ThemeSet(owned(parts[1].as_str())))
    }
}

// ---------------------------------------------------------------------------
// Laws
// ---------------------------------------------------------------------------

/// The word `theme` alone, in any case, lists the themes. With one word behind
/// it, it lists them too where that word asks for help, and switches to the theme
/// of that name otherwise. With two or more it is no magic line.
pub proof fn law_theme_lines(word: Seq<char>, name: Seq<char>, more: Seq<char>, gap: char)
    requires
        ascii_lower_text(word) == seq!['t', 'h', 'e', 'm', 'e'],
        is_word(name),
        is_word(more),
        is_white(gap),
    ensures
        magic_of(word) == Some(MagicView::ThemeList),
        ({
            let help = ascii_lower_text(name) == seq!['h', 'e', 'l', 'p'] || name == seq!['-', 'h']
                || name == seq!['-', '-', 'h', 'e', 'l', 'p'];
            magic_of(word + seq![gap] + name) == Some(
                if help {
                    MagicView::ThemeList
                } else {
                    MagicView::ThemeSet(name)
                },
            )
        }),
        magic_of(word + seq![gap] + name + seq![gap] + more) is None,
{
    reveal_strlit("theme");
    reveal_strlit("help");
    reveal_strlit("-h");
    reveal_strlit("--help");
    assert(ascii_lower_text("theme"@) =~= seq!['t', 'h', 'e', 'm', 'e']);
    assert(ascii_lower_text("help"@) =~= seq!['h', 'e', 'l', 'p']);
    assert("-h"@ =~= seq!['-', 'h']);
    assert("--help"@ =~= seq!['-', '-', 'h', 'e', 'l', 'p']);
    assert(word.len() == 5);
    assert forall|i: int| 0 <= i < word.len() implies !is_white(#[trigger] word[i]) by {
        assert(ascii_lower_text(word)[i] == ascii_lower(word[i]));
        assert(ascii_lower_text(word)[i] == seq!['t', 'h', 'e', 'm', 'e'][i]);
    }
    lemma_word_alone(word);
    lemma_word_alone(name);
    lemma_word_alone(more);
    lemma_words_split(word, gap, name);
    lemma_words_split(word + seq![gap] + name, gap, more);
    assert(words(word + seq![gap] + name) =~= seq![word, name]);
    assert(words(word + seq![gap] + name + seq![gap] + more) =~= seq![word, name, more]);
}

/// A line whose first word is another one is no magic line, nor is a line
/// without words.
pub proof fn law_other_lines_are_no_magic(line: Seq<char>)
    requires
        words(line).len() == 0 || ascii_lower_text(words(line)[0]) != seq![
            't',
            'h',
            'e',
            'm',
            'e',
        ],
    ensures
        magic_of(line) is None,
{
    reveal_strlit("theme");
    assert(ascii_lower_text("theme"@) =~= seq!['t', 'h', 'e', 'm', 'e']);
}

/// White space around a line does not matter.
pub proof fn law_surrounding_space_does_not_matter(line: Seq<char>)
    ensures
        magic_of(trimmed(line)) == magic_of(line),
{
    lemma_trimmed_words(line);
}

/// A magic command is seen as the one that it is.
pub proof fn law_magic_seen_as_it_is(magic: Magic)
    ensures
        magic is ThemeList <==> magic@ is ThemeList,
        magic matches Magic::ThemeSet(name) ==> magic@ == MagicView::ThemeSet(name@),
{
}

} // verus!
