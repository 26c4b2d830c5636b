//! The questionnaire text format.
//!
//! A document is a run of blank characters followed by questions. A question
//! is a problem line followed by an answer block. An answer block is, tried
//! in this order, two or more indented lines that each start with `+` or `-`
//! (a multiple selection), two or more indented lines of which some may start
//! with `*` (a choice), or one indented line that starts with `>` (free
//! text). The first alternative that matches wins.
//!
//! Positions count characters from the start of the document.

use vstd::prelude::*;
use crate::parse::ParseError;
use crate::types::{AnswersView, QuestionView};

verus! {

/// The three shapes an option line can be read under.
#[derive(Debug, Clone, Copy, PartialEq, Eq, Structural)]
pub enum Shape {
    /// Indent, `+` or `-`, text.
    Multi,
    /// Indent, an optional `*`, text.
    Choice,
    /// Indent, `>`, text.
    Text,
}

/// One option line as read from a document.
pub struct OptionLine {
    /// The line's text, without marker and surrounding blanks.
    pub text: Seq<char>,
    /// Whether the line's marker flags it as correct.
    pub marked: bool,
    /// The position just after the line's newline.
    pub end: int,
}

/// The characters that count as whitespace.
pub open spec fn is_blank(c: char) -> bool {
    c == '\r' || c == '\n' || c == '\t' || c == ' '
}

/// The first position at or after `pos` that holds no blank character.
pub open spec fn skip_blank(s: Seq<char>, pos: int) -> int
    decreases s.len() - pos,
{
    if 0 <= pos < s.len() && is_blank(s[pos]) {
        skip_blank(s, pos + 1)
    } else {
        pos
    }
}

/// The width of the indent at `pos`: 1 for a tab, 4 for four spaces, 0 where
/// there is neither.
pub open spec fn indent_len(s: Seq<char>, pos: int) -> int {
    if 0 <= pos < s.len() && s[pos] == '\t' {
        1
    } else if 0 <= pos && pos + 4 <= s.len() && s[pos] == ' ' && s[pos + 1] == ' ' && s[pos + 2]
        == ' ' && s[pos + 3] == ' ' {
        4
    } else {
        0
    }
}

/// The position of the first newline at or after `pos`, or the end of the
/// document where there is none.
pub open spec fn line_end(s: Seq<char>, pos: int) -> int
    decreases s.len() - pos,
{
    if 0 <= pos < s.len() && s[pos] != '\n' {
        line_end(s, pos + 1)
    } else {
        pos
    }
}

/// Whether a line with at least one character before its newline starts at `pos`.
pub open spec fn has_line(s: Seq<char>, pos: int) -> bool {
    0 <= pos < line_end(s, pos) < s.len()
}

/// `t` without its leading blanks.
pub open spec fn trim_start(t: Seq<char>) -> Seq<char>
    decreases t.len(),
{
    if t.len() > 0 && is_blank(t.first()) {
        trim_start(t.drop_first())
    } else {
        t
    }
}

/// `t` without its trailing blanks.
pub open spec fn trim_end(t: Seq<char>) -> Seq<char>
    decreases t.len(),
{
    if t.len() > 0 && is_blank(t.last()) {
        trim_end(t.drop_last())
    } else {
        t
    }
}

/// `t` without its surrounding blanks.
pub open spec fn trim(t: Seq<char>) -> Seq<char> {
    trim_end(trim_start(t))
}

/// The marker that a line of the given shape shows at `pos`: its width and
/// the flag it stands for, or `None` where the shape's marker is missing.
pub open spec fn marker(s: Seq<char>, pos: int, shape: Shape) -> Option<(int, bool)> {
    let here = 0 <= pos < s.len();
    match shape {
        Shape::Multi => if here && s[pos] == '+' {
            Some((1, true))
        } else if here && s[pos] == '-' {
            Some((1, false))
        } else {
            None
        },
        Shape::Choice => if here && s[pos] == '*' {
            Some((1, true))
        } else {
            Some((0, false))
        },
        Shape::Text => if here && s[pos] == '>' {
            Some((1, true))
        } else {
            None
        },
    }
}

/// The option line of the given shape that starts at `pos`, if there is one:
/// an indent, the shape's marker, then at least one character and a newline.
pub open spec fn option_line(s: Seq<char>, pos: int, shape: Shape) -> Option<OptionLine> {
    let indent = indent_len(s, pos);
    match marker(s, pos + indent, shape) {
        Some((width, flag)) => {
            let from = pos + indent + width;
            if indent > 0 && has_line(s, from) {
                Some(
                    OptionLine {
                        text: trim(s.subrange(from, line_end(s, from))),
                        marked: flag,
                        end: line_end(s, from) + 1,
                    },
                )
            } else {
                None
            }
        },
        None => None,
    }
}

/// The longest run of option lines of the given shape that starts at `pos`.
pub open spec fn block(s: Seq<char>, pos: int, shape: Shape) -> Seq<OptionLine>
    decreases s.len() - pos,
{
    match option_line(s, pos, shape) {
        Some(line) => {
            proof {
                lemma_option_line_advances(s, pos, shape);
            }
            seq![line] + block(s, line.end, shape)
        },
        None => Seq::empty(),
    }
}

/// The position just after the run of option lines that starts at `pos`.
pub open spec fn block_end(s: Seq<char>, pos: int, shape: Shape) -> int {
    let lines = block(s, pos, shape);
    if lines.len() == 0 {
        pos
    } else {
        lines.last().end
    }
}

/// The texts and flags of a run of option lines.
pub open spec fn flagged(lines: Seq<OptionLine>) -> Seq<(Seq<char>, bool)> {
    lines.map_values(|l: OptionLine| (l.text, l.marked))
}

/// How many entries are flagged.
pub open spec fn marks(options: Seq<(Seq<char>, bool)>) -> nat {
    options.filter(|o: (Seq<char>, bool)| o.1).len()
}

/// The index of the first flagged entry, if any is flagged.
pub open spec fn first_marked(options: Seq<(Seq<char>, bool)>) -> Option<int> {
    options.map_values(|o: (Seq<char>, bool)| o.1).index_of_first(true)
}

/// The texts of a list of entries, without their flags.
pub open spec fn unflagged(options: Seq<(Seq<char>, bool)>) -> Seq<Seq<char>> {
    options.map_values(|o: (Seq<char>, bool)| o.0)
}

/// What reading an answer block gives.
pub enum Block {
    /// The answers, and the position just after the block.
    Parsed { answers: AnswersView, end: int },
    /// No alternative of the grammar matches.
    NoMatch,
    /// A choice block that does not mark exactly one option.
    Invalid,
}

/// The answer block that starts at `pos`.
pub open spec fn answers_at(s: Seq<char>, pos: int) -> Block {
    let multi = flagged(block(s, pos, Shape::Multi));
    let choice = flagged(block(s, pos, Shape::Choice));
    if multi.len() >= 2 {
        Block::Parsed { answers: AnswersView::Multi(multi), end: block_end(s, pos, Shape::Multi) }
    } else if choice.len() >= 2 {
        if marks(choice) == 1 {
            Block::Parsed {
                answers: AnswersView::Choice(unflagged(choice), first_marked(choice).unwrap() as usize),
                end: block_end(s, pos, Shape::Choice),
            }
        } else {
            Block::Invalid
        }
    } else {
        match option_line(s, pos, Shape::Text) {
            Some(line) => Block::Parsed { answers: AnswersView::Text(seq![line.text]), end: line.end },
            None => Block::NoMatch,
        }
    }
}

/// The question that starts at `pos` and the position just after it, or the
/// reason why none can be read there.
pub open spec fn question_at(s: Seq<char>, pos: int) -> Result<(QuestionView, int), ParseError> {
    if has_line(s, pos) {
        match answers_at(s, line_end(s, pos) + 1) {
            Block::Parsed { answers, end } => Ok(
                (QuestionView { problem: s.subrange(pos, line_end(s, pos)), answers }, end),
            ),
            Block::NoMatch => Err(ParseError::Format { position: pos as usize }),
            Block::Invalid => Err(ParseError::Validation),
        }
    } else {
        Err(ParseError::Format { position: pos as usize })
    }
}

/// The questions that fill the document from `pos` to its end, or the first
/// reason why they do not.
pub open spec fn questions_from(s: Seq<char>, pos: int) -> Result<Seq<QuestionView>, ParseError>
    decreases s.len() - pos,
{
    if pos >= s.len() {
        Ok(Seq::empty())
    } else {
        match question_at(s, pos) {
            Ok((question, end)) => {
                proof {
                    lemma_question_advances(s, pos);
                }
                match questions_from(s, end) {
                    Ok(rest) => Ok(seq![question] + rest),
                    Err(e) => Err(e),
                }
            },
            Err(e) => Err(e),
        }
    }
}

/// What a whole document means: leading blanks are skipped, and the rest
/// must consist of questions up to the last character.
pub open spec fn document(s: Seq<char>) -> Result<Seq<QuestionView>, ParseError> {
    questions_from(s, skip_blank(s, 0))
}

/// `line_end` stays within the document, stops at a newline, and passes none.
pub proof fn lemma_line_end(s: Seq<char>, pos: int)
    requires
        0 <= pos <= s.len(),
    ensures
        pos <= line_end(s, pos) <= s.len(),
        line_end(s, pos) < s.len() ==> s[line_end(s, pos)] == '\n',
        forall|i: int| pos <= i < line_end(s, pos) ==> s[i] != '\n',
    decreases s.len() - pos,
{
    if pos < s.len() && s[pos] != '\n' {
        lemma_line_end(s, pos + 1);
    }
}

/// `skip_blank` stays within the document, stops at a character that is not
/// blank, and passes only blanks.
pub proof fn lemma_skip_blank(s: Seq<char>, pos: int)
    requires
        0 <= pos <= s.len(),
    ensures
        pos <= skip_blank(s, pos) <= s.len(),
        skip_blank(s, pos) < s.len() ==> !is_blank(s[skip_blank(s, pos)]),
        forall|i: int| pos <= i < skip_blank(s, pos) ==> is_blank(s[i]),
    decreases s.len() - pos,
{
    if pos < s.len() && is_blank(s[pos]) {
        lemma_skip_blank(s, pos + 1);
    }
}

/// An option line ends after where it starts, and within the document.
pub proof fn lemma_option_line_advances(s: Seq<char>, pos: int, shape: Shape)
    ensures
        option_line(s, pos, shape) matches Some(line) ==> pos < line.end <= s.len(),
{
    let indent = indent_len(s, pos);
    match marker(s, pos + indent, shape) {
        Some((width, flag)) => {
            let from = pos + indent + width;
            if indent > 0 && has_line(s, from) {
                lemma_line_end(s, from);
            }
        },
        None => {},
    }
}

/// A run of option lines ends at or after where it starts, within the
/// document, and after it if it has a line.
pub proof fn lemma_block_end(s: Seq<char>, pos: int, shape: Shape)
    requires
        pos <= s.len(),
    ensures
        pos <= block_end(s, pos, shape) <= s.len(),
        block(s, pos, shape).len() > 0 ==> pos < block_end(s, pos, shape),
    decreases s.len() - pos,
{
    match option_line(s, pos, shape) {
        Some(line) => {
            lemma_option_line_advances(s, pos, shape);
            lemma_block_end(s, line.end, shape);
            let rest = block(s, line.end, shape);
            assert(block(s, pos, shape) == seq![line] + rest);
            if rest.len() > 0 {
                assert((seq![line] + rest).last() == rest.last());
            }
        },
        None => {},
    }
}

/// A question ends after where it starts, and within the document.
pub proof fn lemma_question_advances(s: Seq<char>, pos: int)
    ensures
        question_at(s, pos) matches Ok((_, end)) ==> pos < end <= s.len(),
{
    if has_line(s, pos) {
        lemma_line_end(s, pos);
        let from = line_end(s, pos) + 1;
        lemma_block_end(s, from, Shape::Multi);
        lemma_block_end(s, from, Shape::Choice);
        lemma_option_line_advances(s, from, Shape::Text);
    }
}

} // verus!
