//! What holds of every document that the grammar reads.

use vstd::prelude::*;
use crate::grammar::{
    answers_at, block, block_end, document, first_marked, flagged, has_line, indent_len, is_blank,
    lemma_line_end, lemma_option_line_advances, lemma_question_advances, lemma_skip_blank,
    line_end, marker, marks, option_line, question_at, questions_from, skip_blank, unflagged,
    Block, OptionLine, Shape,
};
use crate::parse::ParseError;
use crate::types::{AnswersView, QuestionView};

verus! {

/// A list with a flagged entry has at least one mark.
pub proof fn lemma_one_flagged_entry(options: Seq<(Seq<char>, bool)>, i: int)
    requires
        0 <= i < options.len(),
        options[i].1,
    ensures
        marks(options) >= 1,
    decreases options.len(),
{
    reveal(Seq::filter);
    if i < options.len() - 1 {
        lemma_one_flagged_entry(options.drop_last(), i);
    }
}

/// A list with two flagged entries has at least two marks.
pub proof fn lemma_two_flagged_entries(options: Seq<(Seq<char>, bool)>, i: int, j: int)
    requires
        0 <= i < j < options.len(),
        options[i].1,
        options[j].1,
    ensures
        marks(options) >= 2,
    decreases options.len(),
{
    reveal(Seq::filter);
    if j < options.len() - 1 {
        lemma_two_flagged_entries(options.drop_last(), i, j);
    } else {
        lemma_one_flagged_entry(options.drop_last(), i);
    }
}

/// A list without a flagged entry has no mark.
pub proof fn lemma_no_flagged_entry(options: Seq<(Seq<char>, bool)>)
    requires
        forall|i: int| 0 <= i < options.len() ==> !options[i].1,
    ensures
        marks(options) == 0,
    decreases options.len(),
{
    reveal(Seq::filter);
    if options.len() > 0 {
        lemma_no_flagged_entry(options.drop_last());
    }
}

/// The number of marks is 1 exactly when one entry is flagged and no other;
/// that entry is then the first flagged one.
pub proof fn lemma_exactly_one_mark(options: Seq<(Seq<char>, bool)>)
    ensures
        marks(options) == 1 <==> exists|k: int|
            0 <= k < options.len() && #[trigger] options[k].1 && forall|j: int|
                0 <= j < options.len() && j != k ==> !options[j].1,
        marks(options) == 1 ==> (first_marked(options) matches Some(k) && 0 <= k < options.len()
            && options[k].1 && forall|j: int| 0 <= j < options.len() && j != k ==> !options[j].1),
{
    let flags = options.map_values(|o: (Seq<char>, bool)| o.1);
    flags.index_of_first_ensures(true);
    if marks(options) == 1 {
        if forall|i: int| 0 <= i < options.len() ==> !options[i].1 {
            lemma_no_flagged_entry(options);
        }
        let i = choose|i: int| 0 <= i < options.len() && options[i].1;
        assert(flags[i] == true);
        let k = first_marked(options).unwrap();
        assert(flags[k]);
        assert forall|j: int| 0 <= j < options.len() && j != k implies !options[j].1 by {
            if options[j].1 {
                if j < k {
                    lemma_two_flagged_entries(options, j, k);
                } else {
                    lemma_two_flagged_entries(options, k, j);
                }
            }
        }
    }
    if exists|k: int|
        0 <= k < options.len() && #[trigger] options[k].1 && forall|j: int|
            0 <= j < options.len() && j != k ==> !options[j].1 {
        let k = choose|k: int|
            0 <= k < options.len() && #[trigger] options[k].1 && forall|j: int|
                0 <= j < options.len() && j != k ==> !options[j].1;
        lemma_only_entry_counts_once(options, k);
    }
}

/// A list in which exactly the entry `k` is flagged has one mark.
pub proof fn lemma_only_entry_counts_once(options: Seq<(Seq<char>, bool)>, k: int)
    requires
        0 <= k < options.len(),
        options[k].1,
        forall|j: int| 0 <= j < options.len() && j != k ==> !options[j].1,
    ensures
        marks(options) == 1,
    decreases options.len(),
{
    reveal(Seq::filter);
    if k < options.len() - 1 {
        lemma_only_entry_counts_once(options.drop_last(), k);
    } else {
        lemma_no_flagged_entry(options.drop_last());
    }
}

/// A run of option lines has fewer lines than the document has characters
/// from where it starts.
pub proof fn lemma_block_is_short(s: Seq<char>, pos: int, shape: Shape)
    requires
        pos <= s.len(),
    ensures
        block(s, pos, shape).len() <= s.len() - pos,
    decreases s.len() - pos,
{
    match option_line(s, pos, shape) {
        Some(line) => {
            lemma_option_line_advances(s, pos, shape);
            lemma_block_is_short(s, line.end, shape);
        },
        None => {},
    }
}

/// A choice block parses if and only if exactly one of its option lines is
/// marked as correct. With no mark, or with two or more, the block is
/// invalid, and the correct index of a block that parses is the marked line.
pub proof fn lemma_choice_needs_exactly_one_mark(s: Seq<char>, pos: int)
    requires
        s.len() <= usize::MAX,
        block(s, pos, Shape::Multi).len() < 2,
        block(s, pos, Shape::Choice).len() >= 2,
    ensures
        answers_at(s, pos) is Parsed <==> marks(flagged(block(s, pos, Shape::Choice))) == 1,
        answers_at(s, pos) is Invalid <==> marks(flagged(block(s, pos, Shape::Choice))) != 1,
        marks(flagged(block(s, pos, Shape::Choice))) == 1 <==> exists|k: int|
            0 <= k < block(s, pos, Shape::Choice).len() && (#[trigger] block(
                s,
                pos,
                Shape::Choice,
            )[k]).marked && forall|j: int|
                0 <= j < block(s, pos, Shape::Choice).len() && j != k ==> !block(
                    s,
                    pos,
                    Shape::Choice,
                )[j].marked,
        answers_at(s, pos) matches Block::Parsed { answers, end } ==> (answers matches AnswersView::Choice(
            options,
            correct,
        ) && options == unflagged(flagged(block(s, pos, Shape::Choice))) && correct < options.len()
            && block(s, pos, Shape::Choice)[correct as int].marked && end == block_end(
            s,
            pos,
            Shape::Choice,
        )),
{
    let lines = block(s, pos, Shape::Choice);
    let options = flagged(lines);
    lemma_exactly_one_mark(options);
    if pos <= s.len() {
        lemma_block_is_short(s, pos, Shape::Choice);
    }
    if marks(options) == 1 {
        let k = choose|k: int|
            0 <= k < options.len() && #[trigger] options[k].1 && forall|j: int|
                0 <= j < options.len() && j != k ==> !options[j].1;
        assert(lines[k].marked);
        assert forall|j: int| 0 <= j < lines.len() && j != k implies !lines[j].marked by {
            assert(!options[j].1);
        }
    }
    if exists|k: int|
        0 <= k < lines.len() && (#[trigger] lines[k]).marked && forall|j: int|
            0 <= j < lines.len() && j != k ==> !lines[j].marked {
        let k = choose|k: int|
            0 <= k < lines.len() && (#[trigger] lines[k]).marked && forall|j: int|
                0 <= j < lines.len() && j != k ==> !lines[j].marked;
        assert(options[k].1);
        assert forall|j: int| 0 <= j < options.len() && j != k implies !options[j].1 by {
            assert(!lines[j].marked);
        }
    }
}

/// A question whose answer block is a choice is read if and only if exactly
/// one of the block's lines is marked; otherwise the question, and with it
/// the rest of the document, fails with a validation error.
pub proof fn lemma_choice_question_needs_exactly_one_mark(s: Seq<char>, pos: int)
    requires
        s.len() <= usize::MAX,
        has_line(s, pos),
        block(s, line_end(s, pos) + 1, Shape::Multi).len() < 2,
        block(s, line_end(s, pos) + 1, Shape::Choice).len() >= 2,
    ensures
        question_at(s, pos) is Ok <==> marks(
            flagged(block(s, line_end(s, pos) + 1, Shape::Choice)),
        ) == 1,
        question_at(s, pos) is Err ==> question_at(s, pos) == Err::<(QuestionView, int), ParseError>(
            ParseError::Validation,
        ) && questions_from(s, pos) == Err::<Seq<QuestionView>, ParseError>(ParseError::Validation),
{
    lemma_choice_needs_exactly_one_mark(s, line_end(s, pos) + 1);
    lemma_line_end(s, pos);
}

/// A multiple selection and a choice each need two option lines. With
/// fewer, neither is read: the block is free text if its first line is an
/// indent followed by `>` and a text, and no answer block at all if not.
pub proof fn lemma_blocks_need_two_lines(s: Seq<char>, pos: int)
    ensures
        answers_at(s, pos) matches Block::Parsed { answers: AnswersView::Multi(options), .. }
            ==> options.len() >= 2 && options == flagged(block(s, pos, Shape::Multi)),
        answers_at(s, pos) matches Block::Parsed { answers: AnswersView::Choice(options, _), .. }
            ==> options.len() >= 2 && block(s, pos, Shape::Multi).len() < 2,
        block(s, pos, Shape::Multi).len() < 2 && block(s, pos, Shape::Choice).len() < 2 ==> answers_at(
            s,
            pos,
        ) == match option_line(s, pos, Shape::Text) {
            Some(line) => Block::Parsed { answers: AnswersView::Text(seq![line.text]), end: line.end },
            None => Block::NoMatch,
        },
        option_line(s, pos, Shape::Text) is Some ==> indent_len(s, pos) > 0 && s[pos + indent_len(
            s,
            pos,
        )] == '>',
{
}

/// Every answer block that the grammar reads is well formed.
pub proof fn lemma_answers_are_well_formed(s: Seq<char>, pos: int)
    requires
        s.len() <= usize::MAX,
    ensures
        answers_at(s, pos) matches Block::Parsed { answers, .. } ==> answers.well_formed(),
{
    let choice = flagged(block(s, pos, Shape::Choice));
    lemma_exactly_one_mark(choice);
    if pos <= s.len() {
        lemma_block_is_short(s, pos, Shape::Choice);
    }
}

/// Every question of a document that the grammar reads is well formed.
pub proof fn lemma_questions_are_well_formed(s: Seq<char>, pos: int)
    requires
        s.len() <= usize::MAX,
    ensures
        questions_from(s, pos) matches Ok(questions) ==> forall|i: int|
            0 <= i < questions.len() ==> (#[trigger] questions[i]).answers.well_formed(),
    decreases s.len() - pos,
{
    if pos < s.len() {
        match question_at(s, pos) {
            Ok((question, end)) => {
                lemma_question_advances(s, pos);
                lemma_questions_are_well_formed(s, end);
                lemma_answers_are_well_formed(s, line_end(s, pos) + 1);
            },
            Err(_) => {},
        }
    }
}

/// A question that cannot be read fails the whole document, with the
/// question's own error: nothing is recovered and nothing is skipped.
pub proof fn lemma_first_error_fails_document(s: Seq<char>, pos: int)
    requires
        pos < s.len(),
        question_at(s, pos) is Err,
    ensures
        questions_from(s, pos) == Err::<Seq<QuestionView>, ParseError>(question_at(s, pos)->Err_0),
{
}

/// A line with its end moved by `by` characters.
pub open spec fn moved(line: Option<OptionLine>, by: int) -> Option<OptionLine> {
    match line {
        Some(l) => Some(OptionLine { text: l.text, marked: l.marked, end: l.end + by }),
        None => None,
    }
}

/// Where a line ends does not depend on what stands before it.
pub proof fn lemma_line_end_after_prefix(a: Seq<char>, b: Seq<char>, pos: int)
    requires
        0 <= pos <= b.len(),
    ensures
        line_end(a + b, a.len() + pos) == a.len() + line_end(b, pos),
    decreases b.len() - pos,
{
    if pos < b.len() {
        assert((a + b)[a.len() + pos] == b[pos]);
        if b[pos] != '\n' {
            lemma_line_end_after_prefix(a, b, pos + 1);
        }
    }
}

/// An option line does not depend on what stands before it.
pub proof fn lemma_option_line_after_prefix(a: Seq<char>, b: Seq<char>, pos: int, shape: Shape)
    requires
        0 <= pos,
    ensures
        option_line(a + b, a.len() + pos, shape) == moved(option_line(b, pos, shape), a.len() as int),
{
    let s = a + b;
    let n = a.len() as int;
    assert forall|i: int| 0 <= i < b.len() implies s[n + i] == b[i] by {}
    let indent = indent_len(b, pos);
    assert(indent_len(s, n + pos) == indent) by {
        if pos < b.len() {
            assert(s[n + pos] == b[pos]);
        }
        if pos + 4 <= b.len() {
            assert(s[n + pos + 1] == b[pos + 1]);
            assert(s[n + pos + 2] == b[pos + 2]);
            assert(s[n + pos + 3] == b[pos + 3]);
        }
    }
    let body = pos + indent;
    assert(marker(s, n + body, shape) == marker(b, body, shape)) by {
        if body < b.len() {
            assert(s[n + body] == b[body]);
        }
    }
    match marker(b, body, shape) {
        Some((width, flag)) => {
            let from = body + width;
            if from <= b.len() {
                lemma_line_end_after_prefix(a, b, from);
                lemma_line_end(b, from);
                assert(s.subrange(n + from, n + line_end(b, from)) == b.subrange(
                    from,
                    line_end(b, from),
                ));
            }
        },
        None => {},
    }
}

/// A run of option lines does not depend on what stands before it.
pub proof fn lemma_block_after_prefix(a: Seq<char>, b: Seq<char>, pos: int, shape: Shape)
    requires
        0 <= pos <= b.len(),
    ensures
        flagged(block(a + b, a.len() + pos, shape)) == flagged(block(b, pos, shape)),
        block(a + b, a.len() + pos, shape).len() == block(b, pos, shape).len(),
        block_end(a + b, a.len() + pos, shape) == a.len() + block_end(b, pos, shape),
    decreases b.len() - pos,
{
    let s = a + b;
    let n = a.len() as int;
    lemma_option_line_after_prefix(a, b, pos, shape);
    match option_line(b, pos, shape) {
        Some(line) => {
            lemma_option_line_advances(b, pos, shape);
            lemma_block_after_prefix(a, b, line.end, shape);
            let there = option_line(s, n + pos, shape).unwrap();
            let rest = block(b, line.end, shape);
            let rest_there = block(s, n + line.end, shape);
            assert(block(b, pos, shape) == seq![line] + rest);
            assert(block(s, n + pos, shape) == seq![there] + rest_there);
            assert(flagged(seq![line] + rest) == seq![(line.text, line.marked)] + flagged(rest));
            assert(flagged(seq![there] + rest_there) == seq![(there.text, there.marked)] + flagged(
                rest_there,
            ));
            if rest.len() > 0 {
                assert((seq![line] + rest).last() == rest.last());
                assert((seq![there] + rest_there).last() == rest_there.last());
            }
        },
        None => {},
    }
}

/// What reading an answer block gives, with its end moved by `by` characters.
pub open spec fn moved_block(read: Block, by: int) -> Block {
    match read {
        Block::Parsed { answers, end } => Block::Parsed { answers, end: end + by },
        Block::NoMatch => Block::NoMatch,
        Block::Invalid => Block::Invalid,
    }
}

/// An answer block does not depend on what stands before it.
pub proof fn lemma_answers_after_prefix(a: Seq<char>, b: Seq<char>, pos: int)
    requires
        0 <= pos <= b.len(),
    ensures
        answers_at(a + b, a.len() + pos) == moved_block(answers_at(b, pos), a.len() as int),
{
    lemma_block_after_prefix(a, b, pos, Shape::Multi);
    lemma_block_after_prefix(a, b, pos, Shape::Choice);
    lemma_option_line_after_prefix(a, b, pos, Shape::Text);
}

/// A question does not depend on what stands before it.
proof fn lemma_question_after_prefix(a: Seq<char>, b: Seq<char>, pos: int)
    requires
        0 <= pos,
    ensures
        question_at(b, pos) matches Ok((question, end)) ==> question_at(a + b, a.len() + pos)
            == Ok::<(QuestionView, int), ParseError>((question, a.len() + end)),
{
    let s = a + b;
    let n = a.len() as int;
    if has_line(b, pos) {
        lemma_line_end(b, pos);
        lemma_line_end_after_prefix(a, b, pos);
        assert(s.subrange(n + pos, n + line_end(b, pos)) == b.subrange(pos, line_end(b, pos)));
        lemma_answers_after_prefix(a, b, line_end(b, pos) + 1);
    }
}

/// The questions of a document do not depend on what stands before the
/// position from which they are read.
proof fn lemma_questions_after_prefix(a: Seq<char>, b: Seq<char>, pos: int)
    requires
        0 <= pos,
    ensures
        questions_from(b, pos) matches Ok(questions) ==> questions_from(a + b, a.len() + pos)
            == Ok::<Seq<QuestionView>, ParseError>(questions),
    decreases b.len() - pos,
{
    if pos < b.len() {
        match question_at(b, pos) {
            Ok((question, end)) => {
                lemma_question_advances(b, pos);
                lemma_question_after_prefix(a, b, pos);
                lemma_questions_after_prefix(a, b, end);
            },
            Err(_) => {},
        }
    }
}

/// Where a line of `a` ends does not depend on what follows `a`, if `a` ends
/// with a newline.
proof fn lemma_line_end_before_suffix(a: Seq<char>, b: Seq<char>, pos: int)
    requires
        0 <= pos < a.len(),
        a.last() == '\n',
    ensures
        line_end(a + b, pos) == line_end(a, pos),
        line_end(a, pos) < a.len(),
    decreases a.len() - pos,
{
    assert((a + b)[pos] == a[pos]);
    if a[pos] != '\n' {
        lemma_line_end_before_suffix(a, b, pos + 1);
    }
}

/// An option line of `a` does not depend on what follows `a`, if `a` ends
/// with a newline.
proof fn lemma_option_line_before_suffix(a: Seq<char>, b: Seq<char>, pos: int, shape: Shape)
    requires
        0 <= pos < a.len(),
        a.last() == '\n',
    ensures
        option_line(a + b, pos, shape) == option_line(a, pos, shape),
{
    let s = a + b;
    let n = a.len() as int;
    assert forall|i: int| 0 <= i < n implies s[i] == a[i] by {}
    assert(a[n - 1] == '\n');
    let indent = indent_len(a, pos);
    assert(indent_len(s, pos) == indent) by {
        assert(s[pos] == a[pos]);
        if pos + 4 <= s.len() && pos + 4 > n {
            assert(s[n - 1] == '\n');
        }
    }
    if indent > 0 {
        let body = pos + indent;
        assert(body < n) by {
            assert(a[body - 1] != '\n');
        }
        assert(marker(s, body, shape) == marker(a, body, shape)) by {
            assert(s[body] == a[body]);
        }
        match marker(a, body, shape) {
            Some((width, flag)) => {
                let from = body + width;
                assert(from < n) by {
                    if width == 1 {
                        assert(a[body] != '\n');
                    }
                }
                lemma_line_end_before_suffix(a, b, from);
                lemma_line_end(a, from);
                assert(s.subrange(from, line_end(a, from)) == a.subrange(from, line_end(a, from)));
            },
            None => {},
        }
    }
}

/// A run of option lines of `a` does not depend on what follows `a`, if `a`
/// ends with a newline and what follows does not begin with an indent.
proof fn lemma_block_before_suffix(a: Seq<char>, b: Seq<char>, pos: int, shape: Shape)
    requires
        0 <= pos <= a.len(),
        a.len() > 0,
        a.last() == '\n',
        indent_len(b, 0) == 0,
    ensures
        block(a + b, pos, shape) == block(a, pos, shape),
    decreases a.len() - pos,
{
    if pos < a.len() {
        lemma_option_line_before_suffix(a, b, pos, shape);
        match option_line(a, pos, shape) {
            Some(line) => {
                lemma_option_line_advances(a, pos, shape);
                lemma_block_before_suffix(a, b, line.end, shape);
            },
            None => {},
        }
    } else {
        lemma_option_line_after_prefix(a, b, 0, shape);
    }
}

/// A question of `a` does not depend on what follows `a`, if `a` ends with
/// a newline and what follows does not begin with an indent.
proof fn lemma_question_before_suffix(a: Seq<char>, b: Seq<char>, pos: int)
    requires
        0 <= pos < a.len(),
        a.last() == '\n',
        indent_len(b, 0) == 0,
    ensures
        question_at(a + b, pos) == question_at(a, pos),
{
    let s = a + b;
    lemma_line_end_before_suffix(a, b, pos);
    if has_line(a, pos) {
        let body = line_end(a, pos) + 1;
        assert(s.subrange(pos, line_end(a, pos)) == a.subrange(pos, line_end(a, pos)));
        lemma_block_before_suffix(a, b, body, Shape::Multi);
        lemma_block_before_suffix(a, b, body, Shape::Choice);
        if body < a.len() {
            lemma_option_line_before_suffix(a, b, body, Shape::Text);
        } else {
            lemma_option_line_after_prefix(a, b, 0, Shape::Text);
        }
    }
}

/// A run of option lines that is not empty ends just after a newline.
proof fn lemma_block_ends_after_newline(s: Seq<char>, pos: int, shape: Shape)
    requires
        block(s, pos, shape).len() > 0,
    ensures
        0 < block_end(s, pos, shape) <= s.len(),
        s[block_end(s, pos, shape) - 1] == '\n',
    decreases s.len() - pos,
{
    let line = option_line(s, pos, shape).unwrap();
    lemma_option_line_advances(s, pos, shape);
    assert(s[line.end - 1] == '\n') by {
        let indent = indent_len(s, pos);
        let width = marker(s, pos + indent, shape).unwrap().0;
        lemma_line_end(s, pos + indent + width);
    }
    let rest = block(s, line.end, shape);
    assert(block(s, pos, shape) == seq![line] + rest);
    if rest.len() > 0 {
        lemma_block_ends_after_newline(s, line.end, shape);
        assert((seq![line] + rest).last() == rest.last());
    }
}

/// A question ends just after a newline.
pub proof fn lemma_question_ends_after_newline(s: Seq<char>, pos: int)
    ensures
        question_at(s, pos) matches Ok((_, end)) ==> 0 < end <= s.len() && s[end - 1] == '\n',
{
    if has_line(s, pos) {
        lemma_line_end(s, pos);
        let body = line_end(s, pos) + 1;
        if block(s, body, Shape::Multi).len() >= 2 {
            lemma_block_ends_after_newline(s, body, Shape::Multi);
        } else if block(s, body, Shape::Choice).len() >= 2 {
            lemma_block_ends_after_newline(s, body, Shape::Choice);
        } else if option_line(s, body, Shape::Text) is Some {
            lemma_option_line_advances(s, body, Shape::Text);
            let indent = indent_len(s, body);
            lemma_line_end(s, body + indent + 1);
        }
    }
}

/// Whether `text`, read on its own, is exactly the one question `question`:
/// nothing is left over after it, and it does not begin with an indent.
pub open spec fn holds_one_question(text: Seq<char>, question: QuestionView) -> bool {
    indent_len(text, 0) == 0 && question_at(text, 0) == Ok::<(QuestionView, int), ParseError>(
        (question, text.len() as int),
    )
}

/// A text that holds one question still begins without an indent when
/// something follows it.
proof fn lemma_no_indent_before_suffix(a: Seq<char>, b: Seq<char>, question: QuestionView)
    requires
        holds_one_question(a, question),
    ensures
        indent_len(a + b, 0) == 0,
        a.len() > 0,
        a.last() == '\n',
{
    lemma_question_ends_after_newline(a, 0);
    let s = a + b;
    assert(s[0] == a[0]);
    if s.len() >= 4 && a.len() < 4 {
        assert(s[a.len() - 1] == a[a.len() - 1]);
    }
    if a.len() >= 4 {
        assert(s[1] == a[1]);
        assert(s[2] == a[2]);
        assert(s[3] == a[3]);
    }
}

/// Question blocks written one after the other are read as their questions,
/// one question for each block and in the same order.
pub proof fn lemma_blocks_give_their_questions(
    blocks: Seq<Seq<char>>,
    questions: Seq<QuestionView>,
)
    requires
        blocks.len() == questions.len(),
        forall|i: int| 0 <= i < blocks.len() ==> holds_one_question(blocks[i], questions[i]),
    ensures
        questions_from(blocks.flatten(), 0) == Ok::<Seq<QuestionView>, ParseError>(questions),
        blocks.len() > 0 ==> indent_len(blocks.flatten(), 0) == 0,
    decreases blocks.len(),
{
    if blocks.len() == 0 {
        assert(blocks.flatten() == Seq::<char>::empty());
        assert(questions == Seq::<QuestionView>::empty());
    } else {
        let a = blocks.first();
        let rest = blocks.drop_first();
        let b = rest.flatten();
        assert(blocks.flatten() == a + b);
        assert(holds_one_question(a, questions[0]));
        assert forall|i: int| 0 <= i < rest.len() implies holds_one_question(
            rest[i],
            questions.drop_first()[i],
        ) by {
            assert(holds_one_question(blocks[i + 1], questions[i + 1]));
        }
        lemma_blocks_give_their_questions(rest, questions.drop_first());
        lemma_no_indent_before_suffix(a, b, questions[0]);
        if rest.len() == 0 {
            assert(b == Seq::<char>::empty());
        }
        assert(indent_len(b, 0) == 0);
        lemma_question_before_suffix(a, b, 0);
        lemma_questions_after_prefix(a, b, 0);
        assert(questions == seq![questions[0]] + questions.drop_first());
    }
}

/// A document that consists of blanks and then of `n` question blocks, the
/// first of which does not begin with a blank, parses, and yields exactly
/// the `n` questions of its blocks.
pub proof fn lemma_document_of_blocks(
    blanks: Seq<char>,
    blocks: Seq<Seq<char>>,
    questions: Seq<QuestionView>,
)
    requires
        forall|i: int| 0 <= i < blanks.len() ==> is_blank(blanks[i]),
        blocks.len() == questions.len(),
        forall|i: int| 0 <= i < blocks.len() ==> holds_one_question(blocks[i], questions[i]),
        blocks.len() > 0 ==> !is_blank(blocks[0][0]),
    ensures
        document(blanks + blocks.flatten()) == Ok::<Seq<QuestionView>, ParseError>(questions),
        document(blanks + blocks.flatten()) matches Ok(read) && read.len() == blocks.len(),
{
    let body = blocks.flatten();
    let s = blanks + body;
    lemma_blocks_give_their_questions(blocks, questions);
    lemma_questions_after_prefix(blanks, body, 0);
    assert(skip_blank(s, 0) == blanks.len()) by {
        lemma_skip_blank(s, 0);
        let stop = skip_blank(s, 0);
        if stop < blanks.len() {
            assert(s[stop] == blanks[stop]);
        }
        if stop > blanks.len() {
            assert(is_blank(s[blanks.len() as int]));
            assert(blocks.flatten() == blocks.first() + blocks.drop_first().flatten());
            lemma_question_advances(blocks[0], 0);
            assert(s[blanks.len() as int] == body[0]);
            assert(body[0] == blocks[0][0]);
        }
    }
}

} // verus!
