//! How a question is written down in the text format, and the law that
//! reading what was written gives the question back.

use vstd::prelude::*;
use crate::grammar::{
    answers_at, block, block_end, document, flagged, indent_len, is_blank, line_end, marker,
    option_line, question_at, trim, unflagged, Block, OptionLine, Shape,
};
use crate::laws::{
    holds_one_question, lemma_answers_after_prefix, lemma_block_after_prefix,
    lemma_document_of_blocks, lemma_exactly_one_mark, lemma_line_end_after_prefix,
    lemma_only_entry_counts_once, lemma_option_line_after_prefix,
};
use crate::parse::ParseError;
use crate::types::{AnswersView, QuestionView};

verus! {

/// The marker by which a line of the given shape shows its flag.
pub open spec fn mark(shape: Shape, flag: bool) -> Seq<char> {
    match shape {
        Shape::Multi => if flag {
            seq!['+']
        } else {
            seq!['-']
        },
        Shape::Choice => if flag {
            seq!['*']
        } else {
            Seq::empty()
        },
        Shape::Text => seq!['>'],
    }
}

/// One option line: a tab, the marker, the text, a newline.
pub open spec fn written_line(shape: Shape, text: Seq<char>, flag: bool) -> Seq<char> {
    seq!['\t'] + mark(shape, flag) + text + seq!['\n']
}

/// The option lines of a block, one after the other.
pub open spec fn written_lines(shape: Shape, options: Seq<(Seq<char>, bool)>) -> Seq<char>
    decreases options.len(),
{
    if options.len() == 0 {
        Seq::empty()
    } else {
        written_line(shape, options[0].0, options[0].1) + written_lines(shape, options.drop_first())
    }
}

/// The options of a choice, each with the flag that says whether it is the
/// correct one.
pub open spec fn choice_options(options: Seq<Seq<char>>, correct: usize) -> Seq<(Seq<char>, bool)> {
    Seq::new(options.len(), |i: int| (options[i], i == correct))
}

/// The answer block of a question. Of free text, the first accepted string
/// is written.
pub open spec fn written_answers(answers: AnswersView) -> Seq<char> {
    match answers {
        AnswersView::Text(accepted) => written_line(Shape::Text, accepted[0], true),
        AnswersView::Choice(options, correct) => written_lines(
            Shape::Choice,
            choice_options(options, correct),
        ),
        AnswersView::Multi(options) => written_lines(Shape::Multi, options),
    }
}

/// A question: its problem line, then its answer block.
pub open spec fn written(question: QuestionView) -> Seq<char> {
    question.problem + seq!['\n'] + written_answers(question.answers)
}

/// Whether `text` is one line without blanks around it.
pub open spec fn writable_text(text: Seq<char>) -> bool {
    &&& text.len() > 0
    &&& !is_blank(text.first())
    &&& !is_blank(text.last())
    &&& forall|i: int| 0 <= i < text.len() ==> text[i] != '\n'
}

/// Whether answers can be written down and read back: free text accepts
/// one string, a choice or a multiple selection has two options or more,
/// every text is a single line without blanks around it, and no option of a
/// choice begins with a character that would be taken for a marker.
pub open spec fn writable_answers(answers: AnswersView) -> bool {
    match answers {
        AnswersView::Text(accepted) => accepted.len() == 1 && writable_text(accepted[0]),
        AnswersView::Choice(options, correct) => {
            &&& options.len() >= 2
            &&& correct < options.len()
            &&& forall|i: int| 0 <= i < options.len() ==> writable_text(#[trigger] options[i])
            &&& forall|i: int|
                0 <= i < options.len() && i != correct ==> (#[trigger] options[i])[0] != '*'
            &&& correct != 0 ==> options[0][0] != '+' && options[0][0] != '-'
        },
        AnswersView::Multi(options) => {
            &&& options.len() >= 2
            &&& forall|i: int| 0 <= i < options.len() ==> writable_text((#[trigger] options[i]).0)
        },
    }
}

/// Whether a question can be written down and read back: its problem is one
/// line that does not begin with an indent, and its answers are writable.
pub open spec fn writable(question: QuestionView) -> bool {
    &&& question.problem.len() > 0
    &&& forall|i: int| 0 <= i < question.problem.len() ==> question.problem[i] != '\n'
    &&& indent_len(question.problem, 0) == 0
    &&& writable_answers(question.answers)
}

/// Whether a text and its flag can stand on a line of the given shape: an
/// unmarked option of a choice must not begin with `*`, and free text is
/// always flagged.
pub open spec fn fits(shape: Shape, text: Seq<char>, flag: bool) -> bool {
    &&& writable_text(text)
    &&& shape == Shape::Choice && !flag ==> text[0] != '*'
    &&& shape == Shape::Text ==> flag
}

/// A text without blanks around it is its own trimmed form.
pub proof fn lemma_trim_keeps_writable_text(text: Seq<char>)
    requires
        writable_text(text),
    ensures
        trim(text) == text,
{
}

/// A line is read back as what was written on it, whatever follows it.
pub proof fn lemma_written_line_is_read(shape: Shape, text: Seq<char>, flag: bool, rest: Seq<char>)
    requires
        fits(shape, text, flag),
    ensures
        option_line(written_line(shape, text, flag) + rest, 0, shape) == Some(
            OptionLine { text, marked: flag, end: written_line(shape, text, flag).len() as int },
        ),
{
    let head = seq!['\t'] + mark(shape, flag);
    let tail = text + seq!['\n'] + rest;
    let s = written_line(shape, text, flag) + rest;
    assert(s == head + tail);
    assert(s[0] == '\t');
    assert(indent_len(s, 0) == 1);
    let from = head.len() as int;
    if mark(shape, flag).len() == 1 {
        assert(s[1] == mark(shape, flag)[0]);
    } else {
        assert(s[1] == text[0]);
    }
    assert(marker(s, 1, shape) == Some((from - 1, flag)));
    lemma_line_end_after_prefix(head, tail, 0);
    lemma_line_end_of_text(text, rest, 0);
    assert(line_end(s, from) == from + text.len());
    assert(s.subrange(from, from + text.len()) == text);
    lemma_trim_keeps_writable_text(text);
}

/// A text without a newline, followed by a newline, is one line.
pub proof fn lemma_line_end_of_text(text: Seq<char>, rest: Seq<char>, pos: int)
    requires
        0 <= pos <= text.len(),
        forall|i: int| 0 <= i < text.len() ==> text[i] != '\n',
    ensures
        line_end(text + seq!['\n'] + rest, pos) == text.len(),
    decreases text.len() - pos,
{
    let s = text + seq!['\n'] + rest;
    if pos < text.len() {
        assert(s[pos] == text[pos]);
        lemma_line_end_of_text(text, rest, pos + 1);
    } else {
        assert(s[pos] == '\n');
    }
}

/// The lines of a block are read back as what was written on them, if what
/// follows the block does not begin with an indent.
pub proof fn lemma_written_lines_are_read(
    shape: Shape,
    options: Seq<(Seq<char>, bool)>,
    rest: Seq<char>,
)
    requires
        forall|i: int| 0 <= i < options.len() ==> fits(shape, (#[trigger] options[i]).0, options[i].1),
        indent_len(rest, 0) == 0,
    ensures
        flagged(block(written_lines(shape, options) + rest, 0, shape)) == options,
        block(written_lines(shape, options) + rest, 0, shape).len() == options.len(),
        block_end(written_lines(shape, options) + rest, 0, shape) == written_lines(
            shape,
            options,
        ).len(),
    decreases options.len(),
{
    let s = written_lines(shape, options) + rest;
    if options.len() == 0 {
        assert(s == rest);
    } else {
        let first = written_line(shape, options[0].0, options[0].1);
        let others = written_lines(shape, options.drop_first());
        let after = others + rest;
        assert(s == first + after);
        assert(fits(shape, options[0].0, options[0].1));
        lemma_written_line_is_read(shape, options[0].0, options[0].1, after);
        let line = option_line(s, 0, shape).unwrap();
        assert forall|i: int| 0 <= i < options.drop_first().len() implies fits(
            shape,
            (#[trigger] options.drop_first()[i]).0,
            options.drop_first()[i].1,
        ) by {
            assert(fits(shape, options[i + 1].0, options[i + 1].1));
        }
        lemma_written_lines_are_read(shape, options.drop_first(), rest);
        lemma_block_after_prefix(first, after, 0, shape);
        let following = block(s, line.end, shape);
        assert(block(s, 0, shape) == seq![line] + following);
        assert(flagged(seq![line] + following) == seq![(line.text, line.marked)] + flagged(
            following,
        ));
        assert(options == seq![options[0]] + options.drop_first());
        if following.len() > 0 {
            assert((seq![line] + following).last() == following.last());
        }
    }
}

/// A written multiple selection is read back as it was written.
pub proof fn lemma_written_multi_is_read(options: Seq<(Seq<char>, bool)>, rest: Seq<char>)
    requires
        options.len() >= 2,
        forall|i: int| 0 <= i < options.len() ==> writable_text((#[trigger] options[i]).0),
        indent_len(rest, 0) == 0,
    ensures
        answers_at(written_lines(Shape::Multi, options) + rest, 0) == (Block::Parsed {
            answers: AnswersView::Multi(options),
            end: written_lines(Shape::Multi, options).len() as int,
        }),
{
    assert forall|i: int| 0 <= i < options.len() implies fits(
        Shape::Multi,
        (#[trigger] options[i]).0,
        options[i].1,
    ) by {}
    lemma_written_lines_are_read(Shape::Multi, options, rest);
}

/// A written choice is read back as it was written.
pub proof fn lemma_written_choice_is_read(texts: Seq<Seq<char>>, correct: usize, rest: Seq<char>)
    requires
        writable_answers(AnswersView::Choice(texts, correct)),
        indent_len(rest, 0) == 0,
    ensures
        answers_at(written_lines(Shape::Choice, choice_options(texts, correct)) + rest, 0)
            == (Block::Parsed {
            answers: AnswersView::Choice(texts, correct),
            end: written_lines(Shape::Choice, choice_options(texts, correct)).len() as int,
        }),
{
    let options = choice_options(texts, correct);
    let s = written_lines(Shape::Choice, options) + rest;
    assert forall|i: int| 0 <= i < options.len() implies fits(
        Shape::Choice,
        (#[trigger] options[i]).0,
        options[i].1,
    ) by {
        assert(writable_text(texts[i]));
    }
    lemma_written_lines_are_read(Shape::Choice, options, rest);
    assert(option_line(s, 0, Shape::Multi) is None) by {
        let first = written_line(Shape::Choice, options[0].0, options[0].1);
        let after = written_lines(Shape::Choice, options.drop_first()) + rest;
        assert(s == first + after);
        assert(s[0] == '\t');
        assert(writable_text(texts[0]));
        if options[0].1 {
            assert(s[1] == '*');
        } else {
            assert(s[1] == texts[0][0]);
        }
    }
    assert(options[correct as int].1);
    lemma_only_entry_counts_once(options, correct as int);
    lemma_exactly_one_mark(options);
    assert(unflagged(options) == texts);
}

/// A written free-text answer is read back as it was written.
pub proof fn lemma_written_text_is_read(text: Seq<char>, rest: Seq<char>)
    requires
        writable_text(text),
        indent_len(rest, 0) == 0,
    ensures
        answers_at(written_line(Shape::Text, text, true) + rest, 0) == (Block::Parsed {
            answers: AnswersView::Text(seq![text]),
            end: written_line(Shape::Text, text, true).len() as int,
        }),
{
    let line = written_line(Shape::Text, text, true);
    let s = line + rest;
    lemma_written_line_is_read(Shape::Text, text, true, rest);
    assert(s[0] == '\t' && s[1] == '>') by {
        assert(line[0] == '\t' && line[1] == '>');
    }
    assert(option_line(s, 0, Shape::Multi) is None);
    assert(block(s, 0, Shape::Multi).len() == 0);
    match option_line(s, 0, Shape::Choice) {
        Some(read) => {
            let shown = seq!['>'] + text;
            assert(s == seq!['\t'] + (shown + seq!['\n'] + rest));
            lemma_line_end_after_prefix(seq!['\t'], shown + seq!['\n'] + rest, 0);
            lemma_line_end_of_text(shown, rest, 0);
            assert(read.end == line.len());
            lemma_option_line_after_prefix(line, rest, 0, Shape::Choice);
            assert(option_line(s, read.end, Shape::Choice) is None);
            assert(block(s, read.end, Shape::Choice).len() == 0);
            assert(block(s, 0, Shape::Choice) == seq![read] + block(s, read.end, Shape::Choice));
        },
        None => {
            assert(block(s, 0, Shape::Choice).len() == 0);
        },
    }
}

/// A writable question is read back as it was written, whatever follows it,
/// if that does not begin with an indent.
pub proof fn lemma_written_question_is_read(question: QuestionView, rest: Seq<char>)
    requires
        writable(question),
        indent_len(rest, 0) == 0,
    ensures
        question_at(written(question) + rest, 0) == Ok::<(QuestionView, int), ParseError>(
            (question, written(question).len() as int),
        ),
        indent_len(written(question) + rest, 0) == 0,
{
    let problem = question.problem;
    let head = problem + seq!['\n'];
    let tail = written_answers(question.answers) + rest;
    let s = written(question) + rest;
    assert(s == head + tail);
    assert(s == problem + seq!['\n'] + tail);
    lemma_line_end_of_text(problem, tail, 0);
    assert(s.subrange(0, problem.len() as int) == problem);
    lemma_problem_keeps_its_indent(problem, seq!['\n'] + tail);
    assert(s == problem + (seq!['\n'] + tail));
    match question.answers {
        AnswersView::Multi(options) => {
            lemma_written_multi_is_read(options, rest);
        },
        AnswersView::Choice(texts, correct) => {
            lemma_written_choice_is_read(texts, correct, rest);
        },
        AnswersView::Text(accepted) => {
            assert(accepted == seq![accepted[0]]);
            lemma_written_text_is_read(accepted[0], rest);
        },
    }
    lemma_answers_after_prefix(head, tail, 0);
}

/// Whether a line begins with an indent does not depend on what follows its
/// newline.
pub proof fn lemma_problem_keeps_its_indent(problem: Seq<char>, rest: Seq<char>)
    requires
        problem.len() > 0,
        rest.len() > 0,
        rest[0] == '\n',
    ensures
        indent_len(problem + rest, 0) == indent_len(problem, 0),
{
    let s = problem + rest;
    assert(s[0] == problem[0]);
    assert(s[problem.len() as int] == '\n');
    if problem.len() >= 2 {
        assert(s[1] == problem[1]);
    }
    if problem.len() >= 3 {
        assert(s[2] == problem[2]);
    }
    if problem.len() >= 4 {
        assert(s[3] == problem[3]);
    }
}

/// Reading what was written gives the questions back: a document that
/// consists of blanks and of the written forms of `questions`, the first of
/// which does not begin with a blank, parses to exactly these questions.
pub proof fn lemma_written_questions_are_read(blanks: Seq<char>, questions: Seq<QuestionView>)
    requires
        forall|i: int| 0 <= i < blanks.len() ==> is_blank(blanks[i]),
        forall|i: int| 0 <= i < questions.len() ==> writable(#[trigger] questions[i]),
        questions.len() > 0 ==> !is_blank(questions[0].problem[0]),
    ensures
        document(blanks + questions.map_values(|q: QuestionView| written(q)).flatten()) == Ok::<
            Seq<QuestionView>,
            ParseError,
        >(questions),
{
    let blocks = questions.map_values(|q: QuestionView| written(q));
    assert forall|i: int| 0 <= i < blocks.len() implies holds_one_question(
        blocks[i],
        questions[i],
    ) by {
        lemma_written_question_is_read(questions[i], Seq::empty());
        assert(written(questions[i]) + Seq::<char>::empty() == written(questions[i]));
    }
    if blocks.len() > 0 {
        assert(blocks[0][0] == questions[0].problem[0]);
    }
    lemma_document_of_blocks(blanks, blocks, questions);
}

} // verus!
