//! Reading a questionnaire from text.
//!
//! The functions here follow the grammar of [`crate::grammar`] line by line:
//! each takes the document as characters and a position, and gives what the
//! grammar reads there together with the position after it.

use vstd::prelude::*;
use crate::grammar::{
    answers_at, block, block_end, document, first_marked, flagged, has_line, indent_len, is_blank,
    lemma_option_line_advances, lemma_question_advances, line_end, marks, option_line,
    question_at, questions_from, skip_blank, trim, trim_end, trim_start, unflagged, Block,
    OptionLine, Shape,
};
use crate::laws::lemma_questions_are_well_formed;
use crate::types::{
    entries, lemma_entries_push, lemma_texts_push, texts, Answers, Question, QuestionView,
    Questionaire,
};

verus! {

/// Why a document was rejected.
#[derive(Debug, Clone, Copy, PartialEq, Eq, Structural)]
pub enum ParseError {
    /// No question can be read at `position`, counted in characters from the
    /// start of the document.
    Format { position: usize },
    /// A choice block does not mark exactly one of its options as correct.
    Validation,
}

/// Whether `c` counts as whitespace.
pub fn is_blank_char(c: char) -> (b: bool)
    ensures
        b == is_blank(c),
{
    c == '\r' || c == '\n' || c == '\t' || c == ' '
}

/// Reads an indent at `pos`: a tab, or else four spaces.
pub fn parse_tab(doc: &[char], pos: usize) -> (next: Option<usize>)
    ensures
        match next {
            Some(n) => indent_len(doc@, pos as int) > 0 && n == pos + indent_len(doc@, pos as int),
            None => indent_len(doc@, pos as int) == 0,
        },
{
    let len = doc.len();
    if pos < len && doc[pos] == '\t' {
        Some(pos + 1)
    } else if pos < len && len - pos >= 4 && doc[pos] == ' ' && doc[pos + 1] == ' ' && doc[pos + 2]
        == ' ' && doc[pos + 3] == ' ' {
        Some(pos + 4)
    } else {
        None
    }
}

/// Skips the blank characters at `pos`.
pub fn parse_ws(doc: &[char], pos: usize) -> (next: usize)
    ensures
        next == skip_blank(doc@, pos as int),
{
    let mut next: usize = pos;
    while next < doc.len() && is_blank_char(doc[next])
        invariant
            skip_blank(doc@, pos as int) == skip_blank(doc@, next as int),
        decreases doc@.len() - next,
    {
        next += 1;
    }
    next
}

/// Finds the end of the line that starts at `pos`.
fn scan_line(doc: &[char], pos: usize) -> (stop: usize)
    requires
        pos <= doc@.len(),
    ensures
        stop == line_end(doc@, pos as int),
        pos <= stop <= doc@.len(),
{
    let mut stop: usize = pos;
    while stop < doc.len() && doc[stop] != '\n'
        invariant
            pos <= stop <= doc@.len(),
            line_end(doc@, pos as int) == line_end(doc@, stop as int),
        decreases doc@.len() - stop,
    {
        stop += 1;
    }
    stop
}

/// Copies the characters from `from` up to `to` into a string.
fn copy_range(doc: &[char], from: usize, to: usize) -> (out: String)
    requires
        from <= to <= doc@.len(),
    ensures
        out@ == doc@.subrange(from as int, to as int),
{
    let mut out = String::new();
    let mut i: usize = from;
    while i < to
        invariant
            from <= i <= to <= doc@.len(),
            out@ == doc@.subrange(from as int, i as int),
        decreases to - i,
    {
        out.push(doc[i]);
        i += 1;
    }
    out
}

/// Copies the characters from `from` up to `to`, without the blanks around them.
fn copy_trimmed(doc: &[char], from: usize, to: usize) -> (out: String)
    requires
        from <= to <= doc@.len(),
    ensures
        out@ == trim(doc@.subrange(from as int, to as int)),
{
    let mut first: usize = from;
    while first < to && is_blank_char(doc[first])
        invariant
            from <= first <= to <= doc@.len(),
            trim_start(doc@.subrange(from as int, to as int)) == trim_start(
                doc@.subrange(first as int, to as int),
            ),
        decreases to - first,
    {
        assert(doc@.subrange(first as int, to as int).drop_first() == doc@.subrange(
            first + 1,
            to as int,
        ));
        first += 1;
    }
    let mut last: usize = to;
    while last > first && is_blank_char(doc[last - 1])
        invariant
            first <= last <= to <= doc@.len(),
            trim_end(doc@.subrange(first as int, to as int)) == trim_end(
                doc@.subrange(first as int, last as int),
            ),
        decreases last,
    {
        assert(doc@.subrange(first as int, last as int).drop_last() == doc@.subrange(
            first as int,
            last - 1,
        ));
        last -= 1;
    }
    copy_range(doc, first, last)
}

/// Reads a problem line at `pos`: at least one character, then a newline.
/// Gives the text before the newline and the position after it.
pub fn parse_problem(doc: &[char], pos: usize) -> (r: Option<(String, usize)>)
    ensures
        match r {
            Some((text, next)) => has_line(doc@, pos as int) && text@ == doc@.subrange(
                pos as int,
                line_end(doc@, pos as int),
            ) && next == line_end(doc@, pos as int) + 1,
            None => !has_line(doc@, pos as int),
        },
{
    if pos >= doc.len() {
        return None;
    }
    let stop = scan_line(doc, pos);
    if stop == pos || stop >= doc.len() {
        None
    } else {
        Some((copy_range(doc, pos, stop), stop + 1))
    }
}

/// Reads the text of an option line at `pos`: at least one character, then
/// a newline. Gives the text without surrounding blanks and the position
/// after the newline.
pub fn parse_option(doc: &[char], pos: usize) -> (r: Option<(String, usize)>)
    ensures
        match r {
            Some((text, next)) => has_line(doc@, pos as int) && text@ == trim(
                doc@.subrange(pos as int, line_end(doc@, pos as int)),
            ) && next == line_end(doc@, pos as int) + 1,
            None => !has_line(doc@, pos as int),
        },
{
    if pos >= doc.len() {
        return None;
    }
    let stop = scan_line(doc, pos);
    if stop == pos || stop >= doc.len() {
        None
    } else {
        Some((copy_trimmed(doc, pos, stop), stop + 1))
    }
}

/// Whether `item` and `next` are what the option line at `pos` holds.
pub open spec fn reads_line(
    s: Seq<char>,
    pos: int,
    shape: Shape,
    r: Option<((String, bool), usize)>,
) -> bool {
    match r {
        Some((item, next)) => option_line(s, pos, shape) matches Some(line) && line.text == item.0@
            && line.marked == item.1 && line.end == next,
        None => option_line(s, pos, shape) is None,
    }
}

/// Reads one line of a multiple selection at `pos`: indent, `+` for a
/// correct option or `-` for a wrong one, text.
pub fn parse_multi(doc: &[char], pos: usize) -> (r: Option<((String, bool), usize)>)
    ensures
        reads_line(doc@, pos as int, Shape::Multi, r),
{
    let body = match parse_tab(doc, pos) {
        Some(body) => body,
        None => {
            return None;
        },
    };
    if body >= doc.len() {
        return None;
    }
    let correct = if doc[body] == '+' {
        true
    } else if doc[body] == '-' {
        false
    } else {
        return None;
    };
    match parse_option(doc, body + 1) {
        Some((answer, next)) => Some(((answer, correct), next)),
        None => None,
    }
}

/// Reads one line of a choice at `pos`: indent, `*` if the option is the
/// correct one, text.
pub fn parse_choice(doc: &[char], pos: usize) -> (r: Option<((String, bool), usize)>)
    ensures
        reads_line(doc@, pos as int, Shape::Choice, r),
{
    let body = match parse_tab(doc, pos) {
        Some(body) => body,
        None => {
            return None;
        },
    };
    let correct = body < doc.len() && doc[body] == '*';
    let from = if correct {
        body + 1
    } else {
        body
    };
    match parse_option(doc, from) {
        Some((answer, next)) => Some(((answer, correct), next)),
        None => None,
    }
}

/// Reads a free-text answer at `pos`: indent, `>`, the accepted text.
pub fn parse_text(doc: &[char], pos: usize) -> (r: Option<(String, usize)>)
    ensures
        match r {
            Some((text, next)) => option_line(doc@, pos as int, Shape::Text) matches Some(line)
                && line.text == text@ && line.end == next,
            None => option_line(doc@, pos as int, Shape::Text) is None,
        },
{
    let body = match parse_tab(doc, pos) {
        Some(body) => body,
        None => {
            return None;
        },
    };
    if body >= doc.len() || doc[body] != '>' {
        return None;
    }
    parse_option(doc, body + 1)
}


/// Reads one option line of the given shape at `pos`.
pub fn parse_line(doc: &[char], pos: usize, shape: Shape) -> (r: Option<((String, bool), usize)>)
    ensures
        reads_line(doc@, pos as int, shape, r),
{
    match shape {
        Shape::Multi => parse_multi(doc, pos),
        Shape::Choice => parse_choice(doc, pos),
        Shape::Text => match parse_text(doc, pos) {
            Some((text, next)) => Some(((text, true), next)),
            None => None,
        },
    }
}

/// Reads option lines of the given shape at `pos` for as long as there are
/// any. Gives the lines and the position after the last of them.
pub fn parse_block(doc: &[char], pos: usize, shape: Shape) -> (r: (Vec<(String, bool)>, usize))
    ensures
        entries(r.0@) == flagged(block(doc@, pos as int, shape)),
        r.1 == block_end(doc@, pos as int, shape),
{
    let mut items: Vec<(String, bool)> = Vec::new();
    let mut cur: usize = pos;
    let ghost mut taken: Seq<OptionLine> = Seq::empty();
    loop
        invariant_except_break
            block(doc@, pos as int, shape) == taken + block(doc@, cur as int, shape),
        invariant
            entries(items@) == flagged(taken),
            taken.len() == 0 ==> cur == pos,
            taken.len() > 0 ==> cur == taken.last().end,
        ensures
            block(doc@, pos as int, shape) == taken,
        decreases doc@.len() - cur,
    {
        match parse_line(doc, cur, shape) {
            Some((item, next)) => {
                let ghost line = option_line(doc@, cur as int, shape).unwrap();
                let ghost before = items@;
                proof {
                    lemma_option_line_advances(doc@, cur as int, shape);
                    assert(taken + (seq![line] + block(doc@, next as int, shape)) == taken.push(line)
                        + block(doc@, next as int, shape));
                }
                items.push(item);
                proof {
                    lemma_entries_push(before, item);
                    assert(flagged(taken.push(line)) == flagged(taken).push((line.text, line.marked)));
                    taken = taken.push(line);
                }
                cur = next;
            },
            None => {
                assert(taken + Seq::<OptionLine>::empty() == taken);
                break ;
            },
        }
    }
    (items, cur)
}

/// Reads a multiple selection at `pos`: two or more lines that each start
/// with `+` or `-`.
pub fn parse_multis(doc: &[char], pos: usize) -> (r: Option<(Vec<(String, bool)>, usize)>)
    ensures
        match r {
            Some((options, next)) => block(doc@, pos as int, Shape::Multi).len() >= 2 && entries(
                options@,
            ) == flagged(block(doc@, pos as int, Shape::Multi)) && next == block_end(
                doc@,
                pos as int,
                Shape::Multi,
            ),
            None => block(doc@, pos as int, Shape::Multi).len() < 2,
        },
{
    let (options, next) = parse_block(doc, pos, Shape::Multi);
    assert(entries(options@).len() == options@.len());
    if options.len() >= 2 {
        Some((options, next))
    } else {
        None
    }
}

/// Counts the flagged options and finds the first of them; where none is
/// flagged, the second number is the length of the list.
pub fn count_marked(options: &Vec<(String, bool)>) -> (r: (usize, usize))
    ensures
        r.0 == marks(entries(options@)),
        r.0 > 0 <==> r.1 < options@.len(),
        r.1 <= options@.len(),
        first_marked(entries(options@)) == if r.1 < options@.len() {
            Some(r.1 as int)
        } else {
            None
        },
{
    let ghost all = entries(options@);
    let ghost flags = all.map_values(|o: (Seq<char>, bool)| o.1);
    let mut count: usize = 0;
    let mut first: usize = options.len();
    let mut i: usize = 0;
    proof {
        reveal(Seq::filter);
        assert(all.take(0).len() == 0);
    }
    while i < options.len()
        invariant
            i <= options.len(),
            all == entries(options@),
            count <= i,
            count == marks(all.take(i as int)),
            count > 0 <==> first < options.len(),
            first <= options.len(),
            first == options.len() ==> forall|j: int| 0 <= j < i ==> !all[j].1,
            first < options.len() ==> first < i && all[first as int].1 && forall|j: int|
                0 <= j < first ==> !all[j].1,
        decreases options.len() - i,
    {
        proof {
            reveal(Seq::filter);
            assert(all.take(i + 1).drop_last() == all.take(i as int));
            assert(all.take(i + 1).last() == all[i as int]);
        }
        if options[i].1 {
            count += 1;
            if first == options.len() {
                first = i;
            }
        }
        i += 1;
    }
    proof {
        assert(all.take(i as int) == all);
        flags.index_of_first_ensures(true);
        if first < options.len() {
            assert(flags[first as int]);
        } else if flags.contains(true) {
            let j = choose|j: int| 0 <= j < flags.len() && flags[j] == true;
            assert(!all[j].1);
        }
    }
    (count, first)
}

/// Drops the flags of a list of options and keeps their texts.
pub fn strip_flags(options: Vec<(String, bool)>) -> (out: Vec<String>)
    ensures
        texts(out@) == unflagged(entries(options@)),
{
    let mut out: Vec<String> = Vec::new();
    for item in it: options
        invariant
            it.seq() == options@,
            texts(out@) == unflagged(entries(options@.take(it.index() as int))),
    {
        let ghost before = out@;
        let ghost done = it.index() as int;
        out.push(item.0);
        proof {
            assert(options@.take(done + 1) == options@.take(done).push(options@[done]));
            lemma_texts_push(before, item.0);
            lemma_entries_push(options@.take(done), options@[done]);
            assert(unflagged(entries(options@.take(done)).push((item.0@, item.1))) == unflagged(
                entries(options@.take(done)),
            ).push(item.0@));
        }
    }
    proof {
        assert(options@.take(options@.len() as int) == options@);
    }
    out
}

/// Reads a choice at `pos`: two or more lines, of which exactly one starts
/// with `*`. A block with two or more lines and any other number of marks is
/// an error, not a mismatch.
pub fn parse_choices(doc: &[char], pos: usize) -> (r: Result<
    Option<((Vec<String>, usize), usize)>,
    ParseError,
>)
    ensures
        match r {
            Ok(Some((choice, next))) => {
                let lines = flagged(block(doc@, pos as int, Shape::Choice));
                &&& lines.len() >= 2
                &&& marks(lines) == 1
                &&& texts(choice.0@) == unflagged(lines)
                &&& first_marked(lines) == Some(choice.1 as int)
                &&& next == block_end(doc@, pos as int, Shape::Choice)
            },
            Ok(None) => block(doc@, pos as int, Shape::Choice).len() < 2,
            Err(e) => {
                let lines = flagged(block(doc@, pos as int, Shape::Choice));
                lines.len() >= 2 && marks(lines) != 1 && e == ParseError::Validation
            },
        },
{
    let (lines, next) = parse_block(doc, pos, Shape::Choice);
    assert(entries(lines@).len() == lines@.len());
    if lines.len() < 2 {
        return Ok(None);
    }
    let (count, correct) = count_marked(&lines);
    if count == 1 {
        Ok(Some(((strip_flags(lines), correct), next)))
    } else {
        Err(ParseError::Validation)
    }
}

/// Reads the answer block at `pos`, trying a multiple selection first, then
/// a choice, then free text. `Ok(None)` means that none of them matches.
pub fn parse_answers(doc: &[char], pos: usize) -> (r: Result<Option<(Answers, usize)>, ParseError>)
    ensures
        match r {
            Ok(Some((answers, next))) => answers_at(doc@, pos as int) == (Block::Parsed {
                answers: answers@,
                end: next as int,
            }),
            Ok(None) => answers_at(doc@, pos as int) == Block::NoMatch,
            Err(e) => answers_at(doc@, pos as int) == Block::Invalid && e == ParseError::Validation,
        },
{
    if let Some((options, next)) = parse_multis(doc, pos) {
        return Ok(Some((Answers::Multi(options), next)));
    }
    assert(flagged(block(doc@, pos as int, Shape::Multi)).len() < 2);
    match parse_choices(doc, pos) {
        Ok(Some((choice, next))) => {
            return Ok(Some((Answers::Choice(choice), next)));
        },
        Ok(None) => {},
        Err(e) => {
            return Err(e);
        },
    }
    assert(flagged(block(doc@, pos as int, Shape::Choice)).len() < 2);
    match parse_text(doc, pos) {
        Some((text, next)) => {
            let mut accepted: Vec<String> = Vec::new();
            accepted.push(text);
            assert(texts(accepted@) == seq![text@]);
            Ok(Some((Answers::Text(accepted), next)))
        },
        None => Ok(None),
    }
}

/// Reads one question at `pos`: a problem line and its answer block.
pub fn parse_question(doc: &[char], pos: usize) -> (r: Result<(Question, usize), ParseError>)
    ensures
        question_at(doc@, pos as int) == match r {
            Ok((question, next)) => Ok((question@, next as int)),
            Err(e) => Err(e),
        },
{
    let (problem, body) = match parse_problem(doc, pos) {
        Some(line) => line,
        None => {
            return Err(ParseError::Format { position: pos });
        },
    };
    match parse_answers(doc, body) {
        Ok(Some((answers, next))) => Ok((Question { problem, answers }, next)),
        Ok(None) => Err(ParseError::Format { position: pos }),
        Err(e) => Err(e),
    }
}

/// The questions read so far, followed by what the rest of the document gives.
pub open spec fn followed_by(
    front: Seq<QuestionView>,
    rest: Result<Seq<QuestionView>, ParseError>,
) -> Result<Seq<QuestionView>, ParseError> {
    match rest {
        Ok(more) => Ok(front + more),
        Err(e) => Err(e),
    }
}

/// Reads questions from `pos` to the end of the document.
pub fn parse_questionaire(doc: &[char], pos: usize) -> (r: Result<Questionaire, ParseError>)
    ensures
        questions_from(doc@, pos as int) == match r {
            Ok(questionaire) => Ok(questionaire@),
            Err(e) => Err(e),
        },
{
    let mut questions: Vec<Question> = Vec::new();
    let mut cur: usize = pos;
    assert(Seq::<QuestionView>::empty() + Seq::<QuestionView>::empty() == Seq::<
        QuestionView,
    >::empty());
    assert(questions@.map_values(|q: Question| q@) == Seq::<QuestionView>::empty());
    while cur < doc.len()
        invariant
            questions_from(doc@, pos as int) == followed_by(
                questions@.map_values(|q: Question| q@),
                questions_from(doc@, cur as int),
            ),
        decreases doc@.len() - cur,
    {
        match parse_question(doc, cur) {
            Ok((question, next)) => {
                let ghost before = questions@.map_values(|q: Question| q@);
                let ghost rest = questions_from(doc@, next as int);
                proof {
                    lemma_question_advances(doc@, cur as int);
                }
                questions.push(question);
                proof {
                    let after = questions@.map_values(|q: Question| q@);
                    assert(after == before.push(question@));
                    if let Ok(more) = rest {
                        assert(before + (seq![question@] + more) == after + more);
                    }
                }
                cur = next;
            },
            Err(e) => {
                return Err(e);
            },
        }
    }
    proof {
        let all = questions@.map_values(|q: Question| q@);
        assert(all + Seq::<QuestionView>::empty() == all);
    }
    Ok(Questionaire { questions })
}

/// The characters of a string, one by one.
pub fn characters(s: &str) -> (doc: Vec<char>)
    ensures
        doc@ == s@,
{
    let mut doc: Vec<char> = Vec::new();
    for c in it: s.chars()
        invariant
            it.seq() == s@,
            doc@ == it.seq().take(it.index() as int),
    {
        doc.push(c);
    }
    doc
}

impl Questionaire {
    /// Parses a whole document. The result is the questions that the grammar
    /// reads from the first character that is not blank to the last character
    /// of the document; where they do not fill it, the first error met.
    pub fn from_str(s: &str) -> (r: Result<Questionaire, ParseError>)
        ensures
            document(s@) == match r {
                Ok(questionaire) => Ok(questionaire@),
                Err(e) => Err(e),
            },
            r matches Ok(questionaire) ==> forall|i: int|
                0 <= i < questionaire@.len() ==> (#[trigger] questionaire@[i]).answers.well_formed(),
    {
        let doc = characters(s);
        let start = parse_ws(doc.as_slice(), 0);
        proof {
            assert(doc@.len() == doc.len());
            lemma_questions_are_well_formed(doc@, start as int);
        }
        parse_questionaire(doc.as_slice(), start)
    }
}

} // verus!
