//! The data model: a questionnaire is an ordered list of questions, and each
//! question carries one of three kinds of answers.

use vstd::prelude::*;

verus! {

/// An ordered collection of questions.
#[derive(Debug, PartialEq, Eq)]
pub struct Questionaire {
    pub questions: Vec<Question>,
}

/// A prompt together with the answers that go with it.
#[derive(Debug, PartialEq, Eq)]
pub struct Question {
    pub problem: String,
    pub answers: Answers,
}

/// The three kinds of answers a question can ask for.
#[derive(Debug, PartialEq, Eq)]
pub enum Answers {
    /// Free text, matched against a list of accepted strings.
    Text(Vec<String>),
    /// A list of options and the index of the single correct one.
    Choice((Vec<String>, usize)),
    /// A list of options, each flagged as correct or not.
    Multi(Vec<(String, bool)>),
}

/// The mathematical value of an [`Answers`].
pub enum AnswersView {
    Text(Seq<Seq<char>>),
    Choice(Seq<Seq<char>>, usize),
    Multi(Seq<(Seq<char>, bool)>),
}

/// The mathematical value of a [`Question`].
pub struct QuestionView {
    pub problem: Seq<char>,
    pub answers: AnswersView,
}

/// The character sequences of a list of strings.
pub open spec fn texts(v: Seq<String>) -> Seq<Seq<char>> {
    v.map_values(|s: String| s@)
}

/// The character sequences and flags of a list of flagged strings.
pub open spec fn entries(v: Seq<(String, bool)>) -> Seq<(Seq<char>, bool)> {
    v.map_values(|e: (String, bool)| (e.0@, e.1))
}

/// Appending a string appends its characters to the list of character sequences.
pub proof fn lemma_texts_push(v: Seq<String>, last: String)
    ensures
        texts(v.push(last)) == texts(v).push(last@),
{
    assert(texts(v.push(last)) =~= texts(v).push(last@));
}

/// Appending a flagged string appends its characters and flag to the list of entries.
pub proof fn lemma_entries_push(v: Seq<(String, bool)>, last: (String, bool))
    ensures
        entries(v.push(last)) == entries(v).push((last.0@, last.1)),
{
    assert(entries(v.push(last)) =~= entries(v).push((last.0@, last.1)));
}

impl AnswersView {
    /// How many options can be picked; a free-text answer has none.
    pub open spec fn option_count(self) -> nat {
        match self {
            AnswersView::Text(_) => 0,
            AnswersView::Choice(options, _) => options.len(),
            AnswersView::Multi(options) => options.len(),
        }
    }

    /// Whether option `index` exists and counts as correct.
    pub open spec fn is_correct(self, index: usize) -> bool {
        match self {
            AnswersView::Text(_) => false,
            AnswersView::Choice(options, correct) => index < options.len() && index == correct,
            AnswersView::Multi(options) => index < options.len() && options[index as int].1,
        }
    }

    /// The shape every parsed answer has: free text accepts at least one
    /// string, a choice has at least two options and its correct index names
    /// one of them, a multiple selection has at least two options.
    pub open spec fn well_formed(self) -> bool {
        match self {
            AnswersView::Text(accepted) => accepted.len() >= 1,
            AnswersView::Choice(options, correct) => options.len() >= 2 && correct < options.len(),
            AnswersView::Multi(options) => options.len() >= 2,
        }
    }
}

impl View for Answers {
    type V = AnswersView;

    open spec fn view(&self) -> AnswersView {
        match self {
            Answers::Text(accepted) => AnswersView::Text(texts(accepted@)),
            Answers::Choice(pair) => AnswersView::Choice(texts(pair.0@), pair.1),
            Answers::Multi(options) => AnswersView::Multi(entries(options@)),
        }
    }
}

impl View for Question {
    type V = QuestionView;

    open spec fn view(&self) -> QuestionView {
        QuestionView { problem: self.problem@, answers: self.answers@ }
    }
}

impl View for Questionaire {
    type V = Seq<QuestionView>;

    open spec fn view(&self) -> Seq<QuestionView> {
        self.questions@.map_values(|q: Question| q@)
    }
}

impl Answers {
    /// The number of options that can be picked.
    pub fn option_count(&self) -> (n: usize)
        ensures
            n == self@.option_count(),
    {
        match self {
            Answers::Text(_) => 0,
            Answers::Choice(pair) => pair.0.len(),
            Answers::Multi(options) => options.len(),
        }
    }

    /// Whether option `index` exists and counts as correct.
    pub fn is_correct(&self, index: usize) -> (b: bool)
        ensures
            b == self@.is_correct(index),
    {
        match self {
            Answers::Text(_) => false,
            Answers::Choice(pair) => index < pair.0.len() && index == pair.1,
            Answers::Multi(options) => index < options.len() && options[index].1,
        }
    }
}

} // verus!
