//! The state of a running quiz: one question at a time, and the whole
//! questionnaire around it.

use vstd::prelude::*;
use crate::text::lowercase;
use crate::types::{entries, texts, Answers, AnswersView, Question, QuestionView, Questionaire};
use crate::ui::input::Input;

verus! {

/// What one question contributes to the total: `earned` out of `possible`.
/// Its value as a number is the quotient of the two.
#[derive(Debug, Clone, Copy, PartialEq, Eq, Structural)]
pub struct Score {
    pub earned: usize,
    pub possible: usize,
}

/// A quotient of two natural numbers, kept as the pair of them.
pub struct Fraction {
    pub numerator: nat,
    pub denominator: nat,
}

impl Fraction {
    /// The sum of two fractions, not reduced.
    pub open spec fn plus(self, other: Fraction) -> Fraction {
        Fraction {
            numerator: self.numerator * other.denominator + other.numerator * self.denominator,
            denominator: self.denominator * other.denominator,
        }
    }
}

impl Score {
    /// The score as a number: what was earned, divided by what was possible.
    pub open spec fn value(self) -> Fraction {
        Fraction { numerator: self.earned as nat, denominator: self.possible as nat }
    }
}

/// The sum of the scores as a number.
pub open spec fn total(scores: Seq<Score>) -> Fraction
    decreases scores.len(),
{
    if scores.len() == 0 {
        Fraction { numerator: 0, denominator: 1 }
    } else {
        total(scores.drop_last()).plus(scores.last().value())
    }
}

/// The answer that is being given to one question.
pub struct QuestionWidgetState<'a> {
    pub question: &'a Question,
    /// The picked options, in the order in which they were picked.
    pub picked: Vec<usize>,
    /// The typed text.
    pub text: String,
    /// Whether the correct answer is shown.
    pub highlight_correct: bool,
}

/// The mathematical value of a [`QuestionWidgetState`].
pub struct QuestionStateView {
    pub question: QuestionView,
    pub picked: Seq<usize>,
    pub text: Seq<char>,
    pub revealed: bool,
}

impl<'a> View for QuestionWidgetState<'a> {
    type V = QuestionStateView;

    open spec fn view(&self) -> QuestionStateView {
        QuestionStateView {
            question: self.question@,
            picked: self.picked@,
            text: self.text@,
            revealed: self.highlight_correct,
        }
    }
}

/// `picked` with `pick` taken out if it is in it, and added at the end if it is not.
pub open spec fn toggled(picked: Seq<usize>, pick: usize) -> Seq<usize> {
    if picked.contains(pick) {
        picked.remove_value(pick)
    } else {
        picked.push(pick)
    }
}

/// Whether `text` equals one of the accepted strings when case is ignored.
pub open spec fn accepts(accepted: Seq<Seq<char>>, text: Seq<char>) -> bool {
    exists|i: int| 0 <= i < accepted.len() && lowercase(#[trigger] accepted[i]) == lowercase(text)
}

/// How many of the picked indices name an option that is flagged as correct.
pub open spec fn hits(picked: Seq<usize>, options: Seq<(Seq<char>, bool)>) -> nat {
    picked.filter(|i: usize| i < options.len() && options[i as int].1).len()
}

impl QuestionStateView {
    /// The state in which a question is entered: nothing picked, nothing
    /// typed, nothing revealed.
    pub open spec fn fresh(question: QuestionView) -> QuestionStateView {
        QuestionStateView { question, picked: Seq::empty(), text: Seq::empty(), revealed: false }
    }

    /// The set of picked options.
    pub open spec fn selected(self) -> Set<usize> {
        self.picked.to_set()
    }

    /// The state after one action.
    pub open spec fn after(self, input: Input) -> QuestionStateView {
        match input {
            Input::Enter => QuestionStateView { revealed: true, ..self },
            Input::Pick(pick) => match self.question.answers {
                AnswersView::Text(_) => self,
                AnswersView::Choice(options, _) => if pick < options.len() {
                    QuestionStateView { picked: seq![pick], ..self }
                } else {
                    self
                },
                AnswersView::Multi(options) => if pick < options.len() {
                    QuestionStateView { picked: toggled(self.picked, pick), ..self }
                } else {
                    self
                },
            },
            Input::Char(c) => match self.question.answers {
                AnswersView::Text(_) => QuestionStateView { text: self.text.push(c), ..self },
                _ => self,
            },
            Input::Back => match self.question.answers {
                AnswersView::Text(_) => if self.text.len() > 0 {
                    QuestionStateView { text: self.text.drop_last(), ..self }
                } else {
                    self
                },
                _ => self,
            },
            Input::Escape => self,
        }
    }

    /// What the answer is worth. Free text earns 1 of 1 if it is accepted; a
    /// choice earns 1 of 1 if exactly the correct option is picked; a
    /// multiple selection earns one for each picked option that is correct,
    /// out of the number of options.
    pub open spec fn score(self) -> Score {
        match self.question.answers {
            AnswersView::Text(accepted) => Score {
                earned: if accepts(accepted, self.text) {
                    1
                } else {
                    0
                },
                possible: 1,
            },
            AnswersView::Choice(_, correct) => Score {
                earned: if self.selected() == set![correct] {
                    1
                } else {
                    0
                },
                possible: 1,
            },
            AnswersView::Multi(options) => Score {
                earned: hits(self.picked, options) as usize,
                possible: options.len() as usize,
            },
        }
    }
}

/// Whether one of the strings of `list` equals `text`.
pub fn contains_text(list: &Vec<String>, text: &String) -> (found: bool)
    ensures
        found == texts(list@).contains(text@),
{
    let mut i: usize = 0;
    while i < list.len()
        invariant
            i <= list.len(),
            forall|j: int| 0 <= j < i ==> texts(list@)[j] != text@,
        decreases list.len() - i,
    {
        if list[i] == *text {
            assert(texts(list@)[i as int] == text@);
            return true;
        }
        i += 1;
    }
    false
}

/// Whether `text` equals one of the accepted strings when case is ignored:
/// both sides are compared in lowercase.
pub fn matches_ignoring_case(accepted: &Vec<String>, text: &str) -> (found: bool)
    ensures
        found == accepts(texts(accepted@), text@),
{
    let wanted = text.to_lowercase();
    let mut lowered: Vec<String> = Vec::new();
    let mut i: usize = 0;
    while i < accepted.len()
        invariant
            i <= accepted.len(),
            lowered@.len() == i,
            forall|j: int| 0 <= j < i ==> (#[trigger] lowered@[j])@ == lowercase(accepted@[j]@),
        decreases accepted.len() - i,
    {
        lowered.push(accepted[i].as_str().to_lowercase());
        i += 1;
    }
    let found = contains_text(&lowered, &wanted);
    proof {
        if found {
            let j = choose|j: int| 0 <= j < texts(lowered@).len() && texts(lowered@)[j] == wanted@;
            assert(lowercase(texts(accepted@)[j]) == lowercase(text@));
        }
        if accepts(texts(accepted@), text@) {
            let j = choose|j: int|
                0 <= j < texts(accepted@).len() && lowercase(#[trigger] texts(accepted@)[j])
                    == lowercase(text@);
            assert(texts(lowered@)[j] == wanted@);
        }
    }
    found
}

/// Whether the picked options are exactly the one option `wanted`.
pub fn picks_only(picked: &Vec<usize>, wanted: usize) -> (only: bool)
    ensures
        only == (picked@.to_set() == set![wanted]),
{
    if picked.len() == 0 {
        assert(!picked@.to_set().contains(wanted));
        assert(set![wanted].contains(wanted));
        return false;
    }
    let mut i: usize = 0;
    while i < picked.len()
        invariant
            i <= picked.len(),
            forall|j: int| 0 <= j < i ==> picked@[j] == wanted,
        decreases picked.len() - i,
    {
        if picked[i] != wanted {
            assert(picked@.to_set().contains(picked@[i as int]));
            assert(!set![wanted].contains(picked@[i as int]));
            return false;
        }
        i += 1;
    }
    assert(picked@[0] == wanted);
    assert(picked@.to_set() =~= set![wanted]);
    true
}

/// How many of the picked indices name an option that is flagged as correct.
pub fn count_hits(picked: &Vec<usize>, options: &Vec<(String, bool)>) -> (count: usize)
    ensures
        count == hits(picked@, entries(options@)),
{
    let mut count: usize = 0;
    let mut i: usize = 0;
    proof {
        reveal(Seq::filter);
        assert(picked@.take(0).len() == 0);
    }
    while i < picked.len()
        invariant
            i <= picked.len(),
            count <= i,
            count == hits(picked@.take(i as int), entries(options@)),
        decreases picked.len() - i,
    {
        proof {
            reveal(Seq::filter);
            assert(picked@.take(i + 1).drop_last() == picked@.take(i as int));
            assert(picked@.take(i + 1).last() == picked@[i as int]);
        }
        let pick = picked[i];
        if pick < options.len() && options[pick].1 {
            count += 1;
        }
        i += 1;
    }
    proof {
        assert(picked@.take(i as int) == picked@);
    }
    count
}

/// Takes `pick` out of the picked options if it is among them, and adds it
/// at the end if it is not.
pub fn toggle(picked: &mut Vec<usize>, pick: usize)
    ensures
        final(picked)@ == toggled(old(picked)@, pick),
{
    let ghost before = picked@;
    let mut i: usize = 0;
    while i < picked.len()
        invariant
            i <= picked.len(),
            picked@ == before,
            before == old(picked)@,
            forall|j: int| 0 <= j < i ==> before[j] != pick,
        decreases picked.len() - i,
    {
        if picked[i] == pick {
            proof {
                assert(before.contains(pick));
                before.index_of_first_ensures(pick);
                assert(before.index_of_first(pick) == Some(i as int));
            }
            picked.remove(i);
            return ;
        }
        i += 1;
    }
    picked.push(pick);
}

/// How an option or a typed answer is to be shown.
#[derive(Debug, Clone, Copy, PartialEq, Eq, Structural)]
pub enum Highlight {
    /// Nothing to show.
    Black,
    /// Picked, and the answer is not revealed yet.
    Blue,
    /// Revealed: picked and correct, or typed and accepted.
    Green,
    /// Revealed: picked and wrong, or typed and not accepted.
    Red,
    /// Revealed: correct, but not picked.
    Yellow,
}

/// How an option is shown, given whether it is picked, whether it is correct
/// and whether the answer is revealed.
pub open spec fn answer_highlight(picked: bool, correct: bool, revealed: bool) -> Highlight {
    if picked {
        if !revealed {
            Highlight::Blue
        } else if correct {
            Highlight::Green
        } else {
            Highlight::Red
        }
    } else if revealed && correct {
        Highlight::Yellow
    } else {
        Highlight::Black
    }
}

/// How an option is shown, given whether it is picked, whether it is correct
/// and whether the answer is revealed.
pub fn answer_color(picked: bool, correct: bool, highlight: bool) -> (color: Highlight)
    ensures
        color == answer_highlight(picked, correct, highlight),
{
    if picked {
        if !highlight {
            Highlight::Blue
        } else if correct {
            Highlight::Green
        } else {
            Highlight::Red
        }
    } else if highlight && correct {
        Highlight::Yellow
    } else {
        Highlight::Black
    }
}

impl QuestionStateView {
    /// How the typed text is shown: plainly until the answer is revealed,
    /// then by whether it is accepted.
    pub open spec fn text_highlight(self) -> Highlight {
        match self.question.answers {
            AnswersView::Text(accepted) => if !self.revealed {
                Highlight::Black
            } else if accepts(accepted, self.text) {
                Highlight::Green
            } else {
                Highlight::Red
            },
            _ => Highlight::Black,
        }
    }

    /// How option `index` is shown.
    pub open spec fn option_highlight(self, index: usize) -> Highlight {
        answer_highlight(
            self.picked.contains(index),
            self.question.answers.is_correct(index),
            self.revealed,
        )
    }
}

impl<'a> QuestionWidgetState<'a> {
    /// Enters a question: nothing picked, nothing typed, nothing revealed.
    pub fn new(question: &'a Question) -> (state: Self)
        ensures
            state@ == QuestionStateView::fresh(question@),
            state.question == question,
    {
        Self { question, picked: Vec::new(), text: String::new(), highlight_correct: false }
    }

    /// What the answer given so far is worth.
    pub fn score(&self) -> (score: Score)
        ensures
            score == self@.score(),
    {
        match &self.question.answers {
            Answers::Text(accepted) => {
                let earned: usize = if matches_ignoring_case(accepted, self.text.as_str()) {
                    1
                } else {
                    0
                };
                Score { earned, possible: 1 }
            },
            Answers::Choice(pair) => {
                let earned: usize = if picks_only(&self.picked, pair.1) {
                    1
                } else {
                    0
                };
                Score { earned, possible: 1 }
            },
            Answers::Multi(options) => {
                assert(entries(options@).len() == options@.len());
                Score { earned: count_hits(&self.picked, options), possible: options.len() }
            },
        }
    }

    /// Applies one action to the answer. Picking works on options only and
    /// ignores indices that name none; typing and deleting work on free text
    /// only; confirming reveals the answer; anything else changes nothing.
    pub fn update(&mut self, input: Input)
        ensures
            final(self)@ == old(self)@.after(input),
            final(self).question == old(self).question,
    {
        let question: &'a Question = self.question;
        match &question.answers {
            Answers::Text(_) => match input {
                Input::Enter => {
                    self.highlight_correct = true;
                },
                Input::Char(c) => {
                    self.text.push(c);
                },
                Input::Back => {
                    let _ = self.text.pop();
                },
                _ => {},
            },
            Answers::Choice(pair) => match input {
                Input::Enter => {
                    self.highlight_correct = true;
                },
                Input::Pick(pick) => {
                    assert(texts(pair.0@).len() == pair.0@.len());
                    if pick < pair.0.len() {
                        self.picked = vec![pick];
                        assert(self.picked@ == seq![pick]);
                    }
                },
                _ => {},
            },
            Answers::Multi(options) => match input {
                Input::Enter => {
                    self.highlight_correct = true;
                },
                Input::Pick(pick) => {
                    assert(entries(options@).len() == options@.len());
                    if pick < options.len() {
                        toggle(&mut self.picked, pick);
                    }
                },
                _ => {},
            },
        }
    }

    /// Whether option `index` is picked.
    pub fn is_picked(&self, index: usize) -> (found: bool)
        ensures
            found == self@.picked.contains(index),
    {
        let mut i: usize = 0;
        while i < self.picked.len()
            invariant
                i <= self.picked.len(),
                forall|j: int| 0 <= j < i ==> self.picked@[j] != index,
            decreases self.picked.len() - i,
        {
            if self.picked[i] == index {
                return true;
            }
            i += 1;
        }
        false
    }

    /// How option `index` is to be shown.
    pub fn option_color(&self, index: usize) -> (color: Highlight)
        ensures
            color == self@.option_highlight(index),
    {
        answer_color(
            self.is_picked(index),
            self.question.answers.is_correct(index),
            self.highlight_correct,
        )
    }

    /// How the typed text is to be shown.
    pub fn text_color(&self) -> (color: Highlight)
        ensures
            color == self@.text_highlight(),
    {
        match &self.question.answers {
            Answers::Text(accepted) => {
                if !self.highlight_correct {
                    Highlight::Black
                } else if matches_ignoring_case(accepted, self.text.as_str()) {
                    Highlight::Green
                } else {
                    Highlight::Red
                }
            },
            _ => Highlight::Black,
        }
    }
}

/// A quiz in progress: the questionnaire, the question that is being
/// answered (none once the quiz is finished), its index, and the scores of
/// the questions that were answered before it, in their order.
pub struct QuestionaireWidgetState<'a> {
    pub questionaire: &'a Questionaire,
    pub question_state: Option<QuestionWidgetState<'a>>,
    pub pos: usize,
    pub scores: Vec<Score>,
}

/// The mathematical value of a [`QuestionaireWidgetState`].
pub struct SessionView {
    pub questions: Seq<QuestionView>,
    pub current: Option<QuestionStateView>,
    pub pos: nat,
    pub scores: Seq<Score>,
}

impl<'a> View for QuestionaireWidgetState<'a> {
    type V = SessionView;

    open spec fn view(&self) -> SessionView {
        SessionView {
            questions: self.questionaire@,
            current: match self.question_state {
                Some(state) => Some(state@),
                None => None,
            },
            pos: self.pos as nat,
            scores: self.scores@,
        }
    }
}

impl SessionView {
    /// The fresh state of the question at `pos`, or `None` past the last question.
    pub open spec fn entered(questions: Seq<QuestionView>, pos: nat) -> Option<QuestionStateView> {
        if pos < questions.len() {
            Some(QuestionStateView::fresh(questions[pos as int]))
        } else {
            None
        }
    }

    /// The state in which a quiz starts: at the first question, with no
    /// score yet; finished at once where there is no question.
    pub open spec fn start(questions: Seq<QuestionView>) -> SessionView {
        SessionView {
            questions,
            current: Self::entered(questions, 0),
            pos: 0,
            scores: Seq::empty(),
        }
    }

    /// Whether every question has been answered.
    pub open spec fn finished(self) -> bool {
        self.current is None
    }

    /// The total score: the sum of the scores recorded so far. It is not
    /// divided by the number of questions.
    pub open spec fn total_score(self) -> Fraction {
        total(self.scores)
    }

    /// The state after the answer `state` has been confirmed a second time:
    /// its score is recorded and the next question is entered.
    pub open spec fn advanced(self, state: QuestionStateView) -> SessionView {
        if self.pos < self.questions.len() {
            SessionView {
                questions: self.questions,
                current: Self::entered(self.questions, self.pos + 1),
                pos: self.pos + 1,
                scores: self.scores.push(state.score()),
            }
        } else {
            SessionView { current: None, ..self }
        }
    }

    /// The state after one action. A finished quiz stays as it is. Confirming
    /// a revealed answer moves on; every other action goes to the question
    /// that is being answered.
    pub open spec fn after(self, input: Input) -> SessionView {
        match self.current {
            None => self,
            Some(state) => if input == Input::Enter && state.revealed {
                self.advanced(state)
            } else {
                SessionView { current: Some(state.after(input)), ..self }
            },
        }
    }
}

/// Whether the loop that feeds actions to a quiz goes on.
#[derive(Debug, Clone, Copy, PartialEq, Eq, Structural)]
pub enum Flow {
    Continue,
    Stop,
}

impl<'a> QuestionaireWidgetState<'a> {
    /// Starts a quiz at the first question of `questionaire`.
    pub fn new(questionaire: &'a Questionaire) -> (state: Self)
        ensures
            state@ == SessionView::start(questionaire@),
            state.questionaire == questionaire,
    {
        let question_state = if questionaire.questions.len() > 0 {
            Some(QuestionWidgetState::new(&questionaire.questions[0]))
        } else {
            None
        };
        Self { questionaire, question_state, pos: 0, scores: Vec::new() }
    }

    /// Whether every question has been answered.
    pub fn is_finished(&self) -> (done: bool)
        ensures
            done == self@.finished(),
    {
        self.question_state.is_none()
    }

    /// Applies one action. The first confirmation of an answer reveals it;
    /// the second records its score and enters the next question, or
    /// finishes the quiz after the last one. Every other action goes to the
    /// question that is being answered. A finished quiz ignores all actions.
    pub fn update(&mut self, input: Input)
        ensures
            final(self)@ == old(self)@.after(input),
            final(self).questionaire == old(self).questionaire,
    {
        let questionaire: &'a Questionaire = self.questionaire;
        let confirmed: Option<Score> = match &self.question_state {
            Some(state) => if input == Input::Enter && state.highlight_correct {
                Some(state.score())
            } else {
                None
            },
            None => {
                return ;
            },
        };
        match confirmed {
            Some(score) => {
                if self.pos < questionaire.questions.len() {
                    self.scores.push(score);
                    self.pos += 1;
                }
                self.question_state = if self.pos < questionaire.questions.len() {
                    Some(QuestionWidgetState::new(&questionaire.questions[self.pos]))
                } else {
                    None
                };
            },
            None => {
                match &mut self.question_state {
                    Some(state) => {
                        state.update(input);
                    },
                    None => {},
                }
            },
        }
    }

    /// Applies one action on behalf of the loop that reads them, and says
    /// whether the loop goes on. Leaving stops the loop and changes nothing:
    /// the answer in progress is not scored. Any other action is applied,
    /// and the loop stops once the quiz is finished.
    pub fn handle(&mut self, input: Input) -> (flow: Flow)
        ensures
            final(self).questionaire == old(self).questionaire,
            input == Input::Escape ==> flow == Flow::Stop && final(self)@ == old(self)@,
            input != Input::Escape ==> final(self)@ == old(self)@.after(input) && (flow
                == Flow::Stop <==> final(self)@.finished()),
    {
        if input == Input::Escape {
            return Flow::Stop;
        }
        self.update(input);
        if self.is_finished() {
            Flow::Stop
        } else {
            Flow::Continue
        }
    }
}

} // verus!
