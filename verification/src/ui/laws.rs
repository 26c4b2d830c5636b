//! What holds of every quiz, whatever the questions and the actions.

use vstd::prelude::*;
use crate::types::{AnswersView, QuestionView};
use crate::ui::input::Input;
use crate::ui::widget::{toggled, QuestionStateView, Score, SessionView};

verus! {

impl QuestionStateView {
    /// What holds of an answer that was entered fresh and changed by actions
    /// only: no option is picked twice, every picked index names an option,
    /// and a choice has at most one option picked.
    pub open spec fn well_formed(self) -> bool {
        &&& self.picked.no_duplicates()
        &&& forall|i: int|
            0 <= i < self.picked.len() ==> #[trigger] self.picked[i]
                < self.question.answers.option_count()
        &&& self.question.answers is Choice ==> self.picked.len() <= 1
    }
}

/// Whether `score` is what some answer to `question` is worth.
pub open spec fn scored_by(question: QuestionView, score: Score) -> bool {
    exists|state: QuestionStateView|
        state.question == question && state.well_formed() && state.revealed && #[trigger] state.score()
            == score
}

impl SessionView {
    /// What holds of a quiz that was started and changed by actions only:
    /// one score is recorded for each question before the current one, each
    /// of them is what an answer to its question is worth, and the answer in
    /// progress belongs to the current question; the quiz is finished exactly
    /// when no question is left.
    pub open spec fn well_formed(self) -> bool {
        &&& self.pos <= self.questions.len()
        &&& self.scores.len() == self.pos
        &&& forall|i: int|
            0 <= i < self.scores.len() ==> scored_by(self.questions[i], #[trigger] self.scores[i])
        &&& match self.current {
            Some(state) => self.pos < self.questions.len() && state.question
                == self.questions[self.pos as int] && state.well_formed(),
            None => self.pos == self.questions.len(),
        }
    }

    /// The state after a sequence of actions, applied in their order.
    pub open spec fn run(self, inputs: Seq<Input>) -> SessionView
        decreases inputs.len(),
    {
        if inputs.len() == 0 {
            self
        } else {
            self.run(inputs.drop_last()).after(inputs.last())
        }
    }
}

/// Taking a value out of a list without duplicates leaves a list without
/// duplicates that holds the other values and not this one.
pub proof fn lemma_remove_value(picked: Seq<usize>, pick: usize)
    requires
        picked.no_duplicates(),
        picked.contains(pick),
    ensures
        picked.remove_value(pick).no_duplicates(),
        picked.remove_value(pick).len() + 1 == picked.len(),
        picked.remove_value(pick).to_set() == picked.to_set().remove(pick),
{
    picked.index_of_first_ensures(pick);
    let at = picked.index_of_first(pick).unwrap();
    let rest = picked.remove(at);
    assert(rest == picked.remove_value(pick));
    assert forall|x: usize| rest.to_set().contains(x) <==> picked.to_set().remove(pick).contains(
        x,
    ) by {
        if rest.contains(x) {
            let j = choose|j: int| 0 <= j < rest.len() && rest[j] == x;
            if j < at {
                assert(picked[j] == x);
            } else {
                assert(picked[j + 1] == x);
            }
        }
        if picked.contains(x) && x != pick {
            let j = choose|j: int| 0 <= j < picked.len() && picked[j] == x;
            if j < at {
                assert(rest[j] == x);
            } else {
                assert(rest[j - 1] == x);
            }
        }
    }
    assert(rest.to_set() =~= picked.to_set().remove(pick));
}

/// Picking an option of a multiple selection toggles it: a picked option is
/// no longer picked, one that was not picked is picked, and every other
/// option stays as it was.
pub proof fn lemma_toggle_flips_membership(picked: Seq<usize>, pick: usize)
    requires
        picked.no_duplicates(),
    ensures
        toggled(picked, pick).no_duplicates(),
        toggled(picked, pick).to_set() == if picked.to_set().contains(pick) {
            picked.to_set().remove(pick)
        } else {
            picked.to_set().insert(pick)
        },
{
    if picked.contains(pick) {
        lemma_remove_value(picked, pick);
    } else {
        assert(picked.push(pick).to_set() =~= picked.to_set().insert(pick)) by {
            assert forall|x: usize| picked.push(pick).contains(x) <==> (picked.contains(x) || x
                == pick) by {
                if picked.push(pick).contains(x) {
                    let j = choose|j: int| 0 <= j < picked.push(pick).len() && picked.push(pick)[j] == x;
                    if j < picked.len() {
                        assert(picked[j] == x);
                    }
                }
                if picked.contains(x) {
                    let j = choose|j: int| 0 <= j < picked.len() && picked[j] == x;
                    assert(picked.push(pick)[j] == x);
                }
                if x == pick {
                    assert(picked.push(pick)[picked.len() as int] == x);
                }
            }
        }
    }
}

/// A fresh answer is well formed.
pub proof fn lemma_fresh_is_well_formed(question: QuestionView)
    ensures
        QuestionStateView::fresh(question).well_formed(),
{
}

/// Every action keeps an answer well formed.
pub proof fn lemma_action_keeps_answer_well_formed(state: QuestionStateView, input: Input)
    requires
        state.well_formed(),
    ensures
        state.after(input).well_formed(),
        state.after(input).question == state.question,
{
    match input {
        Input::Pick(pick) => {
            match state.question.answers {
                AnswersView::Multi(options) => {
                    if pick < options.len() {
                        lemma_toggle_flips_membership(state.picked, pick);
                        let next = toggled(state.picked, pick);
                        assert forall|i: int| 0 <= i < next.len() implies #[trigger] next[i]
                            < options.len() by {
                            assert(next.to_set().contains(next[i]));
                            if next[i] != pick {
                                assert(state.picked.to_set().contains(next[i]));
                                let j = choose|j: int|
                                    0 <= j < state.picked.len() && state.picked[j] == next[i];
                                assert(state.picked[j] < options.len());
                            }
                        }
                    }
                },
                _ => {},
            }
        },
        _ => {},
    }
}

/// Picking an index that names no option changes nothing; in particular the
/// set of picked options stays as it is.
pub proof fn lemma_pick_out_of_range_changes_nothing(state: QuestionStateView, pick: usize)
    requires
        pick >= state.question.answers.option_count(),
    ensures
        state.after(Input::Pick(pick)) == state,
        state.after(Input::Pick(pick)).selected() == state.selected(),
{
}

/// Picking an option of a choice replaces whatever was picked before.
pub proof fn lemma_pick_in_choice_overwrites(state: QuestionStateView, pick: usize)
    requires
        state.question.answers is Choice,
        pick < state.question.answers.option_count(),
    ensures
        state.after(Input::Pick(pick)).selected() == set![pick],
{
    assert(seq![pick].to_set() =~= set![pick]) by {
        assert(seq![pick][0] == pick);
    }
}

/// Picking an option of a multiple selection toggles its membership in the
/// set of picked options.
pub proof fn lemma_pick_in_multi_toggles(state: QuestionStateView, pick: usize)
    requires
        state.well_formed(),
        state.question.answers is Multi,
        pick < state.question.answers.option_count(),
    ensures
        state.after(Input::Pick(pick)).selected() == if state.selected().contains(pick) {
            state.selected().remove(pick)
        } else {
            state.selected().insert(pick)
        },
{
    lemma_toggle_flips_membership(state.picked, pick);
}

/// Deleting from an empty text leaves it empty, and changes nothing else.
pub proof fn lemma_back_on_empty_text_changes_nothing(state: QuestionStateView)
    requires
        state.text.len() == 0,
    ensures
        state.after(Input::Back) == state,
        state.after(Input::Back).text.len() == 0,
{
}

/// Actions that do not apply to the kind of question change nothing:
/// picking on free text, typing and deleting on options, and leaving on any.
pub proof fn lemma_inapplicable_action_changes_nothing(state: QuestionStateView, input: Input)
    requires
        match input {
            Input::Pick(_) => state.question.answers is Text,
            Input::Char(_) | Input::Back => !(state.question.answers is Text),
            Input::Enter => false,
            Input::Escape => true,
        },
    ensures
        state.after(input) == state,
{
}

/// Leaving changes nothing: no score is recorded for the answer in progress.
pub proof fn lemma_leaving_changes_nothing(quiz: SessionView)
    ensures
        quiz.after(Input::Escape) == quiz,
        quiz.after(Input::Escape).scores == quiz.scores,
{
}

/// A finished quiz ignores every action.
pub proof fn lemma_finished_quiz_ignores_actions(quiz: SessionView, input: Input)
    requires
        quiz.finished(),
    ensures
        quiz.after(input) == quiz,
{
}

/// The first confirmation reveals the answer and moves nowhere.
pub proof fn lemma_first_confirm_reveals(quiz: SessionView)
    requires
        quiz.current matches Some(state) && !state.revealed,
    ensures
        quiz.after(Input::Enter).current matches Some(state) && state.revealed && state.picked
            == quiz.current.unwrap().picked && state.text == quiz.current.unwrap().text
            && state.question == quiz.current.unwrap().question,
        quiz.after(Input::Enter).pos == quiz.pos,
        quiz.after(Input::Enter).scores == quiz.scores,
        quiz.after(Input::Enter).questions == quiz.questions,
{
}

/// Confirming a revealed answer adds its score to the total and moves to
/// the next question, which starts unrevealed; after the last question the
/// quiz is finished.
pub proof fn lemma_second_confirm_advances(quiz: SessionView)
    requires
        quiz.well_formed(),
        quiz.current matches Some(state) && state.revealed,
    ensures
        quiz.after(Input::Enter).pos == quiz.pos + 1,
        quiz.after(Input::Enter).scores == quiz.scores.push(quiz.current.unwrap().score()),
        quiz.after(Input::Enter).total_score() == quiz.total_score().plus(
            quiz.current.unwrap().score().value(),
        ),
        quiz.after(Input::Enter).questions == quiz.questions,
        quiz.pos + 1 < quiz.questions.len() ==> quiz.after(Input::Enter).current == Some(
            QuestionStateView::fresh(quiz.questions[quiz.pos as int + 1]),
        ) && !quiz.after(Input::Enter).current.unwrap().revealed,
        quiz.pos + 1 == quiz.questions.len() ==> quiz.after(Input::Enter).finished(),
{
    let score = quiz.current.unwrap().score();
    assert(quiz.scores.push(score).drop_last() == quiz.scores);
}

/// A quiz starts well formed.
pub proof fn lemma_start_is_well_formed(questions: Seq<QuestionView>)
    ensures
        SessionView::start(questions).well_formed(),
{
}

/// Every action keeps a quiz well formed, and never changes its questions.
pub proof fn lemma_action_keeps_quiz_well_formed(quiz: SessionView, input: Input)
    requires
        quiz.well_formed(),
    ensures
        quiz.after(input).well_formed(),
        quiz.after(input).questions == quiz.questions,
{
    match quiz.current {
        Some(state) => {
            if input == Input::Enter && state.revealed {
                let next = quiz.after(input);
                assert(scored_by(quiz.questions[quiz.pos as int], state.score()));
                assert forall|i: int| 0 <= i < next.scores.len() implies scored_by(
                    next.questions[i],
                    #[trigger] next.scores[i],
                ) by {
                    if i < quiz.scores.len() {
                        assert(next.scores[i] == quiz.scores[i]);
                    }
                }
            } else {
                lemma_action_keeps_answer_well_formed(state, input);
            }
        },
        None => {},
    }
}

/// Whatever the actions, a quiz that was started is well formed: it holds
/// one score for each question that was left behind, in their order, each
/// of them computed from an answer to that question.
pub proof fn lemma_run_is_well_formed(questions: Seq<QuestionView>, inputs: Seq<Input>)
    ensures
        SessionView::start(questions).run(inputs).well_formed(),
        SessionView::start(questions).run(inputs).questions == questions,
    decreases inputs.len(),
{
    if inputs.len() == 0 {
        lemma_start_is_well_formed(questions);
    } else {
        lemma_run_is_well_formed(questions, inputs.drop_last());
        lemma_action_keeps_quiz_well_formed(
            SessionView::start(questions).run(inputs.drop_last()),
            inputs.last(),
        );
    }
}

/// Every action but the second confirmation leaves the total as it is.
pub proof fn lemma_other_actions_keep_total(quiz: SessionView, input: Input)
    requires
        input != Input::Enter || quiz.current is None || !quiz.current.unwrap().revealed,
    ensures
        quiz.after(input).scores == quiz.scores,
        quiz.after(input).total_score() == quiz.total_score(),
        quiz.after(input).pos == quiz.pos,
{
}

/// A quiz that has been played to its end holds exactly one score for each
/// question, each computed from an answer to that question: these are the
/// terms of which the total is the sum.
pub proof fn lemma_finished_quiz_has_one_score_per_question(
    questions: Seq<QuestionView>,
    inputs: Seq<Input>,
)
    requires
        SessionView::start(questions).run(inputs).finished(),
    ensures
        SessionView::start(questions).run(inputs).scores.len() == questions.len(),
        forall|i: int|
            0 <= i < questions.len() ==> scored_by(
                questions[i],
                #[trigger] SessionView::start(questions).run(inputs).scores[i],
            ),
{
    lemma_run_is_well_formed(questions, inputs);
}

/// Filtering is not affected by an element that the filter rejects.
proof fn lemma_filter_without_rejected(picked: Seq<usize>, at: int, keep: spec_fn(usize) -> bool)
    requires
        0 <= at < picked.len(),
        !keep(picked[at]),
    ensures
        picked.remove(at).filter(keep) == picked.filter(keep),
    decreases picked.len(),
{
    reveal(Seq::filter);
    if at == picked.len() - 1 {
        assert(picked.remove(at) == picked.drop_last());
    } else {
        lemma_filter_without_rejected(picked.drop_last(), at, keep);
        assert(picked.remove(at).drop_last() == picked.drop_last().remove(at));
        assert(picked.remove(at).last() == picked.last());
    }
}

/// In a multiple selection, picking or unpicking a wrong option never
/// changes the score: a wrong option earns nothing and costs nothing.
pub proof fn lemma_wrong_pick_keeps_score(state: QuestionStateView, pick: usize)
    requires
        state.question.answers matches AnswersView::Multi(options) && pick < options.len()
            && !options[pick as int].1,
    ensures
        state.after(Input::Pick(pick)).score() == state.score(),
{
    let options = state.question.answers->Multi_0;
    let keep = |i: usize| i < options.len() && options[i as int].1;
    reveal(Seq::filter);
    if state.picked.contains(pick) {
        state.picked.index_of_first_ensures(pick);
        lemma_filter_without_rejected(state.picked, state.picked.index_of_first(pick).unwrap(), keep);
    } else {
        assert(state.picked.push(pick).drop_last() == state.picked);
    }
}

/// A list of distinct indices below `bound` has at most `bound` entries.
proof fn lemma_distinct_indices_are_few(picked: Seq<usize>, bound: nat)
    requires
        picked.no_duplicates(),
        forall|i: int| 0 <= i < picked.len() ==> #[trigger] picked[i] < bound,
    ensures
        picked.len() <= bound,
    decreases bound,
{
    if bound == 0 {
        if picked.len() > 0 {
            assert(picked[0] < bound);
        }
    } else if bound - 1 <= usize::MAX && picked.contains((bound - 1) as usize) {
        let top = (bound - 1) as usize;
        lemma_remove_value(picked, top);
        let rest = picked.remove_value(top);
        assert forall|i: int| 0 <= i < rest.len() implies #[trigger] rest[i] < bound - 1 by {
            assert(rest.to_set().contains(rest[i]));
            assert(picked.to_set().contains(rest[i]));
            let j = choose|j: int| 0 <= j < picked.len() && picked[j] == rest[i];
            assert(picked[j] < bound);
        }
        lemma_distinct_indices_are_few(rest, (bound - 1) as nat);
    } else {
        assert forall|i: int| 0 <= i < picked.len() implies #[trigger] picked[i] < bound - 1 by {
            assert(picked[i] < bound);
            assert(picked.contains(picked[i]));
        }
        lemma_distinct_indices_are_few(picked, (bound - 1) as nat);
    }
}

/// A well-formed answer never earns more than is possible.
pub proof fn lemma_score_is_at_most_possible(state: QuestionStateView)
    requires
        state.well_formed(),
        state.question.answers.option_count() <= usize::MAX,
    ensures
        state.score().earned <= state.score().possible,
{
    match state.question.answers {
        AnswersView::Multi(options) => {
            lemma_distinct_indices_are_few(state.picked, options.len());
            state.picked.lemma_filter_len(|i: usize| i < options.len() && options[i as int].1);
        },
        _ => {},
    }
}

} // verus!
