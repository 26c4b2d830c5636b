use memo::types::{Answers, Question, Questionaire};
use memo::ui::input::Input;
use memo::ui::widget::{Flow, QuestionWidgetState, QuestionaireWidgetState, Score};

fn strings(items: &[&str]) -> Vec<String> {
    items.iter().map(|s| s.to_string()).collect()
}

fn paris() -> Question {
    Question { problem: "Capital of France?".to_string(), answers: Answers::Text(strings(&["Paris"])) }
}

fn abc() -> Question {
    Question { problem: "Pick one".to_string(), answers: Answers::Choice((strings(&["A", "B", "C"]), 1)) }
}

fn xyz() -> Question {
    Question {
        problem: "Pick some".to_string(),
        answers: Answers::Multi(vec![
            ("X".to_string(), true),
            ("Y".to_string(), false),
            ("Z".to_string(), true),
        ]),
    }
}

fn value(score: Score) -> f32 {
    score.earned as f32 / score.possible as f32
}

fn total(scores: &[Score]) -> f32 {
    scores.iter().fold(0.0, |sum, score| sum + value(*score))
}

fn play(question: Question, inputs: &[Input]) -> Vec<Score> {
    let questionaire = Questionaire { questions: vec![question] };
    let mut quiz = QuestionaireWidgetState::new(&questionaire);
    for input in inputs {
        quiz.update(*input);
    }
    quiz.update(Input::Enter);
    quiz.update(Input::Enter);
    assert!(quiz.is_finished());
    quiz.scores
}

fn typed(text: &str) -> Vec<Input> {
    text.chars().map(Input::Char).collect()
}

#[test]
fn text_answer_in_other_case_scores_one() {
    let scores = play(paris(), &typed("paris"));
    assert_eq!(scores, vec![Score { earned: 1, possible: 1 }]);
    assert_eq!(total(&scores), 1.0);
}

#[test]
fn text_answer_with_extra_letter_scores_zero() {
    let scores = play(paris(), &typed("pariss"));
    assert_eq!(scores, vec![Score { earned: 0, possible: 1 }]);
    assert_eq!(total(&scores), 0.0);
}

#[test]
fn text_answer_is_compared_in_unicode_lowercase() {
    let question = Question { problem: "?".to_string(), answers: Answers::Text(strings(&["ÉCOLE"])) };
    assert_eq!(play(question, &typed("école")), vec![Score { earned: 1, possible: 1 }]);
}

#[test]
fn text_answer_may_match_any_accepted_string() {
    let question =
        Question { problem: "?".to_string(), answers: Answers::Text(strings(&["Rome", "Roma"])) };
    assert_eq!(play(question, &typed("ROMA")), vec![Score { earned: 1, possible: 1 }]);
}

#[test]
fn choice_with_correct_pick_scores_one() {
    let scores = play(abc(), &[Input::Pick(1)]);
    assert_eq!(scores, vec![Score { earned: 1, possible: 1 }]);
    assert_eq!(total(&scores), 1.0);
}

#[test]
fn choice_with_wrong_pick_scores_zero() {
    let scores = play(abc(), &[Input::Pick(0)]);
    assert_eq!(scores, vec![Score { earned: 0, possible: 1 }]);
    assert_eq!(total(&scores), 0.0);
}

#[test]
fn choice_without_pick_scores_zero() {
    assert_eq!(play(abc(), &[]), vec![Score { earned: 0, possible: 1 }]);
}

#[test]
fn choice_keeps_the_last_pick_only() {
    let question = abc();
    let mut state = QuestionWidgetState::new(&question);
    state.update(Input::Pick(0));
    state.update(Input::Pick(2));
    assert_eq!(state.picked, vec![2]);
    state.update(Input::Pick(1));
    assert_eq!(state.picked, vec![1]);
    assert_eq!(state.score(), Score { earned: 1, possible: 1 });
}

#[test]
fn multi_with_both_correct_picks_scores_two_thirds() {
    let scores = play(xyz(), &[Input::Pick(0), Input::Pick(2)]);
    assert_eq!(scores, vec![Score { earned: 2, possible: 3 }]);
    assert_eq!(total(&scores), 2.0f32 / 3.0f32);
}

#[test]
fn multi_with_an_extra_wrong_pick_still_scores_two_thirds() {
    let scores = play(xyz(), &[Input::Pick(0), Input::Pick(1), Input::Pick(2)]);
    assert_eq!(scores, vec![Score { earned: 2, possible: 3 }]);
    assert_eq!(total(&scores), 2.0f32 / 3.0f32);
}

#[test]
fn multi_without_pick_scores_zero_of_three() {
    assert_eq!(play(xyz(), &[]), vec![Score { earned: 0, possible: 3 }]);
}

#[test]
fn multi_pick_toggles() {
    let question = xyz();
    let mut state = QuestionWidgetState::new(&question);
    state.update(Input::Pick(2));
    state.update(Input::Pick(0));
    assert_eq!(state.picked, vec![2, 0]);
    state.update(Input::Pick(2));
    assert_eq!(state.picked, vec![0]);
    state.update(Input::Pick(2));
    assert_eq!(state.picked, vec![0, 2]);
}

#[test]
fn pick_out_of_range_leaves_selection_unchanged() {
    let choice = abc();
    let mut state = QuestionWidgetState::new(&choice);
    state.update(Input::Pick(1));
    state.update(Input::Pick(3));
    state.update(Input::Pick(usize::MAX));
    assert_eq!(state.picked, vec![1]);

    let multi = xyz();
    let mut state = QuestionWidgetState::new(&multi);
    state.update(Input::Pick(0));
    state.update(Input::Pick(3));
    assert_eq!(state.picked, vec![0]);
    state.update(Input::Pick(7));
    assert_eq!(state.picked, vec![0]);
}

#[test]
fn backspace_on_empty_text_leaves_it_empty() {
    let question = paris();
    let mut state = QuestionWidgetState::new(&question);
    state.update(Input::Back);
    assert_eq!(state.text, "");
    assert!(!state.highlight_correct);
    assert!(state.picked.is_empty());
}

#[test]
fn backspace_removes_the_last_character() {
    let question = paris();
    let mut state = QuestionWidgetState::new(&question);
    for input in typed("Parix") {
        state.update(input);
    }
    assert_eq!(state.text, "Parix");
    state.update(Input::Back);
    assert_eq!(state.text, "Pari");
    state.update(Input::Char('s'));
    assert_eq!(state.text, "Paris");
}

#[test]
fn actions_of_the_other_kind_are_ignored() {
    let text = paris();
    let mut state = QuestionWidgetState::new(&text);
    state.update(Input::Pick(0));
    assert!(state.picked.is_empty());
    assert_eq!(state.text, "");

    let choice = abc();
    let mut state = QuestionWidgetState::new(&choice);
    state.update(Input::Char('x'));
    state.update(Input::Back);
    assert_eq!(state.text, "");
    assert!(state.picked.is_empty());

    let multi = xyz();
    let mut state = QuestionWidgetState::new(&multi);
    state.update(Input::Char('x'));
    state.update(Input::Escape);
    assert_eq!(state.text, "");
    assert!(state.picked.is_empty());
    assert!(!state.highlight_correct);
}

#[test]
fn first_confirm_reveals_and_stays() {
    let questionaire = Questionaire { questions: vec![abc(), xyz()] };
    let mut quiz = QuestionaireWidgetState::new(&questionaire);
    quiz.update(Input::Pick(1));
    quiz.update(Input::Enter);
    assert_eq!(quiz.pos, 0);
    assert!(quiz.scores.is_empty());
    let state = quiz.question_state.as_ref().unwrap();
    assert!(state.highlight_correct);
    assert_eq!(state.picked, vec![1]);
}

#[test]
fn second_confirm_advances_and_resets() {
    let questionaire = Questionaire { questions: vec![abc(), xyz()] };
    let mut quiz = QuestionaireWidgetState::new(&questionaire);
    quiz.update(Input::Pick(1));
    quiz.update(Input::Enter);
    quiz.update(Input::Enter);
    assert_eq!(quiz.pos, 1);
    assert_eq!(quiz.scores, vec![Score { earned: 1, possible: 1 }]);
    let state = quiz.question_state.as_ref().unwrap();
    assert!(!state.highlight_correct);
    assert!(state.picked.is_empty());
    assert_eq!(state.text, "");
    assert_eq!(state.question, &questionaire.questions[1]);
    assert!(!quiz.is_finished());
}

#[test]
fn confirm_at_the_last_question_finishes_with_the_sum() {
    let questionaire = Questionaire { questions: vec![paris(), abc(), xyz()] };
    let mut quiz = QuestionaireWidgetState::new(&questionaire);
    for input in typed("PARIS") {
        quiz.update(input);
    }
    quiz.update(Input::Enter);
    quiz.update(Input::Enter);
    quiz.update(Input::Pick(2));
    quiz.update(Input::Enter);
    quiz.update(Input::Enter);
    quiz.update(Input::Pick(1));
    quiz.update(Input::Pick(2));
    quiz.update(Input::Enter);
    assert!(!quiz.is_finished());
    quiz.update(Input::Enter);
    assert!(quiz.is_finished());
    assert_eq!(quiz.pos, 3);
    assert_eq!(
        quiz.scores,
        vec![
            Score { earned: 1, possible: 1 },
            Score { earned: 0, possible: 1 },
            Score { earned: 1, possible: 3 },
        ]
    );
    assert_eq!(total(&quiz.scores), 0.0f32 + 1.0f32 + 0.0f32 + 1.0f32 / 3.0f32);
}

#[test]
fn finished_quiz_ignores_actions() {
    let questionaire = Questionaire { questions: vec![abc()] };
    let mut quiz = QuestionaireWidgetState::new(&questionaire);
    quiz.update(Input::Enter);
    quiz.update(Input::Enter);
    assert!(quiz.is_finished());
    for input in [Input::Enter, Input::Pick(0), Input::Char('a'), Input::Back, Input::Escape] {
        quiz.update(input);
        assert!(quiz.is_finished());
        assert_eq!(quiz.pos, 1);
        assert_eq!(quiz.scores, vec![Score { earned: 0, possible: 1 }]);
    }
}

#[test]
fn quiz_without_questions_is_finished_at_once() {
    let questionaire = Questionaire { questions: vec![] };
    let quiz = QuestionaireWidgetState::new(&questionaire);
    assert!(quiz.is_finished());
    assert_eq!(quiz.pos, 0);
    assert!(quiz.scores.is_empty());
}

#[test]
fn leaving_stops_without_scoring_the_answer_in_progress() {
    let questionaire = Questionaire { questions: vec![abc(), xyz()] };
    let mut quiz = QuestionaireWidgetState::new(&questionaire);
    assert_eq!(quiz.handle(Input::Pick(1)), Flow::Continue);
    assert_eq!(quiz.handle(Input::Enter), Flow::Continue);
    assert_eq!(quiz.handle(Input::Escape), Flow::Stop);
    assert_eq!(quiz.pos, 0);
    assert!(quiz.scores.is_empty());
    let state = quiz.question_state.as_ref().unwrap();
    assert!(state.highlight_correct);
    assert_eq!(state.picked, vec![1]);
    assert!(!quiz.is_finished());
}

#[test]
fn leaving_stops_a_finished_quiz_too() {
    let questionaire = Questionaire { questions: vec![] };
    let mut quiz = QuestionaireWidgetState::new(&questionaire);
    assert_eq!(quiz.handle(Input::Escape), Flow::Stop);
    assert!(quiz.scores.is_empty());
}

#[test]
fn loop_stops_when_the_quiz_is_finished() {
    let questionaire = Questionaire { questions: vec![abc()] };
    let mut quiz = QuestionaireWidgetState::new(&questionaire);
    assert_eq!(quiz.handle(Input::Pick(1)), Flow::Continue);
    assert_eq!(quiz.handle(Input::Enter), Flow::Continue);
    assert_eq!(quiz.handle(Input::Enter), Flow::Stop);
    assert_eq!(quiz.scores, vec![Score { earned: 1, possible: 1 }]);
}

#[test]
fn parsed_document_can_be_played() {
    let doc = "Capital of France?\n\t>Paris\nPick one\n\tA\n\t*B\n\tC\nPick some\n\t+X\n\t-Y\n\t+Z\n";
    let questionaire = Questionaire::from_str(doc).unwrap();
    let mut quiz = QuestionaireWidgetState::new(&questionaire);
    let mut inputs = typed("paris");
    inputs.extend([Input::Enter, Input::Enter, Input::Pick(1), Input::Enter, Input::Enter]);
    inputs.extend([Input::Pick(0), Input::Pick(2), Input::Enter, Input::Enter]);
    for input in inputs {
        quiz.update(input);
    }
    assert!(quiz.is_finished());
    assert_eq!(total(&quiz.scores), 1.0f32 + 1.0f32 + 2.0f32 / 3.0f32);
}
