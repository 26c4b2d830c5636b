use memo::grammar::Shape;
use memo::parse::{
    characters, count_marked, is_blank_char, parse_answers, parse_block, parse_choice,
    parse_choices, parse_line, parse_multi, parse_multis, parse_option, parse_problem,
    parse_question, parse_questionaire, parse_tab, parse_text, parse_ws, strip_flags, ParseError,
};
use memo::types::{Answers, Question};
use memo::ui::input::{decode, Input, Key};
use memo::ui::widget::{
    answer_color, contains_text, count_hits, matches_ignoring_case, picks_only, toggle, Highlight,
    QuestionWidgetState,
};

fn doc(text: &str) -> Vec<char> {
    text.chars().collect()
}

fn flagged(items: &[(&str, bool)]) -> Vec<(String, bool)> {
    items.iter().map(|(s, c)| (s.to_string(), *c)).collect()
}

#[test]
fn characters_are_those_of_the_string() {
    assert_eq!(characters("aé\n"), vec!['a', 'é', '\n']);
    assert_eq!(characters(""), Vec::<char>::new());
}

#[test]
fn blanks_are_four_characters() {
    for c in ['\r', '\n', '\t', ' '] {
        assert!(is_blank_char(c));
    }
    for c in ['a', '\u{a0}', '\u{b}', '0'] {
        assert!(!is_blank_char(c));
    }
}

#[test]
fn indent_is_a_tab_or_four_spaces() {
    assert_eq!(parse_tab(&doc("\tx"), 0), Some(1));
    assert_eq!(parse_tab(&doc("    x"), 0), Some(4));
    assert_eq!(parse_tab(&doc("     x"), 1), Some(5));
    assert_eq!(parse_tab(&doc("   x"), 0), None);
    assert_eq!(parse_tab(&doc("x\t"), 0), None);
    assert_eq!(parse_tab(&doc("\t"), 1), None);
    assert_eq!(parse_tab(&doc("\t"), 9), None);
}

#[test]
fn blanks_are_skipped_up_to_the_first_other_character() {
    assert_eq!(parse_ws(&doc(" \r\n\tx "), 0), 4);
    assert_eq!(parse_ws(&doc("x "), 0), 0);
    assert_eq!(parse_ws(&doc("  "), 0), 2);
    assert_eq!(parse_ws(&doc("  "), 5), 5);
}

#[test]
fn problem_line_needs_text_and_newline() {
    assert_eq!(parse_problem(&doc("ab \ncd"), 0), Some(("ab ".to_string(), 4)));
    assert_eq!(parse_problem(&doc("\ncd"), 0), None);
    assert_eq!(parse_problem(&doc("cd"), 0), None);
    assert_eq!(parse_problem(&doc(""), 0), None);
    assert_eq!(parse_problem(&doc("ab\n"), 3), None);
}

#[test]
fn option_text_is_trimmed() {
    assert_eq!(parse_option(&doc(" \ta b\t \r\nx"), 0), Some(("a b".to_string(), 9)));
    assert_eq!(parse_option(&doc("   \n"), 0), Some(("".to_string(), 4)));
    assert_eq!(parse_option(&doc("\n"), 0), None);
    assert_eq!(parse_option(&doc("ab"), 0), None);
}

#[test]
fn multi_line_needs_plus_or_minus() {
    assert_eq!(parse_multi(&doc("\t+ yes\n"), 0), Some((("yes".to_string(), true), 7)));
    assert_eq!(parse_multi(&doc("    -no\n"), 0), Some((("no".to_string(), false), 8)));
    assert_eq!(parse_multi(&doc("\tno\n"), 0), None);
    assert_eq!(parse_multi(&doc("+yes\n"), 0), None);
    assert_eq!(parse_multi(&doc("\t+\n"), 0), None);
    assert_eq!(parse_multi(&doc("\t"), 0), None);
}

#[test]
fn choice_line_may_have_a_star() {
    assert_eq!(parse_choice(&doc("\t*yes\n"), 0), Some((("yes".to_string(), true), 6)));
    assert_eq!(parse_choice(&doc("\tno\n"), 0), Some((("no".to_string(), false), 4)));
    assert_eq!(parse_choice(&doc("\t+x\n"), 0), Some((("+x".to_string(), false), 4)));
    assert_eq!(parse_choice(&doc("\t*\n"), 0), None);
    assert_eq!(parse_choice(&doc("no\n"), 0), None);
}

#[test]
fn text_line_needs_an_arrow() {
    assert_eq!(parse_text(&doc("\t> Paris \n"), 0), Some(("Paris".to_string(), 10)));
    assert_eq!(parse_text(&doc("\tParis\n"), 0), None);
    assert_eq!(parse_text(&doc(">Paris\n"), 0), None);
    assert_eq!(parse_text(&doc("\t>\n"), 0), None);
}

#[test]
fn line_is_read_under_the_given_shape() {
    let text = doc("\t>a\n");
    assert_eq!(parse_line(&text, 0, Shape::Text), Some((("a".to_string(), true), 4)));
    assert_eq!(parse_line(&text, 0, Shape::Choice), Some(((">a".to_string(), false), 4)));
    assert_eq!(parse_line(&text, 0, Shape::Multi), None);
}

#[test]
fn block_takes_lines_while_they_match() {
    let text = doc("\t+a\n\t-b\n\tc\n");
    assert_eq!(parse_block(&text, 0, Shape::Multi), (flagged(&[("a", true), ("b", false)]), 8));
    assert_eq!(
        parse_block(&text, 0, Shape::Choice),
        (flagged(&[("+a", false), ("-b", false), ("c", false)]), 11)
    );
    assert_eq!(parse_block(&text, 8, Shape::Multi), (vec![], 8));
    assert_eq!(parse_block(&text, 0, Shape::Text), (vec![], 0));
}

#[test]
fn multis_need_two_lines() {
    assert_eq!(
        parse_multis(&doc("\t+a\n\t-b\n"), 0),
        Some((flagged(&[("a", true), ("b", false)]), 8))
    );
    assert_eq!(parse_multis(&doc("\t+a\n\tb\n"), 0), None);
    assert_eq!(parse_multis(&doc("x\n"), 0), None);
}

#[test]
fn marked_options_are_counted() {
    assert_eq!(count_marked(&flagged(&[("a", false), ("b", true), ("c", true)])), (2, 1));
    assert_eq!(count_marked(&flagged(&[("a", false), ("b", false)])), (0, 2));
    assert_eq!(count_marked(&flagged(&[("a", true)])), (1, 0));
    assert_eq!(count_marked(&flagged(&[])), (0, 0));
}

#[test]
fn flags_are_stripped_in_order() {
    assert_eq!(
        strip_flags(flagged(&[("a", false), ("b", true)])),
        vec!["a".to_string(), "b".to_string()]
    );
    assert_eq!(strip_flags(vec![]), Vec::<String>::new());
}

#[test]
fn choices_need_two_lines_and_one_mark() {
    assert_eq!(
        parse_choices(&doc("\ta\n\t*b\n\tc\n"), 0),
        Ok(Some(((vec!["a".to_string(), "b".to_string(), "c".to_string()], 1), 10)))
    );
    assert_eq!(parse_choices(&doc("\t*a\n"), 0), Ok(None));
    assert_eq!(parse_choices(&doc("x\n"), 0), Ok(None));
    assert_eq!(parse_choices(&doc("\ta\n\tb\n"), 0), Err(ParseError::Validation));
    assert_eq!(parse_choices(&doc("\t*a\n\t*b\n"), 0), Err(ParseError::Validation));
}

#[test]
fn answers_are_tried_in_order() {
    assert_eq!(
        parse_answers(&doc("\t+a\n\t+b\n"), 0),
        Ok(Some((Answers::Multi(flagged(&[("a", true), ("b", true)])), 8)))
    );
    assert_eq!(
        parse_answers(&doc("\t+a\n\t*b\n"), 0),
        Ok(Some((Answers::Choice((vec!["+a".to_string(), "b".to_string()], 1)), 8)))
    );
    assert_eq!(
        parse_answers(&doc("\t>a\nb\n"), 0),
        Ok(Some((Answers::Text(vec!["a".to_string()]), 4)))
    );
    assert_eq!(parse_answers(&doc("\ta\nb\n"), 0), Ok(None));
    assert_eq!(parse_answers(&doc("\t>a\n\tb\n"), 0), Err(ParseError::Validation));
}

#[test]
fn question_is_a_problem_and_its_answers() {
    assert_eq!(
        parse_question(&doc("??Q\n\t>a\n"), 2),
        Ok((
            Question { problem: "Q".to_string(), answers: Answers::Text(vec!["a".to_string()]) },
            8
        ))
    );
    assert_eq!(parse_question(&doc("Q\n"), 0), Err(ParseError::Format { position: 0 }));
    assert_eq!(parse_question(&doc("Q\n\ta\n\tb\n"), 0), Err(ParseError::Validation));
    assert_eq!(parse_question(&doc("Q"), 0), Err(ParseError::Format { position: 0 }));
}

#[test]
fn questions_are_read_to_the_end() {
    let text = doc("Q\n\t>a\nR\n\t>b\n");
    assert_eq!(parse_questionaire(&text, 0).unwrap().questions.len(), 2);
    assert_eq!(parse_questionaire(&text, 6).unwrap().questions.len(), 1);
    assert_eq!(parse_questionaire(&text, 12).unwrap().questions.len(), 0);
    assert_eq!(parse_questionaire(&text, 1), Err(ParseError::Format { position: 1 }));
}

#[test]
fn keys_are_decoded() {
    assert_eq!(decode(Key::Enter), Some(Input::Enter));
    assert_eq!(decode(Key::Backspace), Some(Input::Back));
    assert_eq!(decode(Key::Esc), Some(Input::Escape));
    assert_eq!(decode(Key::Other), None);
    assert_eq!(decode(Key::Char('a')), Some(Input::Char('a')));
    assert_eq!(decode(Key::Char(' ')), Some(Input::Char(' ')));
    assert_eq!(decode(Key::Char('é')), Some(Input::Char('é')));
}

#[test]
fn digits_pick_options() {
    assert_eq!(decode(Key::Char('1')), Some(Input::Pick(0)));
    assert_eq!(decode(Key::Char('5')), Some(Input::Pick(4)));
    assert_eq!(decode(Key::Char('9')), Some(Input::Pick(8)));
    assert_eq!(decode(Key::Char('0')), None);
    assert_eq!(decode(Key::Char('٣')), Some(Input::Char('٣')));
}

#[test]
fn colors_follow_pick_correctness_and_reveal() {
    assert_eq!(answer_color(true, true, false), Highlight::Blue);
    assert_eq!(answer_color(true, false, false), Highlight::Blue);
    assert_eq!(answer_color(true, true, true), Highlight::Green);
    assert_eq!(answer_color(true, false, true), Highlight::Red);
    assert_eq!(answer_color(false, true, false), Highlight::Black);
    assert_eq!(answer_color(false, false, false), Highlight::Black);
    assert_eq!(answer_color(false, true, true), Highlight::Yellow);
    assert_eq!(answer_color(false, false, true), Highlight::Black);
}

#[test]
fn option_colors_of_a_choice() {
    let question = Question {
        problem: "?".to_string(),
        answers: Answers::Choice((vec!["A".to_string(), "B".to_string(), "C".to_string()], 1)),
    };
    let mut state = QuestionWidgetState::new(&question);
    state.update(Input::Pick(0));
    assert!(state.is_picked(0));
    assert!(!state.is_picked(1));
    assert_eq!(state.option_color(0), Highlight::Blue);
    assert_eq!(state.option_color(1), Highlight::Black);
    state.update(Input::Enter);
    assert_eq!(state.option_color(0), Highlight::Red);
    assert_eq!(state.option_color(1), Highlight::Yellow);
    assert_eq!(state.option_color(2), Highlight::Black);
    assert_eq!(state.option_color(3), Highlight::Black);
    assert_eq!(state.text_color(), Highlight::Black);
}

#[test]
fn option_colors_of_a_multi() {
    let question = Question {
        problem: "?".to_string(),
        answers: Answers::Multi(flagged(&[("X", true), ("Y", false), ("Z", true)])),
    };
    let mut state = QuestionWidgetState::new(&question);
    state.update(Input::Pick(0));
    state.update(Input::Pick(1));
    state.update(Input::Enter);
    assert_eq!(state.option_color(0), Highlight::Green);
    assert_eq!(state.option_color(1), Highlight::Red);
    assert_eq!(state.option_color(2), Highlight::Yellow);
}

#[test]
fn text_color_follows_reveal_and_match() {
    let question =
        Question { problem: "?".to_string(), answers: Answers::Text(vec!["Paris".to_string()]) };
    let mut state = QuestionWidgetState::new(&question);
    assert_eq!(state.text_color(), Highlight::Black);
    state.update(Input::Char('x'));
    state.update(Input::Enter);
    assert_eq!(state.text_color(), Highlight::Red);
    state.update(Input::Back);
    for c in "pARIS".chars() {
        state.update(Input::Char(c));
    }
    assert_eq!(state.text_color(), Highlight::Green);
}

#[test]
fn answer_options_are_counted_and_judged() {
    let choice = Answers::Choice((vec!["A".to_string(), "B".to_string()], 1));
    assert_eq!(choice.option_count(), 2);
    assert!(choice.is_correct(1));
    assert!(!choice.is_correct(0));
    assert!(!choice.is_correct(2));
    let multi = Answers::Multi(flagged(&[("X", true), ("Y", false), ("Z", true)]));
    assert_eq!(multi.option_count(), 3);
    assert!(multi.is_correct(0));
    assert!(!multi.is_correct(1));
    assert!(!multi.is_correct(3));
    let text = Answers::Text(vec!["a".to_string()]);
    assert_eq!(text.option_count(), 0);
    assert!(!text.is_correct(0));
}

#[test]
fn text_is_found_among_strings() {
    let list = vec!["a".to_string(), "b".to_string()];
    assert!(contains_text(&list, &"b".to_string()));
    assert!(!contains_text(&list, &"B".to_string()));
    assert!(!contains_text(&vec![], &"a".to_string()));
}

#[test]
fn case_is_ignored_on_both_sides() {
    let accepted = vec!["Paris".to_string(), "LUTÈCE".to_string()];
    assert!(matches_ignoring_case(&accepted, "pARIS"));
    assert!(matches_ignoring_case(&accepted, "lutèce"));
    assert!(!matches_ignoring_case(&accepted, "Pari"));
    assert!(!matches_ignoring_case(&accepted, " paris"));
    assert!(!matches_ignoring_case(&vec![], ""));
}

#[test]
fn only_the_wanted_pick_counts_for_a_choice() {
    assert!(picks_only(&vec![1], 1));
    assert!(picks_only(&vec![1, 1], 1));
    assert!(!picks_only(&vec![], 1));
    assert!(!picks_only(&vec![0], 1));
    assert!(!picks_only(&vec![1, 0], 1));
}

#[test]
fn hits_are_correct_picks() {
    let options = flagged(&[("X", true), ("Y", false), ("Z", true)]);
    assert_eq!(count_hits(&vec![0, 2], &options), 2);
    assert_eq!(count_hits(&vec![2, 1, 0], &options), 2);
    assert_eq!(count_hits(&vec![1], &options), 0);
    assert_eq!(count_hits(&vec![], &options), 0);
    assert_eq!(count_hits(&vec![5, 0], &options), 1);
}

#[test]
fn toggle_adds_at_the_end_and_removes_the_first() {
    let mut picked = vec![3, 1];
    toggle(&mut picked, 2);
    assert_eq!(picked, vec![3, 1, 2]);
    toggle(&mut picked, 3);
    assert_eq!(picked, vec![1, 2]);
    toggle(&mut picked, 2);
    assert_eq!(picked, vec![1]);
    toggle(&mut picked, 1);
    assert_eq!(picked, Vec::<usize>::new());
}
