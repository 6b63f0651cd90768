use connection_protocol::termui::{
    choose_option, choose_option_or_cancel, is_same_letter, match_word, matching_options, options,
    try_input, try_options, word_matches, Choice, Confirm,
};

#[test]
fn please_say_yes() {
    let yeses = vec!["yes", "YES", "yEs", "YeS", "yES", "Yes", "y", "Y", "yEs", "yeS"];
    for yes in yeses {
        assert_eq!(match_word(yes, Confirm::Yes.as_str(), None), true);
    }
}

#[test]
fn please_say_no() {
    let nos = vec!["no", "NO", "nO", "No", "n", "N"];
    for no in nos {
        assert_eq!(match_word(no, Confirm::No.as_str(), None), true);
    }
}

#[test]
fn words_that_do_not_match() {
    assert!(!match_word("no", "Yes", None));
    assert!(!match_word("yea", "Yes", None));
    assert!(!match_word("x", "Cancel", None));
}

#[test]
fn matching_stops_at_the_shorter_text() {
    assert!(match_word("", "Yes", None));
    assert!(match_word("yesterday", "Yes", None));
    assert!(match_word("c", "Cancel", None));
}

#[test]
fn matching_trims_both_sides() {
    assert!(match_word("  yes \n", "Yes", None));
    assert!(match_word("yes", "  Yes  ", None));
    assert!(!match_word("  no ", " Yes ", None));
}

#[test]
fn a_number_matches_its_index() {
    assert!(match_word("2", "zzz", Some(2)));
    assert!(match_word(" 2 ", "zzz", Some(2)));
    assert!(!match_word("2", "zzz", Some(3)));
    assert!(!match_word("2", "zzz", None));
    assert!(!match_word("two", "zzz", Some(2)));
}

#[test]
fn a_number_is_a_plus_sign_and_digits_at_most() {
    assert!(match_word("+2", "zzz", Some(2)));
    assert!(match_word("002", "zzz", Some(2)));
    assert!(match_word("0", "zzz", Some(0)));
    assert!(!match_word("2x", "zzz", Some(2)));
    assert!(!match_word("-2", "zzz", Some(2)));
    assert!(!match_word("+", "zzz", Some(0)));
    assert!(!match_word("++2", "zzz", Some(2)));
    assert!(!match_word("2 2", "zzz", Some(2)));
    assert!(!match_word("2_0", "zzz", Some(20)));
    assert!(!match_word("\u{0662}", "zzz", Some(2)));
    assert!(!match_word("99999999999999999999999999", "zzz", Some(2)));
    assert!(match_word(&usize::MAX.to_string(), "zzz", Some(usize::MAX)));
}

#[test]
fn word_matches_takes_the_number_as_given() {
    assert!(word_matches("abc", "xyz", Some(1), Some(1)));
    assert!(!word_matches("abc", "xyz", Some(1), Some(2)));
    assert!(!word_matches("abc", "xyz", None, Some(2)));
    assert!(!word_matches("abc", "xyz", Some(2), None));
    assert!(word_matches("AB", "abc", None, None));
}

#[test]
fn letters_are_compared_without_case() {
    assert!(is_same_letter('a', 'A'));
    assert!(is_same_letter('Ä', 'ä'));
    assert!(is_same_letter('7', '7'));
    assert!(!is_same_letter('a', 'b'));
    assert!(!is_same_letter('İ', 'i'));
}

#[test]
fn blank_lines_are_no_input() {
    assert_eq!(try_input(""), None);
    assert_eq!(try_input("   \t\n"), None);
    assert_eq!(try_input("  hello world \n"), Some("hello world".to_string()));
    assert_eq!(try_input("x"), Some("x".to_string()));
    assert_eq!(try_input("\u{3000}x y\u{00A0}\r\n"), Some("x y".to_string()));
    assert_eq!(try_input("\u{2003}\u{0085}"), None);
}

#[test]
fn confirm_words() {
    assert_eq!(Confirm::Yes.as_str(), "Yes");
    assert_eq!(Confirm::No.as_str(), "No");
    assert_eq!(Confirm::Cancel.as_str(), "Cancel");
    assert!(Confirm::Yes.is_ok());
    assert!(!Confirm::No.is_ok());
    assert!(!Confirm::Cancel.is_ok());
    assert_eq!(Confirm::default(), Confirm::Cancel);
}

#[test]
fn prompt_answers() {
    assert_eq!(Confirm::prompt(&Confirm::No, "\n"), Confirm::No);
    assert_eq!(Confirm::prompt(&Confirm::Yes, "   "), Confirm::Yes);
    assert_eq!(Confirm::prompt(&Confirm::No, "y\n"), Confirm::Yes);
    assert_eq!(Confirm::prompt(&Confirm::Yes, "NO\n"), Confirm::No);
    assert_eq!(Confirm::prompt(&Confirm::Yes, "can\n"), Confirm::Cancel);
    assert_eq!(Confirm::prompt(&Confirm::Yes, "what?\n"), Confirm::Cancel);
}

#[test]
fn yes_or_no_answers() {
    assert_eq!(Confirm::yesno(Some(true), "\n"), Some(true));
    assert_eq!(Confirm::yesno(Some(false), ""), Some(false));
    assert_eq!(Confirm::yesno(None, "\n"), None);
    assert_eq!(Confirm::yesno(None, "Y\n"), Some(true));
    assert_eq!(Confirm::yesno(Some(true), "n\n"), Some(false));
    assert_eq!(Confirm::yesno(Some(true), "maybe\n"), None);
}

#[test]
fn options_that_an_input_names() {
    let menu = ["Login", "Register", "Options", "Exit"];
    assert_eq!(matching_options("l", &menu, None, false), vec![0]);
    assert_eq!(matching_options("EXIT", &menu, None, false), vec![3]);
    assert_eq!(matching_options("", &menu, None, false), vec![0, 1, 2, 3]);
    assert_eq!(matching_options("x", &menu, None, false), Vec::<usize>::new());
    assert_eq!(matching_options("x", &menu, Some(2), false), Vec::<usize>::new());
    assert_eq!(matching_options("x", &menu, Some(2), true), vec![2]);
    assert_eq!(matching_options("r", &menu, Some(3), true), vec![1, 3]);
    let twins = ["save", "Save as", "quit"];
    assert_eq!(matching_options("sa", &twins, None, false), vec![0, 1]);
}

#[test]
fn one_named_option_is_picked() {
    assert_eq!(choose_option(&vec![2], None, 4), Choice::Picked(2));
    assert_eq!(choose_option(&vec![2], Some(1), 4), Choice::Picked(2));
    assert_eq!(choose_option(&vec![0, 2], Some(1), 4), Choice::Ambiguous);
    assert_eq!(choose_option(&Vec::new(), Some(1), 4), Choice::Picked(0));
    assert_eq!(choose_option(&Vec::new(), Some(4), 4), Choice::Picked(3));
    assert_eq!(choose_option(&Vec::new(), Some(5), 4), Choice::Unknown);
    assert_eq!(choose_option(&Vec::new(), Some(0), 4), Choice::Unknown);
    assert_eq!(choose_option(&Vec::new(), None, 4), Choice::Unknown);
}

#[test]
fn a_choice_may_be_cancelled() {
    assert_eq!(choose_option_or_cancel(true, false, &vec![1], Some(2), 4), Choice::Cancelled);
    assert_eq!(choose_option_or_cancel(false, true, &vec![1], Some(2), 4), Choice::Cancelled);
    assert_eq!(choose_option_or_cancel(false, false, &vec![1], Some(0), 4), Choice::Cancelled);
    assert_eq!(choose_option_or_cancel(false, false, &vec![1], Some(2), 4), Choice::Picked(1));
    assert_eq!(choose_option_or_cancel(false, false, &vec![0, 1, 3], None, 4), Choice::Picked(3));
    assert_eq!(choose_option_or_cancel(false, false, &Vec::new(), Some(4), 4), Choice::Picked(3));
    assert_eq!(choose_option_or_cancel(false, false, &Vec::new(), Some(5), 4), Choice::Unknown);
    assert_eq!(choose_option_or_cancel(false, false, &Vec::new(), None, 4), Choice::Unknown);
}

#[test]
fn a_line_chooses_from_a_menu() {
    let menu = ["Login", "Register", "Options", "Exit"];
    assert_eq!(options("login\n", &menu), Choice::Picked(0));
    assert_eq!(options("  e ", &menu), Choice::Picked(3));
    assert_eq!(options("2", &menu), Choice::Picked(1));
    assert_eq!(options("4", &menu), Choice::Picked(3));
    assert_eq!(options("5", &menu), Choice::Unknown);
    assert_eq!(options("0", &menu), Choice::Unknown);
    assert_eq!(options("what", &menu), Choice::Unknown);
    assert_eq!(options("", &menu), Choice::Ambiguous);
    let twins = ["save", "Save as", "quit"];
    assert_eq!(options("s", &twins), Choice::Ambiguous);
    // The longer input still agrees with the shorter option as far as that goes.
    assert_eq!(options("save a", &twins), Choice::Ambiguous);
    assert_eq!(options("2", &twins), Choice::Picked(1));
    assert_eq!(options("q", &twins), Choice::Picked(2));
}

#[test]
fn a_line_chooses_or_cancels() {
    let menu = ["Login", "Register", "Options", "Exit"];
    assert_eq!(try_options("cancel", &menu), Choice::Cancelled);
    assert_eq!(try_options("C", &menu), Choice::Cancelled);
    assert_eq!(try_options("", &menu), Choice::Cancelled);
    assert_eq!(try_options("  \n", &menu), Choice::Cancelled);
    assert_eq!(try_options("0", &menu), Choice::Cancelled);
    assert_eq!(try_options("reg", &menu), Choice::Picked(1));
    // A number names the option at that place, counted from zero.
    assert_eq!(try_options("1", &menu), Choice::Picked(1));
    assert_eq!(try_options("3", &menu), Choice::Picked(3));
    // Beyond the places it is a number counted from one.
    assert_eq!(try_options("4", &menu), Choice::Picked(3));
    assert_eq!(try_options("5", &menu), Choice::Unknown);
    assert_eq!(try_options("what", &menu), Choice::Unknown);
    let twins = ["save", "Save as", "quit"];
    assert_eq!(try_options("s", &twins), Choice::Picked(1));
}
