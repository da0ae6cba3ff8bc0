use stamp_art::line::{line_step, LineStep};

#[test]
fn empty_read_is_asked_again() {
    assert_eq!(line_step(""), LineStep::Retry);
}

#[test]
fn answer_is_trimmed() {
    assert_eq!(line_step("  picture.png \n"), LineStep::Done("picture.png".to_string()));
    assert_eq!(line_step("a b\r\n"), LineStep::Done("a b".to_string()));
}

#[test]
fn blank_line_is_an_empty_answer() {
    assert_eq!(line_step("\n"), LineStep::Done(String::new()));
    assert_eq!(line_step(" \t \n"), LineStep::Done(String::new()));
}

#[test]
fn unicode_white_space_is_trimmed() {
    assert_eq!(
        line_step("\u{3000}\u{a0}x y\u{85}\u{2029}"),
        LineStep::Done("x y".to_string())
    );
}

#[test]
fn trimming_twice_changes_nothing() {
    let once = match line_step("  \t kot.jpg  \n") {
        LineStep::Done(t) => t,
        LineStep::Retry => panic!("a line was read"),
    };
    assert_eq!(line_step(&once), LineStep::Done(once.clone()));
}

#[test]
fn white_space_around_does_not_change_the_answer() {
    assert_eq!(line_step(" \u{2003}frame\t"), line_step("frame"));
}
