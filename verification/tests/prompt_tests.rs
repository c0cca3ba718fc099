use trache::resolver::{
    collision_choice_name, collision_prompt_step, prompt_yes_line, selection_prompt_step,
    twin_prompt_step, CollisionChoice, SelectionStep, TwinChoice, TwinStep,
};

#[test]
fn test_prompt_yes_y() {
    assert!(prompt_yes_line(Some("y\n")));
}

#[test]
fn test_prompt_yes_yes() {
    assert!(prompt_yes_line(Some("yes\n")));
    assert!(prompt_yes_line(Some("YES\n")));
    assert!(prompt_yes_line(Some("  y  \n")));
}

#[test]
fn test_prompt_yes_no() {
    assert!(!prompt_yes_line(Some("n\n")));
    assert!(!prompt_yes_line(Some("yess\n")));
    assert!(!prompt_yes_line(Some("\n")));
}

#[test]
fn test_prompt_yes_eof() {
    assert!(!prompt_yes_line(None));
}

#[test]
fn test_prompt_collision_overwrite() {
    assert_eq!(collision_prompt_step(Some("o\n")), Some(CollisionChoice::Overwrite));
    assert_eq!(collision_prompt_step(Some("O\n")), Some(CollisionChoice::Overwrite));
}

#[test]
fn test_prompt_collision_keep_both() {
    assert_eq!(collision_prompt_step(Some("k\n")), Some(CollisionChoice::KeepBoth));
}

#[test]
fn test_prompt_collision_none() {
    assert_eq!(collision_prompt_step(Some("n\n")), Some(CollisionChoice::Skip));
}

#[test]
fn test_prompt_collision_quit() {
    assert_eq!(collision_prompt_step(Some("q\n")), Some(CollisionChoice::Quit));
}

#[test]
fn test_prompt_collision_invalid_then_valid() {
    assert_eq!(collision_prompt_step(Some("x\n")), None);
    assert_eq!(collision_prompt_step(Some("o\n")), Some(CollisionChoice::Overwrite));
}

#[test]
fn test_prompt_collision_eof() {
    assert_eq!(collision_prompt_step(None), Some(CollisionChoice::Quit));
}

#[test]
fn test_prompt_twins_all() {
    assert_eq!(twin_prompt_step(Some("a\n")), TwinStep::Done(TwinChoice::All));
}

#[test]
fn test_prompt_twins_none() {
    assert_eq!(twin_prompt_step(Some("n\n")), TwinStep::Done(TwinChoice::Skip));
}

#[test]
fn test_prompt_twins_quit() {
    assert_eq!(twin_prompt_step(Some("q\n")), TwinStep::Done(TwinChoice::Quit));
}

#[test]
fn test_prompt_twins_list_then_all() {
    assert_eq!(twin_prompt_step(Some("l\n")), TwinStep::ShowList);
    assert_eq!(twin_prompt_step(Some("a\n")), TwinStep::Done(TwinChoice::All));
}

#[test]
fn test_prompt_twins_some_single() {
    assert_eq!(twin_prompt_step(Some("s\n")), TwinStep::EnterSelection);
    match selection_prompt_step(Some("2\n"), 3) {
        SelectionStep::Done(Some(sel)) => assert_eq!(sel, vec![2]),
        _ => panic!("expected a selection"),
    }
}

#[test]
fn test_prompt_twins_some_range() {
    assert_eq!(twin_prompt_step(Some("s\n")), TwinStep::EnterSelection);
    match selection_prompt_step(Some("1,3\n"), 3) {
        SelectionStep::Done(Some(sel)) => assert_eq!(sel, vec![1, 3]),
        _ => panic!("expected a selection"),
    }
}

#[test]
fn test_prompt_twins_some_invalid_then_valid() {
    match selection_prompt_step(Some("abc\n"), 3) {
        SelectionStep::Retry(m) => assert!(m.starts_with("Invalid selection: ")),
        _ => panic!("expected a retry"),
    }
    match selection_prompt_step(Some("2\n"), 3) {
        SelectionStep::Done(Some(sel)) => assert_eq!(sel, vec![2]),
        _ => panic!("expected a selection"),
    }
}

#[test]
fn test_prompt_twins_eof() {
    assert_eq!(twin_prompt_step(None), TwinStep::Done(TwinChoice::Quit));
}

#[test]
fn test_prompt_twins_some_eof_during_selection() {
    // End of input during selection abandons this conflict, not the run.
    assert_eq!(twin_prompt_step(Some("s\n")), TwinStep::EnterSelection);
    match selection_prompt_step(None, 3) {
        SelectionStep::Done(None) => {},
        _ => panic!("expected the conflict abandoned"),
    }
}

#[test]
fn test_prompt_twins_invalid_then_valid() {
    assert_eq!(twin_prompt_step(Some("x\n")), TwinStep::AskAgain);
    assert_eq!(twin_prompt_step(Some("z\n")), TwinStep::AskAgain);
    assert_eq!(twin_prompt_step(Some("a\n")), TwinStep::Done(TwinChoice::All));
}

#[test]
fn test_prompt_selection_blank_and_empty() {
    assert_eq!(selection_prompt_step(Some("   \n"), 3), SelectionStep::RetrySilent);
    match selection_prompt_step(Some(",\n"), 3) {
        SelectionStep::Retry(m) => assert_eq!(m, "No items selected."),
        _ => panic!("expected a retry"),
    }
}

#[test]
fn test_collision_choice_names() {
    assert_eq!(collision_choice_name(CollisionChoice::Overwrite), "overwrite");
    assert_eq!(collision_choice_name(CollisionChoice::KeepBoth), "keep both");
    assert_eq!(collision_choice_name(CollisionChoice::Skip), "none");
    assert_eq!(collision_choice_name(CollisionChoice::Quit), "quit");
}
