use trache::removal::{
    bulk_prompt_message, plan_removal, prompt_once_triggered, prompt_text,
    resolve_interactive_mode, resolve_preserve_root, FileKind, InteractiveMode, PreserveRoot,
    PromptKind, RemovalPlan, TrashOptions,
};

fn opts() -> TrashOptions {
    TrashOptions {
        dir: false,
        recursive: false,
        force: false,
        interactive: InteractiveMode::Never,
        verbose: false,
        dry_run: false,
        preserve_root: PreserveRoot::Yes,
        one_file_system: false,
    }
}

#[test]
fn test_interactive_mode_precedence() {
    assert_eq!(
        resolve_interactive_mode(true, true, true, Some(InteractiveMode::Once)),
        InteractiveMode::Never
    );
    assert_eq!(resolve_interactive_mode(false, true, false, None), InteractiveMode::Always);
    assert_eq!(resolve_interactive_mode(false, false, true, None), InteractiveMode::Once);
    assert_eq!(
        resolve_interactive_mode(false, false, false, Some(InteractiveMode::Always)),
        InteractiveMode::Always
    );
    assert_eq!(resolve_interactive_mode(false, false, false, None), InteractiveMode::Never);
}

#[test]
fn test_preserve_root_precedence() {
    assert_eq!(resolve_preserve_root(true, Some(PreserveRoot::All)), PreserveRoot::No);
    assert_eq!(resolve_preserve_root(false, Some(PreserveRoot::All)), PreserveRoot::All);
    assert_eq!(resolve_preserve_root(false, None), PreserveRoot::Yes);
}

#[test]
fn test_prompt_once_trigger() {
    assert!(prompt_once_triggered(InteractiveMode::Once, 4, false));
    assert!(prompt_once_triggered(InteractiveMode::Once, 1, true));
    assert!(!prompt_once_triggered(InteractiveMode::Once, 3, false));
    assert!(!prompt_once_triggered(InteractiveMode::Always, 10, true));
}

#[test]
fn test_bulk_prompt_message() {
    assert_eq!(bulk_prompt_message(5, false), "trache: remove 5 argument(s)? ");
    assert_eq!(bulk_prompt_message(2, true), "trache: remove 2 argument(s) recursively? ");
}

#[test]
fn test_plan_regular_file() {
    let o = opts();
    assert_eq!(plan_removal(FileKind::Regular, None, &o, false), RemovalPlan::Proceed);
    let mut i = opts();
    i.interactive = InteractiveMode::Always;
    assert_eq!(
        plan_removal(FileKind::Regular, None, &i, false),
        RemovalPlan::Prompt(PromptKind::RemoveRegular)
    );
    // A bulk prompt already given suppresses the per-file prompt.
    assert_eq!(plan_removal(FileKind::Regular, None, &i, true), RemovalPlan::Proceed);
}

#[test]
fn test_plan_missing() {
    let mut f = opts();
    f.force = true;
    assert_eq!(plan_removal(FileKind::Missing, None, &f, false), RemovalPlan::Ignore);
    assert_eq!(plan_removal(FileKind::Missing, None, &opts(), false), RemovalPlan::FailMissing);
}

#[test]
fn test_plan_directory() {
    assert_eq!(
        plan_removal(FileKind::Directory, None, &opts(), false),
        RemovalPlan::FailIsDirectory
    );
    let mut r = opts();
    r.recursive = true;
    assert_eq!(plan_removal(FileKind::Directory, None, &r, false), RemovalPlan::Proceed);
    let mut d = opts();
    d.dir = true;
    assert_eq!(
        plan_removal(FileKind::Directory, Some(true), &d, false),
        RemovalPlan::Proceed
    );
    assert_eq!(
        plan_removal(FileKind::Directory, Some(false), &d, false),
        RemovalPlan::FailDirectoryNotEmpty
    );
}

#[test]
fn test_plan_symlink_prompt() {
    let mut i = opts();
    i.interactive = InteractiveMode::Always;
    assert_eq!(
        plan_removal(FileKind::Symlink, None, &i, false),
        RemovalPlan::Prompt(PromptKind::RemoveSymlink)
    );
}

#[test]
fn test_prompt_texts() {
    assert_eq!(
        prompt_text(PromptKind::RemoveDirRecursively, "d"),
        "trache: remove directory 'd' recursively? "
    );
    assert_eq!(prompt_text(PromptKind::RemoveDir, "d"), "trache: remove directory 'd'? ");
    assert_eq!(
        prompt_text(PromptKind::RemoveSymlink, "l"),
        "trache: remove symbolic link 'l'? "
    );
    assert_eq!(
        prompt_text(PromptKind::RemoveRegular, "f"),
        "trache: remove regular file 'f'? "
    );
}
