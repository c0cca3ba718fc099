//! Decisions of the plain removal path: which interactive mode and
//! root-protection mode the flags resolve to, when the bulk prompt fires,
//! and what to do with one argument given what the filesystem probe found.
//! The probes, prompts and the trash-store call themselves stay with the
//! caller.

use vstd::prelude::*;

use crate::chars::{append_dec, dec_str};

verus! {

/// When to prompt before removing.
#[derive(Clone, Copy, PartialEq, Eq, Debug, Structural)]
pub enum InteractiveMode {
    Never,
    Once,
    Always,
}

/// How `/` and cross-device arguments are protected.
#[derive(Clone, Copy, PartialEq, Eq, Debug, Structural)]
pub enum PreserveRoot {
    No,
    Yes,
    All,
}

/// The removal flags, resolved.
#[derive(Clone, Copy)]
pub struct TrashOptions {
    pub dir: bool,
    pub recursive: bool,
    pub force: bool,
    pub interactive: InteractiveMode,
    pub verbose: bool,
    pub dry_run: bool,
    pub preserve_root: PreserveRoot,
    pub one_file_system: bool,
}

/// What a probe that does not follow the final symlink found at a path.
#[derive(Clone, Copy, PartialEq, Eq, Debug, Structural)]
pub enum FileKind {
    Missing,
    Directory,
    Symlink,
    Regular,
}

/// Which confirmation a removal asks for.
#[derive(Clone, Copy, PartialEq, Eq, Debug, Structural)]
pub enum PromptKind {
    RemoveDirRecursively,
    RemoveDir,
    RemoveSymlink,
    RemoveRegular,
}

/// What to do with one argument.
#[derive(Clone, Copy, PartialEq, Eq, Debug, Structural)]
pub enum RemovalPlan {
    /// Missing and forced: not an error, nothing to do.
    Ignore,
    /// Missing without force: surface the probe's error.
    FailMissing,
    /// Ask first; yes proceeds, no does nothing.
    Prompt(PromptKind),
    /// Trash it (or, in a dry run, announce what would be trashed).
    Proceed,
    /// A directory, but neither recursive nor directory removal was asked.
    FailIsDirectory,
    /// Directory removal was asked, but the directory is not empty.
    FailDirectoryNotEmpty,
}

/// The flag precedence for the interactive mode: force wins, then the
/// short prompt flags, then an explicit `interactive` choice; the default
/// is never to prompt.
pub open spec fn interactive_mode_spec(
    force: bool,
    prompt_always: bool,
    prompt_once: bool,
    interactive: Option<InteractiveMode>,
) -> InteractiveMode {
    if force {
        InteractiveMode::Never
    } else if prompt_always {
        InteractiveMode::Always
    } else if prompt_once {
        InteractiveMode::Once
    } else {
        match interactive {
            Option::Some(m) => m,
            Option::None => InteractiveMode::Never,
        }
    }
}

/// Resolves the prompting flags.
pub fn resolve_interactive_mode(
    force: bool,
    prompt_always: bool,
    prompt_once: bool,
    interactive: Option<InteractiveMode>,
) -> (r: InteractiveMode)
    ensures
        r == interactive_mode_spec(force, prompt_always, prompt_once, interactive),
{
    if force {
        InteractiveMode::Never
    } else if prompt_always {
        InteractiveMode::Always
    } else if prompt_once {
        InteractiveMode::Once
    } else {
        match interactive {
            Option::Some(m) => m,
            Option::None => InteractiveMode::Never,
        }
    }
}

/// Resolves the root-protection flags: an explicit `--no-preserve-root`
/// wins, then an explicit mode; the default protects `/`.
pub fn resolve_preserve_root(no_preserve_root: bool, preserve_root: Option<PreserveRoot>) -> (r:
    PreserveRoot)
    ensures
        r == (if no_preserve_root {
            PreserveRoot::No
        } else {
            match preserve_root {
                Option::Some(m) => m,
                Option::None => PreserveRoot::Yes,
            }
        }),
{
    if no_preserve_root {
        PreserveRoot::No
    } else {
        match preserve_root {
            Option::Some(m) => m,
            Option::None => PreserveRoot::Yes,
        }
    }
}

/// Whether the once-mode bulk prompt fires: more than three arguments, or a
/// recursive removal.
pub fn prompt_once_triggered(interactive: InteractiveMode, n_files: usize, recursive: bool) -> (r:
    bool)
    ensures
        r == (interactive is Once && (n_files > 3 || recursive)),
{
    match interactive {
        InteractiveMode::Once => n_files > 3 || recursive,
        _ => false,
    }
}

/// The bulk prompt's text.
pub fn bulk_prompt_message(n_files: usize, recursive: bool) -> (r: String)
    ensures
        recursive ==> r@ == "trache: remove "@ + dec_str(n_files as nat)
            + " argument(s) recursively? "@,
        !recursive ==> r@ == "trache: remove "@ + dec_str(n_files as nat) + " argument(s)? "@,
{
    let mut s = String::from_str("trache: remove ");
    append_dec(&mut s, n_files);
    if recursive {
        s.append(" argument(s) recursively? ");
        proof {
            assert(s@ =~= "trache: remove "@ + dec_str(n_files as nat)
                + " argument(s) recursively? "@);
        }
    } else {
        s.append(" argument(s)? ");
        proof {
            assert(s@ =~= "trache: remove "@ + dec_str(n_files as nat) + " argument(s)? "@);
        }
    }
    s
}

/// The confirmation text for one removal.
pub fn prompt_text(kind: PromptKind, path: &str) -> (r: String)
    ensures
        kind is RemoveDirRecursively ==> r@ == "trache: remove directory '"@ + path@
            + "' recursively? "@,
        kind is RemoveDir ==> r@ == "trache: remove directory '"@ + path@ + "'? "@,
        kind is RemoveSymlink ==> r@ == "trache: remove symbolic link '"@ + path@ + "'? "@,
        kind is RemoveRegular ==> r@ == "trache: remove regular file '"@ + path@ + "'? "@,
{
    match kind {
        PromptKind::RemoveDirRecursively => {
            let mut s = String::from_str("trache: remove directory '");
            s.append(path);
            s.append("' recursively? ");
            proof {
                assert(s@ =~= "trache: remove directory '"@ + path@ + "' recursively? "@);
            }
            s
        },
        PromptKind::RemoveDir => {
            let mut s = String::from_str("trache: remove directory '");
            s.append(path);
            s.append("'? ");
            proof {
                assert(s@ =~= "trache: remove directory '"@ + path@ + "'? "@);
            }
            s
        },
        PromptKind::RemoveSymlink => {
            let mut s = String::from_str("trache: remove symbolic link '");
            s.append(path);
            s.append("'? ");
            proof {
                assert(s@ =~= "trache: remove symbolic link '"@ + path@ + "'? "@);
            }
            s
        },
        PromptKind::RemoveRegular => {
            let mut s = String::from_str("trache: remove regular file '");
            s.append(path);
            s.append("'? ");
            proof {
                assert(s@ =~= "trache: remove regular file '"@ + path@ + "'? "@);
            }
            s
        },
    }
}

/// `would trash 'path'`
pub fn would_trash_line(path: &str) -> (r: String)
    ensures
        r@ == "would trash '"@ + path@ + "'"@,
{
    let mut s = String::from_str("would trash '");
    s.append(path);
    s.append("'");
    proof {
        assert(s@ =~= "would trash '"@ + path@ + "'"@);
    }
    s
}

/// `trashed 'path'`
pub fn trashed_line(path: &str) -> (r: String)
    ensures
        r@ == "trashed '"@ + path@ + "'"@,
{
    let mut s = String::from_str("trashed '");
    s.append(path);
    s.append("'");
    proof {
        assert(s@ =~= "trashed '"@ + path@ + "'"@);
    }
    s
}

/// What one argument's removal comes to: given what the probe found,
/// whether a `-d` directory turned out empty, the flags, and whether a
/// bulk prompt already covered this run.
pub open spec fn removal_plan_spec(
    kind: FileKind,
    empty: Option<bool>,
    opts: TrashOptions,
    already_prompted: bool,
) -> RemovalPlan {
    let should_prompt = opts.interactive is Always && !already_prompted;
    match kind {
        FileKind::Missing => if opts.force {
            RemovalPlan::Ignore
        } else {
            RemovalPlan::FailMissing
        },
        FileKind::Directory => if opts.recursive {
            if should_prompt {
                RemovalPlan::Prompt(PromptKind::RemoveDirRecursively)
            } else {
                RemovalPlan::Proceed
            }
        } else if opts.dir {
            if empty == Option::Some(true) {
                if should_prompt {
                    RemovalPlan::Prompt(PromptKind::RemoveDir)
                } else {
                    RemovalPlan::Proceed
                }
            } else {
                RemovalPlan::FailDirectoryNotEmpty
            }
        } else {
            RemovalPlan::FailIsDirectory
        },
        FileKind::Symlink => if should_prompt {
            RemovalPlan::Prompt(PromptKind::RemoveSymlink)
        } else {
            RemovalPlan::Proceed
        },
        FileKind::Regular => if should_prompt {
            RemovalPlan::Prompt(PromptKind::RemoveRegular)
        } else {
            RemovalPlan::Proceed
        },
    }
}

/// Plans one argument's removal; a `Prompt` plan proceeds only on a yes.
pub fn plan_removal(
    kind: FileKind,
    empty: Option<bool>,
    opts: &TrashOptions,
    already_prompted: bool,
) -> (r: RemovalPlan)
    requires
        (kind is Directory && !opts.recursive && opts.dir) ==> empty is Some,
    ensures
        r == removal_plan_spec(kind, empty, *opts, already_prompted),
{
    let should_prompt = match opts.interactive {
        InteractiveMode::Always => !already_prompted,
        _ => false,
    };
    match kind {
        FileKind::Missing => {
            if opts.force {
                RemovalPlan::Ignore
            } else {
                RemovalPlan::FailMissing
            }
        },
        FileKind::Directory => {
            if opts.recursive {
                if should_prompt {
                    RemovalPlan::Prompt(PromptKind::RemoveDirRecursively)
                } else {
                    RemovalPlan::Proceed
                }
            } else if opts.dir {
                let is_empty = match empty {
                    Option::Some(b) => b,
                    Option::None => false,
                };
                if is_empty {
                    if should_prompt {
                        RemovalPlan::Prompt(PromptKind::RemoveDir)
                    } else {
                        RemovalPlan::Proceed
                    }
                } else {
                    RemovalPlan::FailDirectoryNotEmpty
                }
            } else {
                RemovalPlan::FailIsDirectory
            }
        },
        FileKind::Symlink => {
            if should_prompt {
                RemovalPlan::Prompt(PromptKind::RemoveSymlink)
            } else {
                RemovalPlan::Proceed
            }
        },
        FileKind::Regular => {
            if should_prompt {
                RemovalPlan::Prompt(PromptKind::RemoveRegular)
            } else {
                RemovalPlan::Proceed
            }
        },
    }
}

} // verus!
