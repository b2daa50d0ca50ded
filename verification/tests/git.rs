use statusline::git::{
    assemble, parse_porcelain_v2, repo_name, truncate_chars, Discovery, COMMIT_MAX_CHARS,
};

#[test]
fn parses_clean_repo_with_upstream() {
    let out = "# branch.oid abc\n# branch.head main\n# branch.upstream origin/main\n# branch.ab +0 -0\n";
    let i = parse_porcelain_v2(out);
    assert_eq!(i.branch, "main");
    assert_eq!(
        (i.ahead, i.behind, i.staged, i.modified, i.untracked),
        (0, 0, 0, 0, 0)
    );
}

#[test]
fn parses_dirty_repo() {
    let out = [
        "# branch.head feat/x\n",
        "# branch.ab +2 -1\n",
        "1 M. N... 100644 100644 100644 a b staged.rs\n",
        "1 .M N... 100644 100644 100644 a b modified.rs\n",
        "1 MM N... 100644 100644 100644 a b both.rs\n",
        "2 R. N... 100644 100644 100644 a b R100 new.rs\told.rs\n",
        "u UU N... 100644 100644 100644 100644 a b c conflicted.rs\n",
        "? untracked-1.txt\n",
        "? untracked-2.txt\n",
    ]
    .concat();
    let out = out.as_str();
    let i = parse_porcelain_v2(out);
    assert_eq!(i.branch, "feat/x");
    assert_eq!(i.ahead, 2);
    assert_eq!(i.behind, 1);
    assert_eq!(i.staged, 3);
    assert_eq!(i.modified, 3);
    assert_eq!(i.untracked, 2);
}

#[test]
fn detached_head_is_labelled() {
    let i = parse_porcelain_v2("# branch.oid abc\n# branch.head (detached)\n");
    assert_eq!(i.branch, "detached");
}

#[test]
fn no_upstream_means_zero_ab() {
    let i = parse_porcelain_v2("# branch.head main\n");
    assert_eq!((i.ahead, i.behind), (0, 0));
}

#[test]
fn worktree_repo_name_resolves_to_main_repo() {
    let d = Discovery {
        root: "/w/myrepo-wt1".into(),
        dot_git_file: Some("gitdir: /home/u/code/myrepo/.git/worktrees/wt1\n".into()),
    };
    let (name, wt) = repo_name(&d);
    assert_eq!(name, "myrepo");
    assert!(wt);
}

#[test]
fn submodule_is_not_a_worktree() {
    let d = Discovery {
        root: "/home/u/code/super/libs/inner".into(),
        dot_git_file: Some("gitdir: ../../.git/modules/libs/inner\n".into()),
    };
    let (name, wt) = repo_name(&d);
    assert_eq!(name, "inner");
    assert!(!wt);
}

#[test]
fn unborn_branch_parses() {
    let i = parse_porcelain_v2("# branch.oid (initial)\n# branch.head main\n");
    assert_eq!(i.branch, "main");
    assert_eq!((i.staged, i.modified, i.untracked), (0, 0, 0));
}

#[test]
fn unicode_branch_name_parses() {
    let i = parse_porcelain_v2("# branch.head feat/añadir-configuración\n");
    assert_eq!(i.branch, "feat/añadir-configuración");
}

#[test]
fn short_malformed_entry_lines_do_not_panic() {
    let i = parse_porcelain_v2("1 \n2\nu\n? \n#\n");
    assert_eq!(i.staged, 0);
}

#[test]
fn plain_repo_name_is_root_basename() {
    let d = Discovery {
        root: "/home/u/code/proj".into(),
        dot_git_file: None,
    };
    let (name, wt) = repo_name(&d);
    assert_eq!(name, "proj");
    assert!(!wt);
}

#[test]
fn commit_subject_truncation() {
    assert_eq!(truncate_chars("short", COMMIT_MAX_CHARS), "short");
    assert_eq!(
        truncate_chars(
            "a very long commit subject line that keeps going",
            COMMIT_MAX_CHARS
        ),
        "a very long commit subject line that…"
    );
}

// ---- further cases ------------------------------------------------------

#[test]
fn assemble_combines_status_discovery_and_subject() {
    let d = Discovery {
        root: "/home/u/code/proj".into(),
        dot_git_file: None,
    };
    let status = "# branch.head dev\n# branch.ab +4 -0\n? new.txt\n";
    let i = assemble(status, &d, Some("  fix:\tthe\x1b thing  \n"));
    assert_eq!(i.repo_name, "proj");
    assert!(!i.is_worktree);
    assert_eq!(i.branch, "dev");
    assert_eq!((i.ahead, i.behind, i.untracked), (4, 0, 1));
    assert_eq!(i.last_commit, "fix:the thing");
    let j = assemble(status, &d, None);
    assert_eq!(j.last_commit, "");
}

#[test]
fn control_characters_are_dropped_from_subjects() {
    assert_eq!(truncate_chars("a\tb\x1bc\nd", COMMIT_MAX_CHARS), "abcd");
}

#[test]
fn unmerged_entries_count_as_modified_only() {
    let i = parse_porcelain_v2("u UU N... 1 1 1 1 a b c f\n");
    assert_eq!((i.staged, i.modified), (0, 1));
}
