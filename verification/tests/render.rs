use statusline::git::GitInfo;
use statusline::inventory::Inventory;
use statusline::payload::{
    ContextWindow, Cost, Effort, Model, Payload, Pr, RateLimits, RateWindow, RepoIdentity,
    Thinking, Workspace,
};
use statusline::render::{
    fmt_tokens, render, render_with, External, BLUE, GRAY, LAVENDER, RED, RST, TEAL,
};
use statusline::settings::CompactLimit;

fn s(x: &str) -> Option<String> {
    Some(x.to_string())
}

fn window(pct: i64) -> Option<RateWindow> {
    Some(RateWindow {
        used_percentage: Some(pct),
        resets_at: None,
    })
}

fn full_payload() -> Payload {
    Payload {
        cwd: s("/tmp/repo"),
        session_name: s("review"),
        model: Model {
            id: s("fable-5"),
            display_name: s("Fable 5"),
        },
        workspace: Workspace {
            current_dir: s("/tmp/repo"),
            repo: Some(RepoIdentity {
                host: s("github.com"),
                owner: s("me"),
                name: s("repo"),
            }),
            ..Default::default()
        },
        cost: Some(Cost {
            total_cost_usd: s("14.45"),
        }),
        context_window: Some(ContextWindow {
            total_input_tokens: Some(123176),
            context_window_size: Some(1000000),
        }),
        effort: Some(Effort { level: s("xhigh") }),
        thinking: Some(Thinking {
            enabled: Some(true),
        }),
        fast_mode: Some(false),
        rate_limits: Some(RateLimits {
            five_hour: window(43),
            seven_day: window(81),
        }),
        pr: Some(Pr {
            number: Some(7),
            url: s("https://github.com/me/repo/pull/7"),
            review_state: s("approved"),
        }),
        ..Default::default()
    }
}

fn git_fixture() -> GitInfo {
    GitInfo {
        repo_name: "repo".into(),
        branch: "main".into(),
        staged: 1,
        modified: 2,
        untracked: 3,
        ahead: 1,
        last_commit: "fix: something".into(),
        ..Default::default()
    }
}

fn ext_with(limit: CompactLimit) -> External {
    External {
        compact_limit: limit,
        ..Default::default()
    }
}

#[test]
fn full_render_contains_all_segments() {
    let p = full_payload();
    let ext = External {
        git: Some(git_fixture()),
        compact_limit: CompactLimit::Configured(350_000),
        inventory: Some(Inventory {
            total_tokens: 2_400_000,
            caught_up: true,
            ..Default::default()
        }),
        ..Default::default()
    };
    let out = render(&p, &ext);
    for needle in [
        "repo",
        "main",
        "+1",
        "~2",
        "?3",
        "↑1",
        "✓#7",
        "Fable 5",
        "xhigh",
        "ctx:123K/350K (35%)",
        "$14.45",
        "review",
        "5h 43%",
        "7d 81%",
        "tok:",
        "2.4M",
        "fix: something",
    ] {
        assert!(out.contains(needle), "missing {needle:?} in:\n{out}");
    }
    assert!(out.contains(&format!("{TEAL}5h 43%{RST}")));
    assert!(out.contains(&format!("{RED}7d 81%{RST}")));
    assert!(!out.contains("⚡fast"));
    assert!(!out.contains("¬think"));
}

#[test]
fn partial_token_total_does_not_render() {
    let p = full_payload();
    let ext = External {
        compact_limit: CompactLimit::Configured(350_000),
        inventory: Some(Inventory {
            total_tokens: 2_400_000,
            caught_up: false,
            ..Default::default()
        }),
        ..Default::default()
    };
    let out = render(&p, &ext);
    assert!(!out.contains("tok:"), "a partial sum is not a total:\n{out}");
}

#[test]
fn out_of_range_percentage_does_not_render() {
    let mut p = full_payload();
    p.rate_limits
        .as_mut()
        .unwrap()
        .five_hour
        .as_mut()
        .unwrap()
        .used_percentage = Some(-20);
    let ext = ext_with(CompactLimit::Configured(350_000));
    let out = render(&p, &ext);
    assert!(!out.contains("5h"), "invalid percentage must not render:\n{out}");
    assert!(out.contains("7d 81%"), "valid window stays:\n{out}");
}

#[test]
fn control_characters_in_session_name_are_dropped() {
    let mut p = full_payload();
    p.session_name = s("re\x1b[31mview\nx");
    let ext = ext_with(CompactLimit::Configured(350_000));
    let out = render(&p, &ext);
    assert!(out.contains("re[31mviewx"), "controls dropped:\n{out}");
    assert_eq!(out.lines().count(), 3, "no injected line:\n{out}");
}

#[test]
fn empty_payload_renders_placeholder() {
    let p = Payload::default();
    let ext = External {
        git: None,
        compact_limit: CompactLimit::Configured(200_000),
        ..Default::default()
    };
    let out = render(&p, &ext);
    assert!(out.contains("ctx:--"));
}

#[test]
fn broken_settings_measures_against_ceiling_and_flags() {
    let p = full_payload();
    let ext = External {
        git: None,
        compact_limit: CompactLimit::Unavailable,
        ..Default::default()
    };
    let out = render(&p, &ext);
    assert!(out.contains("cfg!"), "must flag corrupt settings loudly:\n{out}");
    assert!(
        out.contains("123K/1.0M"),
        "must use real ceiling, not invented default:\n{out}"
    );
}

#[test]
fn context_over_compact_window_clamps_bar_shows_true_pct() {
    let mut p = full_payload();
    p.context_window.as_mut().unwrap().total_input_tokens = Some(420_000);
    let ext = ext_with(CompactLimit::Configured(350_000));
    let out = render(&p, &ext);
    assert!(out.contains("120%"), "number must tell the truth:\n{out}");
    assert!(out.contains("⚠compact"), "over-limit must warn:\n{out}");
}

#[test]
fn long_session_name_truncates_multibyte_safely() {
    let mut p = full_payload();
    p.session_name = s("Revisar configuración de Cloudy y computer use");
    let ext = ext_with(CompactLimit::Configured(350_000));
    let out = render(&p, &ext);
    assert!(
        out.contains("Revisar configuración de Cloudy y co…"),
        "truncate on char boundary:\n{out}"
    );
    assert!(!out.contains("computer use"));
}

#[test]
fn root_cwd_without_git_renders_path() {
    let p = Payload {
        cwd: s("/"),
        ..Default::default()
    };
    let ext = ext_with(CompactLimit::Configured(200_000));
    assert!(render(&p, &ext).contains("/"));
}

#[test]
fn low_context_shows_low_marker() {
    let mut p = full_payload();
    p.context_window.as_mut().unwrap().total_input_tokens = Some(320_000);
    let ext = ext_with(CompactLimit::Configured(350_000));
    let out = render(&p, &ext);
    assert!(out.contains("⚠compact"), "91% used must warn:\n{out}");
}

#[test]
fn deviation_badges_appear_when_deviating() {
    let mut p = full_payload();
    p.fast_mode = Some(true);
    p.thinking.as_mut().unwrap().enabled = Some(false);
    let ext = ext_with(CompactLimit::Configured(350_000));
    let out = render(&p, &ext);
    assert!(out.contains("⚡fast"));
    assert!(out.contains("¬think"));
}

#[test]
fn pr_states_map_to_icons() {
    for (state, icon) in [
        ("changes_requested", "✗#7"),
        ("draft", "◌#7"),
        ("pending", "○#7"),
    ] {
        let mut p = full_payload();
        p.pr.as_mut().unwrap().review_state = Some(state.into());
        let ext = External {
            git: Some(git_fixture()),
            compact_limit: CompactLimit::Configured(350_000),
            ..Default::default()
        };
        assert!(
            render(&p, &ext).contains(icon),
            "state {state} should render {icon}"
        );
    }
}

#[test]
fn line4_absent_without_ambient_data() {
    let p = full_payload();
    let ext = ext_with(CompactLimit::Configured(350_000));
    let out = render(&p, &ext);
    assert!(!out.contains("mcp:"));
    assert!(!out.contains("sessions:"));
    assert_eq!(out.trim_end().lines().count(), 3);
}

#[test]
fn line4_shows_loaded_counts() {
    let mut inv = Inventory::default();
    for t in ["mcp__chrome__navigate", "mcp__codex__run"] {
        inv.mcp_tools.push(t.into());
    }
    inv.mcp_servers.push("chrome".into());
    inv.mcp_servers.push("exa".into());
    inv.skill_count = Some(56);
    let ext = External {
        git: None,
        compact_limit: CompactLimit::Configured(350_000),
        inventory: Some(inv),
        active_sessions: Some(3),
    };
    let out = render(&full_payload(), &ext);
    assert!(out.contains(&format!("{GRAY}mcp:{RST}{BLUE}3{RST}")), "{out}");
    assert!(
        out.contains(&format!("{GRAY}skills:{RST}{LAVENDER}56{RST}")),
        "{out}"
    );
    assert!(
        out.contains(&format!("{GRAY}sessions:{RST}{TEAL}3{RST}")),
        "{out}"
    );
    assert!(!out.contains("chrome"), "names must not render: {out}");
}

#[test]
fn single_session_is_not_signal() {
    let ext = External {
        git: None,
        compact_limit: CompactLimit::Configured(350_000),
        active_sessions: Some(1),
        ..Default::default()
    };
    assert!(!render(&full_payload(), &ext).contains("sessions:"));
}

#[test]
fn zero_skill_listing_renders_no_segment() {
    let mut inv = Inventory::default();
    inv.mcp_tools.push("mcp__codex__run".into());
    inv.skill_count = Some(0);
    let ext = External {
        git: None,
        compact_limit: CompactLimit::Configured(350_000),
        inventory: Some(inv),
        ..Default::default()
    };
    let out = render(&full_payload(), &ext);
    assert!(out.contains(&format!("{GRAY}mcp:{RST}{BLUE}1{RST}")), "{out}");
    assert!(!out.contains("skills:"), "zero is not signal: {out}");
}

#[test]
fn token_formatting() {
    assert_eq!(fmt_tokens(999), "999");
    assert_eq!(fmt_tokens(1_000), "1K");
    assert_eq!(fmt_tokens(123_176), "123K");
    assert_eq!(fmt_tokens(1_500_000), "1.5M");
}

// ---- further cases ------------------------------------------------------

fn minimal_ext() -> External {
    External {
        git: None,
        compact_limit: CompactLimit::Default,
        inventory: None,
        active_sessions: None,
    }
}

#[test]
fn exact_render_of_a_small_payload() {
    let p = Payload {
        cwd: s("/home/u/proj"),
        context_window: Some(ContextWindow {
            total_input_tokens: Some(50_000),
            context_window_size: Some(200_000),
        }),
        ..Default::default()
    };
    let out = render_with(&p, &minimal_ext(), &None, &None);
    let green = "\x1b[38;5;120m";
    let cyan = "\x1b[38;5;81m";
    assert_eq!(
        out,
        format!("{cyan}proj{RST}\n{green}ctx:50K/200K (25%){RST}\n")
    );
}

#[test]
fn render_always_ends_with_newline_and_has_no_empty_line() {
    let out = render(&Payload::default(), &minimal_ext());
    assert!(out.ends_with('\n'));
    assert!(out.trim_end_matches('\n').lines().all(|l| !l.is_empty()));
    assert_eq!(out.lines().count(), 1, "only the context line:\n{out}");
}

#[test]
fn missing_ceiling_shows_count_only() {
    let mut p = full_payload();
    p.context_window.as_mut().unwrap().context_window_size = None;
    let out = render(&p, &ext_with(CompactLimit::Configured(350_000)));
    assert!(out.contains("ctx:123K"), "{out}");
    assert!(!out.contains("ctx:123K/"), "no denominator:\n{out}");
    assert!(!out.contains("cfg!"));
}

#[test]
fn zero_configured_window_is_flagged() {
    let p = full_payload();
    let out = render(&p, &ext_with(CompactLimit::Configured(0)));
    assert!(out.contains("ctx:123K/1.0M (12%)"), "{out}");
    assert!(out.contains("cfg!"), "{out}");
}

#[test]
fn yellow_gauge_between_seventy_and_eighty_five_percent() {
    let mut p = full_payload();
    p.context_window.as_mut().unwrap().total_input_tokens = Some(280_000);
    let out = render(&p, &ext_with(CompactLimit::Configured(350_000)));
    let yellow = "\x1b[38;5;221m";
    assert!(
        out.contains(&format!("{yellow}ctx:280K/350K (80%){RST}")),
        "{out}"
    );
    assert!(!out.contains("⚠compact"));
}

#[test]
fn reset_labels_render_after_the_window() {
    let p = full_payload();
    let ext = ext_with(CompactLimit::Configured(350_000));
    let out = render_with(&p, &ext, &s("14:05"), &s("Mon"));
    assert!(out.contains(&format!("5h 43%{RST} {GRAY}↻14:05{RST}")), "{out}");
    assert!(out.contains(&format!("7d 81%{RST} {GRAY}↻Mon{RST}")), "{out}");
}

#[test]
fn repo_name_links_to_the_repository() {
    let p = full_payload();
    let ext = External {
        git: Some(git_fixture()),
        compact_limit: CompactLimit::Configured(350_000),
        ..Default::default()
    };
    let out = render(&p, &ext);
    assert!(out.contains("\x1b]8;;https://github.com/me/repo\x07"), "{out}");
    assert!(
        out.contains("\x1b]8;;https://github.com/me/repo/pull/7\x07"),
        "{out}"
    );
}

#[test]
fn worktree_mark_from_payload() {
    let mut p = full_payload();
    p.workspace.git_worktree = s("wt1");
    let ext = External {
        git: Some(git_fixture()),
        compact_limit: CompactLimit::Configured(350_000),
        ..Default::default()
    };
    assert!(render(&p, &ext).contains("[wt]"));
}

#[test]
fn token_formatting_edges() {
    assert_eq!(fmt_tokens(0), "0");
    assert_eq!(fmt_tokens(999_999), "999K");
    assert_eq!(fmt_tokens(1_000_000), "1.0M");
    assert_eq!(fmt_tokens(1_249_999), "1.2M");
    assert_eq!(fmt_tokens(1_250_000), "1.2M");
    assert_eq!(fmt_tokens(1_750_000), "1.8M");
    assert_eq!(fmt_tokens(1_960_000), "2.0M");
    assert_eq!(fmt_tokens(12_345_678), "12.3M");
}

#[test]
fn token_formatting_follows_binary_floating_point() {
    // 1.05 and 1.15 have no exact binary form: the nearest f64 of the
    // first lies above the tie, that of the second below it.
    assert_eq!(fmt_tokens(1_050_000), "1.1M");
    assert_eq!(fmt_tokens(1_150_000), "1.1M");
    assert_eq!(fmt_tokens(2_050_000), "2.0M");
    assert_eq!(fmt_tokens(9_007_199_254_740_993), "9007199254.7M");
    assert_eq!(fmt_tokens(u64::MAX), "18446744073709.6M");
    for t in [1_000_000u64, 1_049_999, 3_333_333, 77_777_777, 123_456_789_012] {
        assert_eq!(fmt_tokens(t), format!("{:.1}M", t as f64 / 1_000_000.0));
    }
}

#[test]
fn broken_settings_flag_before_the_first_response() {
    let out = render(&Payload::default(), &ext_with(CompactLimit::Unavailable));
    assert!(out.contains("ctx:--"), "{out}");
    assert!(out.contains("cfg!"), "a broken config is flagged at 0 tokens too:\n{out}");
    let fine = render(&Payload::default(), &ext_with(CompactLimit::Default));
    assert!(!fine.contains("cfg!"), "{fine}");
}

#[test]
fn huge_percentages_still_warn() {
    let mut p = full_payload();
    p.context_window.as_mut().unwrap().total_input_tokens = Some(u64::MAX);
    let out = render(&p, &ext_with(CompactLimit::Configured(1)));
    assert!(out.contains("(1844674407370955161500%)"), "{out}");
    assert!(out.contains("⚠compact"), "{out}");
}

#[test]
fn four_lines_render_as_four_lines() {
    let ext = External {
        git: Some(git_fixture()),
        compact_limit: CompactLimit::Configured(350_000),
        inventory: Some(Inventory {
            skill_count: Some(4),
            ..Default::default()
        }),
        active_sessions: Some(2),
    };
    let out = render(&full_payload(), &ext);
    assert!(out.ends_with('\n'));
    assert_eq!(out.lines().count(), 4, "{out}");
    assert!(out.lines().all(|l| !l.is_empty()));
}
