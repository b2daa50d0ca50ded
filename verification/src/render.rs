//! The renderer: payload and pre-gathered external data in, ANSI text out.
//!
//! Nothing here touches the file system or spawns a process: everything
//! the render needs is passed in, which keeps it testable with plain
//! values. Only the rate-limit reset labels read the clock (through
//! [`reset_label`]); [`render_with`] takes them as arguments and states the
//! output exactly.

use vstd::prelude::*;
use crate::git::GitInfo;
use crate::inventory::{loaded_servers, texts, Inventory};
use crate::payload::{cwd_spec, opt_view, url_spec, Payload, Pr, RateLimits, RateWindow};
use crate::settings::{denominator_spec, CompactLimit};
use crate::text::{
    chars_of, clean_truncate, clean_truncate_spec, dec, file_name, file_name_spec, is_control_spec,
    all_digits, digits_value, ends_with, lemma_dec_reads_back, starts_with,
    law_clean_truncate_is_safe, lemma_clean_truncate_nl_free, lemma_dec_nl_free,
    lemma_file_name_nl_free, nl_free, push_char, push_chars, push_dec_wide,
    push_dec, push_str, str_eq, string_from_chars,
};
use crate::timefmt::{is_reset_label, normalize_epoch_spec, representable_secs, reset_label};

verus! {

pub const RST: &'static str = "\x1b[0m";
pub const BOLD: &'static str = "\x1b[1m";
pub const GRAY: &'static str = "\x1b[38;5;240m";
pub const PURPLE: &'static str = "\x1b[38;5;183m";
pub const CYAN: &'static str = "\x1b[38;5;81m";
pub const BLUE: &'static str = "\x1b[38;5;111m";
pub const PINK: &'static str = "\x1b[38;5;212m";
pub const ORANGE: &'static str = "\x1b[38;5;209m";
pub const GREEN: &'static str = "\x1b[38;5;120m";
pub const YELLOW: &'static str = "\x1b[38;5;221m";
pub const RED: &'static str = "\x1b[38;5;204m";
pub const GOLD: &'static str = "\x1b[38;5;178m";
pub const LAVENDER: &'static str = "\x1b[38;5;147m";
pub const TEAL: &'static str = "\x1b[38;5;73m";

/// Longest session name shown, in characters.
pub const SESSION_MAX_CHARS: usize = 36;

/// Everything the renderer needs beyond the payload.
#[derive(Debug, Clone)]
pub struct External {
    pub git: Option<GitInfo>,
    pub compact_limit: CompactLimit,
    /// Loaded MCP/skill inventory from the transcript; `None` when unavailable.
    pub inventory: Option<Inventory>,
    /// Active sessions on this machine; `None` when unavailable.
    pub active_sessions: Option<u64>,
}

impl Default for External {
    fn default() -> (r: Self)
        ensures
            r.git is None,
            r.compact_limit == CompactLimit::Configured(200_000),
            r.inventory is None,
            r.active_sessions is None,
    {
        External {
            git: None,
            compact_limit: CompactLimit::Configured(200_000),
            inventory: None,
            active_sessions: None,
        }
    }
}

// ---------------------------------------------------------------------
// Small pieces
// ---------------------------------------------------------------------

/// `body` in `color`, reset after.
pub open spec fn paint(color: Seq<char>, body: Seq<char>) -> Seq<char> {
    color + body + RST@
}

/// The parts joined with `sep` between consecutive parts.
pub open spec fn join_spec(parts: Seq<Seq<char>>, sep: Seq<char>) -> Seq<char>
    decreases parts.len(),
{
    if parts.len() == 0 {
        Seq::empty()
    } else if parts.len() == 1 {
        parts[0]
    } else {
        join_spec(parts.drop_last(), sep) + sep + parts.last()
    }
}

/// A part when present, nothing otherwise.
pub open spec fn opt_part(o: Option<Seq<char>>) -> Seq<Seq<char>> {
    match o {
        Some(x) => seq![x],
        None => Seq::empty(),
    }
}

/// Appends `color`, `body`, and the reset code.
fn push_painted(s: &mut String, color: &str, body: &str)
    ensures
        final(s)@ == old(s)@ + paint(color@, body@),
{
    push_str(s, color);
    push_str(s, body);
    push_str(s, RST);
    assert(s@ =~= old(s)@ + paint(color@, body@));
}

/// Joins `parts` with `sep`.
fn join(parts: &Vec<String>, sep: &str) -> (r: String)
    ensures
        r@ == join_spec(texts(parts@), sep@),
{
    let ghost ts = texts(parts@);
    let mut out = String::new();
    let mut i: usize = 0;
    while i < parts.len()
        invariant
            ts == texts(parts@),
            i <= parts@.len(),
            out@ == join_spec(ts.take(i as int), sep@),
        decreases parts@.len() - i,
    {
        let ghost prev = out@;
        assert(ts.take(i + 1).drop_last() =~= ts.take(i as int));
        assert(ts.take(i + 1).last() == parts@[i as int]@);
        if i > 0 {
            push_str(&mut out, sep);
        }
        push_str(&mut out, parts[i].as_str());
        proof {
            if i == 0 {
                assert(ts.take(1) =~= seq![parts@[0]@]);
                assert(out@ =~= parts@[0]@);
            } else {
                assert(out@ =~= prev + sep@ + parts@[i as int]@);
            }
        }
        i = i + 1;
    }
    assert(ts.take(ts.len() as int) =~= ts);
    out
}

/// The separator between segments: a gray middle dot between spaces.
pub open spec fn sep_spec() -> Seq<char> {
    " "@ + paint(GRAY@, "·"@) + " "@
}

/// The separator between segments.
pub fn sep() -> (r: String)
    ensures
        r@ == sep_spec(),
{
    let mut s = String::new();
    push_str(&mut s, " ");
    push_painted(&mut s, GRAY, "·");
    push_str(&mut s, " ");
    assert(s@ =~= sep_spec());
    s
}

/// An OSC 8 hyperlink (BEL-terminated, the widest terminal support).
pub open spec fn osc8_spec(url: Seq<char>, text: Seq<char>) -> Seq<char> {
    "\x1b]8;;"@ + url + "\x07"@ + text + "\x1b]8;;\x07"@
}

/// `text` as a terminal hyperlink to `url`.
pub fn osc8(url: &str, text: &str) -> (r: String)
    ensures
        r@ == osc8_spec(url@, text@),
{
    let mut s = String::new();
    push_str(&mut s, "\x1b]8;;");
    push_str(&mut s, url);
    push_str(&mut s, "\x07");
    push_str(&mut s, text);
    push_str(&mut s, "\x1b]8;;\x07");
    assert(s@ =~= osc8_spec(url@, text@));
    s
}

/// `a / b` rounded to the nearest integer, ties to the even one.
pub open spec fn div_round_even(a: nat, b: nat) -> nat {
    let q = a / b;
    let r = a % b;
    if 2 * r > b || (2 * r == b && q % 2 == 1) {
        q + 1
    } else {
        q
    }
}

/// `2^n`.
pub open spec fn two_pow(n: nat) -> nat
    decreases n,
{
    if n == 0 {
        1
    } else {
        2 * two_pow((n - 1) as nat)
    }
}

/// The number of binary digits of `t`.
pub open spec fn bit_len(t: nat) -> nat
    decreases t,
{
    if t == 0 {
        0
    } else {
        1 + bit_len(t / 2)
    }
}

/// `t` as the nearest `f64`: exact below 2^53, above it rounded to 53
/// significant bits with ties to even.
pub open spec fn nearest_f64_int(t: nat) -> nat {
    if t < two_pow(53) {
        t
    } else {
        let unit = two_pow((bit_len(t) - 53) as nat);
        div_round_even(t, unit) * unit
    }
}

/// The smallest `k` from `from` on (at most 52) with
/// `v * 2^k >= 2^52 * 10^6`: the binary exponent at which `v / 10^6` has a
/// 53-bit significand.
pub open spec fn scale_from(v: nat, from: nat) -> nat
    decreases 52 - from,
{
    if from >= 52 || v * two_pow(from) >= two_pow(52) * 1_000_000 {
        from
    } else {
        scale_from(v, from + 1)
    }
}

/// Tenths of millions as `format!("{:.1}", t as f64 / 1_000_000.0)`
/// computes them: `t` becomes the nearest `f64`, the quotient by 10^6 is
/// rounded to the nearest `f64` (53 significant bits, ties to even), and
/// that binary value is rounded to the nearest tenth, ties to even.
pub open spec fn tenths_of_millions(t: u64) -> nat {
    let big = nearest_f64_int(t as nat);
    let k = scale_from(big, 0);
    let n = div_round_even(big * two_pow(k), 1_000_000);
    div_round_even(10 * n, two_pow(k))
}

/// Token counts for humans: `999`, `123K` (thousands rounded down),
/// `1.5M` (millions with one decimal, as floating point formats them).
pub open spec fn fmt_tokens_spec(t: u64) -> Seq<char> {
    if t >= 1_000_000 {
        let d = tenths_of_millions(t);
        dec(d / 10) + "."@ + dec(d % 10) + "M"@
    } else if t >= 1_000 {
        dec((t / 1_000) as nat) + "K"@
    } else {
        dec(t as nat)
    }
}

fn div_round_even_u128(a: u128, b: u128) -> (r: u128)
    requires
        b > 0,
    ensures
        r == div_round_even(a as nat, b as nat),
{
    let q = a / b;
    let rem = a % b;
    if rem > b - rem || (rem == b - rem && q % 2 == 1) {
        assert(q < u128::MAX) by (nonlinear_arith)
            requires
                q == a / b,
                b > 0,
                a <= u128::MAX,
                rem > 0,
                rem == a % b,
        ;
        q + 1
    } else {
        q
    }
}

proof fn lemma_bit_len_bounds(t: nat, n: nat)
    ensures
        t < two_pow(n) ==> bit_len(t) <= n,
        t >= two_pow(n) ==> bit_len(t) >= n + 1,
    decreases n,
{
    if n > 0 {
        lemma_bit_len_bounds(t / 2, (n - 1) as nat);
    } else if t > 0 {
        assert(bit_len(t) >= 1);
    }
}

proof fn lemma_two_pow_mono(a: nat, b: nat)
    requires
        a <= b,
    ensures
        two_pow(a) <= two_pow(b),
        two_pow(a) >= 1,
    decreases b,
{
    if b > a {
        lemma_two_pow_mono(a, (b - 1) as nat);
    } else if a > 0 {
        lemma_two_pow_mono((a - 1) as nat, (a - 1) as nat);
    }
}

proof fn lemma_two_pow_values()
    ensures
        two_pow(0) == 1,
        two_pow(11) == 2048,
        two_pow(52) == 4503599627370496,
        two_pow(53) == 9007199254740992,
        two_pow(64) == 18446744073709551616,
{
    reveal_with_fuel(two_pow, 12);
    assert(two_pow(11) == 2048);
    assert(two_pow(22) == 4194304) by {
        reveal_with_fuel(two_pow, 12);
    }
    assert(two_pow(33) == 8589934592) by {
        reveal_with_fuel(two_pow, 12);
    }
    assert(two_pow(44) == 17592186044416) by {
        reveal_with_fuel(two_pow, 12);
    }
    assert(two_pow(52) == 4503599627370496) by {
        reveal_with_fuel(two_pow, 9);
    }
    assert(two_pow(53) == 9007199254740992);
    assert(two_pow(64) == 18446744073709551616) by {
        reveal_with_fuel(two_pow, 12);
    }
}

/// `t` as the nearest `f64`, as an integer.
fn nearest_f64(t: u64) -> (r: u128)
    ensures
        r == nearest_f64_int(t as nat),
        r <= 18446744073709553664,
{
    proof {
        lemma_two_pow_values();
    }
    if t < 9007199254740992 {
        return t as u128;
    }
    proof {
        lemma_bit_len_bounds(t as nat, 64);
        lemma_bit_len_bounds(t as nat, 53);
    }
    let mut b: u64 = 0;
    let mut v: u64 = t;
    while v > 0
        invariant
            b + bit_len(v as nat) == bit_len(t as nat),
            bit_len(t as nat) <= 64,
            b <= 64,
        decreases v,
    {
        v = v / 2;
        b = b + 1;
    }
    let s = b - 53;
    let mut unit: u128 = 1;
    let mut i: u64 = 0;
    while i < s
        invariant
            i <= s <= 11,
            unit == two_pow(i as nat),
            unit <= 2048,
        decreases s - i,
    {
        proof {
            lemma_two_pow_mono((i + 1) as nat, 11);
            lemma_two_pow_values();
        }
        unit = unit * 2;
        i = i + 1;
    }
    assert(unit >= 1) by {
        lemma_two_pow_mono(0, i as nat);
    }
    let q = div_round_even_u128(t as u128, unit);
    assert(q * unit <= t as u128 + unit) by (nonlinear_arith)
        requires
            q <= (t as u128) / unit + 1,
            unit > 0,
    ;
    q * unit
}

/// A token count in a compact human form.
pub fn fmt_tokens(t: u64) -> (r: String)
    ensures
        r@ == fmt_tokens_spec(t),
{
    let mut s = String::new();
    if t >= 1_000_000 {
        let big = nearest_f64(t);
        let target: u128 = 4503599627370496000000;
        let mut k: u64 = 0;
        let mut p: u128 = 1;
        proof {
            lemma_two_pow_values();
        }
        loop
            invariant
                k <= 52,
                p == two_pow(k as nat),
                p <= 4503599627370496,
                big <= 18446744073709553664,
                big * p < 2 * target,
                target == 4503599627370496000000,
                target == two_pow(52) * 1_000_000,
                scale_from(big as nat, 0) == scale_from(big as nat, k as nat),
            ensures
                scale_from(big as nat, k as nat) == k,
                p == two_pow(k as nat),
                big * p < 2 * target,
            decreases 52 - k,
        {
            if k >= 52 {
                break;
            }
            let prod: u128 = big * p;
            if prod >= target {
                break;
            }
            proof {
                lemma_two_pow_mono((k + 1) as nat, 52);
                lemma_two_pow_values();
                assert(big * (p * 2) == 2 * (big * p)) by (nonlinear_arith);
            }
            p = p * 2;
            k = k + 1;
        }
        proof {
            lemma_two_pow_mono(0, k as nat);
        }
        assert(scale_from(big as nat, k as nat) == k);
        assert(big * p <= 18446744073709553664 * 4503599627370496) by (nonlinear_arith)
            requires
                big <= 18446744073709553664,
                p <= 4503599627370496,
        ;
        let n = div_round_even_u128(big * p, 1_000_000);
        assert(n <= 9007199254740992) by (nonlinear_arith)
            requires
                n <= (big * p) / 1_000_000 + 1,
                big * p < 9007199254740992000000,
        ;
        let d128 = div_round_even_u128(10 * n, p);
        assert(d128 <= 90071992547409921) by (nonlinear_arith)
            requires
                d128 <= (10 * n) as int / (p as int) + 1,
                p >= 1,
                10 * n <= 90071992547409920,
        ;
        let d = d128 as u64;
        assert(d == tenths_of_millions(t));
        push_dec(&mut s, d / 10);
        push_str(&mut s, ".");
        push_dec(&mut s, d % 10);
        push_str(&mut s, "M");
        assert(s@ =~= fmt_tokens_spec(t));
    } else if t >= 1_000 {
        push_dec(&mut s, t / 1_000);
        push_str(&mut s, "K");
        assert(s@ =~= fmt_tokens_spec(t));
    } else {
        push_dec(&mut s, t);
        assert(s@ =~= fmt_tokens_spec(t));
    }
    s
}

/// Control characters would corrupt the line-oriented output (a newline
/// injects a line, an ESC opens an escape sequence), so they are dropped
/// before the length check; a shortened text ends with `…`.
pub fn truncate_ellipsis(s: &str, max: usize) -> (r: String)
    ensures
        r@ == clean_truncate_spec(s@, max as nat),
{
    clean_truncate(s, max)
}


/// `s` preceded by a space when it is not empty; nothing otherwise.
pub open spec fn spaced(s: Seq<char>) -> Seq<char> {
    if s.len() == 0 {
        Seq::empty()
    } else {
        " "@ + s
    }
}

/// `s` when `shown`, nothing otherwise.
pub open spec fn shown_if(shown: bool, s: Seq<char>) -> Seq<char> {
    if shown {
        s
    } else {
        Seq::empty()
    }
}

/// Appends `color`, `prefix` and the decimal `n`, then the reset code.
fn push_painted_num(s: &mut String, color: &str, prefix: &str, n: u64)
    ensures
        final(s)@ == old(s)@ + paint(color@, prefix@ + dec(n as nat)),
{
    push_str(s, color);
    push_str(s, prefix);
    push_dec(s, n);
    push_str(s, RST);
    assert(s@ =~= old(s)@ + paint(color@, prefix@ + dec(n as nat)));
}

/// Appends `s` to `line` after a space, when `s` is not empty.
fn push_spaced(line: &mut String, s: &str)
    ensures
        final(line)@ == old(line)@ + spaced(s@),
{
    let cs = chars_of(s);
    if cs.len() > 0 {
        push_str(line, " ");
        push_str(line, s);
        assert(line@ =~= old(line)@ + spaced(s@));
    } else {
        assert(s@.len() == 0);
        assert(line@ =~= old(line)@ + spaced(s@));
    }
}

// ---------------------------------------------------------------------
// Line 1: repo · branch [wt] +S~M?U ↑A↓B PR
// ---------------------------------------------------------------------

/// The working-tree counters: `+staged`, `~modified`, `?untracked`, each
/// only when non-zero.
pub open spec fn counters_spec(g: GitInfo) -> Seq<char> {
    shown_if(g.staged > 0, paint(GREEN@, "+"@ + dec(g.staged as nat))) + shown_if(
        g.modified > 0,
        paint(ORANGE@, "~"@ + dec(g.modified as nat)),
    ) + shown_if(g.untracked > 0, paint(GRAY@, "?"@ + dec(g.untracked as nat)))
}

/// Upstream sync: `↑ahead`, `↓behind`, each only when non-zero.
pub open spec fn sync_spec(g: GitInfo) -> Seq<char> {
    shown_if(g.ahead > 0, paint(PURPLE@, "↑"@ + dec(g.ahead as nat))) + shown_if(
        g.behind > 0,
        paint(BLUE@, "↓"@ + dec(g.behind as nat)),
    )
}

/// The icon of a pull-request review state.
pub open spec fn pr_icon(state: Option<Seq<char>>) -> Seq<char> {
    if state == Some("approved"@) {
        "✓"@
    } else if state == Some("changes_requested"@) {
        "✗"@
    } else if state == Some("draft"@) {
        "◌"@
    } else {
        "○"@
    }
}

/// The color of a pull-request review state; open, pending and unknown
/// states share one.
pub open spec fn pr_color(state: Option<Seq<char>>) -> Seq<char> {
    if state == Some("approved"@) {
        GREEN@
    } else if state == Some("changes_requested"@) {
        RED@
    } else if state == Some("draft"@) {
        GRAY@
    } else {
        YELLOW@
    }
}

/// The pull-request segment: icon and `#number`, linked to the pull
/// request when its address is known.
pub open spec fn pr_spec(pr: Pr) -> Seq<char> {
    let state = opt_view(pr.review_state);
    let label = match pr.number {
        Some(n) => "#"@ + dec(n as nat),
        None => Seq::empty(),
    };
    let txt = paint(pr_color(state), pr_icon(state) + label);
    match pr.url {
        Some(u) => osc8_spec(u@, txt),
        None => txt,
    }
}

/// Outside a repository: the last component of the working directory, or
/// the directory itself when it has no named last component.
pub open spec fn dir_name_spec(p: Payload) -> Seq<char> {
    match cwd_spec(p) {
        Some(c) => match file_name_spec(c) {
            Some(n) => n,
            None => c,
        },
        None => Seq::empty(),
    }
}

/// The repository name: the payload's, else the one git found.
pub open spec fn repo_display_name(p: Payload, g: GitInfo) -> Seq<char> {
    match p.workspace.repo {
        Some(r) => match r.name {
            Some(n) => n@,
            None => g.repo_name@,
        },
        None => g.repo_name@,
    }
}

/// The bold repository name, linked to the repository when its address
/// is known.
pub open spec fn repo_head(p: Payload, g: GitInfo) -> Seq<char> {
    let txt = BOLD@ + paint(CYAN@, repo_display_name(p, g));
    match p.workspace.repo {
        Some(r) => match url_spec(r) {
            Some(u) => osc8_spec(u, txt),
            None => txt,
        },
        None => txt,
    }
}

/// The first line: repository, branch, worktree mark, counters, sync and
/// pull request; only the directory name outside a repository.
pub open spec fn line1_spec(p: Payload, git: Option<GitInfo>) -> Seq<char> {
    match git {
        None => {
            let dir = dir_name_spec(p);
            if dir.len() == 0 {
                Seq::empty()
            } else {
                paint(CYAN@, dir)
            }
        },
        Some(g) => repo_head(p, g) + sep_spec() + paint(LAVENDER@, g.branch@) + shown_if(
            g.is_worktree || p.workspace.git_worktree is Some,
            " "@ + paint(PURPLE@, "[wt]"@),
        ) + spaced(counters_spec(g)) + spaced(sync_spec(g)) + match p.pr {
            Some(pr) => " "@ + pr_spec(pr),
            None => Seq::empty(),
        },
    }
}

fn counters(g: &GitInfo) -> (r: String)
    ensures
        r@ == counters_spec(*g),
{
    let mut s = String::new();
    if g.staged > 0 {
        push_painted_num(&mut s, GREEN, "+", g.staged as u64);
    }
    if g.modified > 0 {
        push_painted_num(&mut s, ORANGE, "~", g.modified as u64);
    }
    if g.untracked > 0 {
        push_painted_num(&mut s, GRAY, "?", g.untracked as u64);
    }
    assert(s@ =~= counters_spec(*g));
    s
}

fn sync(g: &GitInfo) -> (r: String)
    ensures
        r@ == sync_spec(*g),
{
    let mut s = String::new();
    if g.ahead > 0 {
        push_painted_num(&mut s, PURPLE, "↑", g.ahead as u64);
    }
    if g.behind > 0 {
        push_painted_num(&mut s, BLUE, "↓", g.behind as u64);
    }
    assert(s@ =~= sync_spec(*g));
    s
}

fn pr_segment(pr: &Pr) -> (r: String)
    ensures
        r@ == pr_spec(*pr),
{
    let ghost state = opt_view(pr.review_state);
    let (icon, color): (&str, &str) = match &pr.review_state {
        Some(st) => if str_eq(st.as_str(), "approved") {
            ("✓", GREEN)
        } else if str_eq(st.as_str(), "changes_requested") {
            ("✗", RED)
        } else if str_eq(st.as_str(), "draft") {
            ("◌", GRAY)
        } else {
            ("○", YELLOW)
        },
        None => ("○", YELLOW),
    };
    assert(icon@ == pr_icon(state) && color@ == pr_color(state));
    let mut txt = String::new();
    push_str(&mut txt, color);
    push_str(&mut txt, icon);
    match pr.number {
        Some(n) => {
            push_str(&mut txt, "#");
            push_dec(&mut txt, n);
        },
        None => {},
    }
    push_str(&mut txt, RST);
    let ghost label = match pr.number {
        Some(n) => "#"@ + dec(n as nat),
        None => Seq::<char>::empty(),
    };
    assert(txt@ =~= paint(pr_color(state), pr_icon(state) + label));
    match &pr.url {
        Some(u) => osc8(u.as_str(), txt.as_str()),
        None => txt,
    }
}

fn line1(p: &Payload, git: &Option<GitInfo>) -> (r: String)
    ensures
        r@ == line1_spec(*p, *git),
{
    match git {
        None => {
            let dir: Vec<char> = match p.cwd() {
                Some(c) => match file_name(c) {
                    Some(n) => n,
                    None => chars_of(c),
                },
                None => Vec::new(),
            };
            assert(dir@ == dir_name_spec(*p));
            if dir.len() == 0 {
                String::new()
            } else {
                let mut s = String::new();
                push_str(&mut s, CYAN);
                push_chars(&mut s, dir.as_slice());
                push_str(&mut s, RST);
                assert(s@ =~= paint(CYAN@, dir@));
                s
            }
        },
        Some(g) => {
            let mut name_txt = String::new();
            push_str(&mut name_txt, BOLD);
            push_str(&mut name_txt, CYAN);
            match &p.workspace.repo {
                Some(r) => match &r.name {
                    Some(n) => push_str(&mut name_txt, n.as_str()),
                    None => push_str(&mut name_txt, g.repo_name.as_str()),
                },
                None => push_str(&mut name_txt, g.repo_name.as_str()),
            }
            push_str(&mut name_txt, RST);
            assert(name_txt@ =~= BOLD@ + paint(CYAN@, repo_display_name(*p, *g)));
            let mut line = match &p.workspace.repo {
                Some(r) => match r.url() {
                    Some(u) => osc8(u.as_str(), name_txt.as_str()),
                    None => name_txt,
                },
                None => name_txt,
            };
            assert(line@ == repo_head(*p, *g));
            let sp = sep();
            push_str(&mut line, sp.as_str());
            push_str(&mut line, LAVENDER);
            push_str(&mut line, g.branch.as_str());
            push_str(&mut line, RST);
            let ghost base = repo_head(*p, *g) + sep_spec() + paint(LAVENDER@, g.branch@);
            assert(line@ =~= base);
            let wt = g.is_worktree || p.workspace.git_worktree.is_some();
            if wt {
                push_str(&mut line, " ");
                push_str(&mut line, PURPLE);
                push_str(&mut line, "[wt]");
                push_str(&mut line, RST);
            }
            let ghost base2 = base + shown_if(wt, " "@ + paint(PURPLE@, "[wt]"@));
            assert(line@ =~= base2);
            let c = counters(g);
            push_spaced(&mut line, c.as_str());
            let y = sync(g);
            push_spaced(&mut line, y.as_str());
            let ghost base3 = base2 + spaced(counters_spec(*g)) + spaced(sync_spec(*g));
            assert(line@ =~= base3);
            match &p.pr {
                Some(pr) => {
                    push_str(&mut line, " ");
                    let t = pr_segment(pr);
                    push_str(&mut line, t.as_str());
                    assert(line@ =~= base3 + (" "@ + pr_spec(*pr)));
                },
                None => {
                    assert(line@ =~= base3 + Seq::<char>::empty());
                },
            }
            line
        },
    }
}

// ---------------------------------------------------------------------
// Line 2: model · effort [badges] · ctx · $cost · session
// ---------------------------------------------------------------------

/// Appends a part when there is one.
fn push_part(parts: &mut Vec<String>, o: Option<String>)
    ensures
        texts(final(parts)@) == texts(old(parts)@) + opt_part(opt_view(o)),
{
    let ghost want = texts(old(parts)@) + opt_part(opt_view(o));
    match o {
        Some(s) => {
            parts.push(s);
        },
        None => {},
    }
    assert(texts(parts@) =~= want);
}

/// The tokens occupying the context window; 0 when not reported.
pub open spec fn used_tokens(p: Payload) -> u64 {
    match p.context_window {
        Some(cw) => match cw.total_input_tokens {
            Some(u) => u,
            None => 0,
        },
        None => 0,
    }
}

/// The model ceiling the payload reports, when it is not zero.
pub open spec fn reported_ceiling(p: Payload) -> Option<u64> {
    match p.context_window {
        Some(cw) => match cw.context_window_size {
            Some(g) => if g > 0 {
                Some(g)
            } else {
                None
            },
            None => None,
        },
        None => None,
    }
}

/// A configured window of zero is no usable value: it counts as a broken
/// configuration, as a zero in `settings.json` does.
pub open spec fn effective_limit(limit: CompactLimit) -> CompactLimit {
    match limit {
        CompactLimit::Configured(n) => if n == 0 {
            CompactLimit::Unavailable
        } else {
            limit
        },
        _ => limit,
    }
}

/// `used` as a whole percentage of `d`, rounded down.
pub open spec fn used_pct(used: u64, d: u64) -> nat {
    ((used * 100) as nat) / (d as nat)
}

/// `ctx:used/window (pct%)`.
pub open spec fn gauge_body(used: u64, d: u64) -> Seq<char> {
    "ctx:"@ + fmt_tokens_spec(used) + "/"@ + fmt_tokens_spec(d) + " ("@ + dec(used_pct(used, d))
        + "%)"@
}

/// The gauge against a window of `d` tokens: red with `⚠compact` when at
/// most 15 % of the window is left, yellow when at most 30 % is left,
/// green otherwise. The percentage is not clamped: it may exceed 100.
pub open spec fn gauge_spec(used: u64, d: u64) -> Seq<char> {
    let pct = used_pct(used, d);
    let body = gauge_body(used, d);
    if 85 <= pct {
        paint(RED@, body) + " "@ + RED@ + paint(BOLD@, "⚠compact"@)
    } else if 70 <= pct < 85 {
        paint(YELLOW@, body)
    } else {
        paint(GREEN@, body)
    }
}

/// The marker of a broken configuration.
pub open spec fn cfg_marker() -> Seq<char> {
    " "@ + RED@ + paint(BOLD@, "cfg!"@)
}

/// The context segment. Before the first response it is a gray
/// placeholder. With a window from [`denominator_spec`] it is the gauge;
/// without one, only the token count. A broken configuration measures
/// against the model ceiling and always adds the `cfg!` marker, the
/// placeholder included.
#[verifier::opaque]
pub open spec fn ctx_spec(p: Payload, limit: CompactLimit) -> Seq<char> {
    let used = used_tokens(p);
    let lim = effective_limit(limit);
    let colored = if used == 0 {
        paint(GRAY@, "ctx:--"@)
    } else {
        match denominator_spec(lim, reported_ceiling(p)) {
            Some(d) => gauge_spec(used, d),
            None => paint(GREEN@, "ctx:"@ + fmt_tokens_spec(used)),
        }
    };
    if lim == CompactLimit::Unavailable {
        colored + cfg_marker()
    } else {
        colored
    }
}

fn gauge(used: u64, d: u64) -> (r: String)
    requires
        d > 0,
    ensures
        r@ == gauge_spec(used, d),
{
    let pct: u128 = (used as u128) * 100 / (d as u128);
    let mut body = String::new();
    push_str(&mut body, "ctx:");
    let a = fmt_tokens(used);
    push_str(&mut body, a.as_str());
    push_str(&mut body, "/");
    let b = fmt_tokens(d);
    push_str(&mut body, b.as_str());
    push_str(&mut body, " (");
    push_dec_wide(&mut body, pct);
    push_str(&mut body, "%)");
    let ghost want = "ctx:"@ + fmt_tokens_spec(used) + "/"@ + fmt_tokens_spec(d) + " ("@ + dec(
        pct as nat,
    ) + "%)"@;
    assert(body@ =~= want);
    let mut s = String::new();
    if 85 <= pct {
        push_painted(&mut s, RED, body.as_str());
        push_str(&mut s, " ");
        push_str(&mut s, RED);
        push_painted(&mut s, BOLD, "⚠compact");
        assert(s@ =~= paint(RED@, want) + " "@ + RED@ + paint(BOLD@, "⚠compact"@));
    } else if 70 <= pct && pct < 85 {
        push_painted(&mut s, YELLOW, body.as_str());
    } else {
        push_painted(&mut s, GREEN, body.as_str());
    }
    s
}

fn ctx_part(p: &Payload, limit: CompactLimit) -> (r: String)
    ensures
        r@ == ctx_spec(*p, limit),
{
    reveal(ctx_spec);
    let (used, size): (u64, Option<u64>) = match &p.context_window {
        Some(cw) => (
            match cw.total_input_tokens {
                Some(u) => u,
                None => 0,
            },
            cw.context_window_size,
        ),
        None => (0, None),
    };
    let ceiling = match size {
        Some(g) => if g > 0 {
            Some(g)
        } else {
            None
        },
        None => None,
    };
    assert(ceiling == reported_ceiling(*p));
    let lim = match limit {
        CompactLimit::Configured(n) => if n == 0 {
            CompactLimit::Unavailable
        } else {
            limit
        },
        _ => limit,
    };
    assert(lim == effective_limit(limit));
    let colored = if used == 0 {
        painted(GRAY, "ctx:--")
    } else {
        match lim.denominator(ceiling) {
            Some(d) => gauge(used, d),
            None => {
                let mut t = String::new();
                push_str(&mut t, "ctx:");
                let f = fmt_tokens(used);
                push_str(&mut t, f.as_str());
                assert(t@ =~= "ctx:"@ + fmt_tokens_spec(used));
                painted(GREEN, t.as_str())
            },
        }
    };
    let broken = match lim {
        CompactLimit::Unavailable => true,
        _ => false,
    };
    if broken {
        let mut out = colored;
        push_str(&mut out, " ");
        push_str(&mut out, RED);
        push_painted(&mut out, BOLD, "cfg!");
        assert(out@ =~= ctx_spec(*p, limit));
        out
    } else {
        colored
    }
}

/// The model name: the display name, else the id.
pub open spec fn model_part_spec(p: Payload) -> Option<Seq<char>> {
    match p.model.display_name {
        Some(n) => Some(paint(PINK@, n@)),
        None => match p.model.id {
            Some(i) => Some(paint(PINK@, i@)),
            None => None,
        },
    }
}

/// The color of a reasoning-effort level.
pub open spec fn effort_color(level: Seq<char>) -> Seq<char> {
    if level == "low"@ {
        GRAY@
    } else if level == "medium"@ {
        BLUE@
    } else if level == "high"@ {
        CYAN@
    } else if level == "xhigh"@ {
        PURPLE@
    } else if level == "max"@ {
        RED@
    } else {
        GRAY@
    }
}

/// Whether extended thinking is reported on or off.
pub open spec fn thinking_enabled(p: Payload) -> Option<bool> {
    match p.thinking {
        Some(t) => t.enabled,
        None => None,
    }
}

/// The effort level with its deviation badges: `⚡fast` when fast mode is
/// on, `¬think` when thinking is off. A badge that is always present would
/// be noise.
pub open spec fn effort_part_spec(p: Payload) -> Option<Seq<char>> {
    match p.effort {
        Some(e) => match e.level {
            Some(l) => Some(
                paint(effort_color(l@), l@) + shown_if(
                    p.fast_mode == Some(true),
                    " "@ + paint(ORANGE@, "⚡fast"@),
                ) + shown_if(
                    thinking_enabled(p) == Some(false),
                    " "@ + paint(YELLOW@, "¬think"@),
                ),
            ),
            None => None,
        },
        None => None,
    }
}

/// The session cost in dollars.
pub open spec fn cost_part_spec(p: Payload) -> Option<Seq<char>> {
    match p.cost {
        Some(c) => match c.total_cost_usd {
            Some(t) => Some(paint(GOLD@, "$"@ + t@)),
            None => None,
        },
        None => None,
    }
}

/// The session name, cleaned of control characters and truncated.
pub open spec fn session_part_spec(p: Payload) -> Option<Seq<char>> {
    match p.session_name {
        Some(n) => Some(paint(TEAL@, clean_truncate_spec(n@, SESSION_MAX_CHARS as nat))),
        None => None,
    }
}

/// The segments of the second line; the context segment is always there.
pub open spec fn line2_parts(p: Payload, limit: CompactLimit) -> Seq<Seq<char>> {
    opt_part(model_part_spec(p)) + opt_part(effort_part_spec(p)) + seq![ctx_spec(p, limit)]
        + opt_part(cost_part_spec(p)) + opt_part(session_part_spec(p))
}

/// The second line: model, effort, context, cost and session name.
pub open spec fn line2_spec(p: Payload, limit: CompactLimit) -> Seq<char> {
    join_spec(line2_parts(p, limit), sep_spec())
}

fn painted(color: &str, body: &str) -> (r: String)
    ensures
        r@ == paint(color@, body@),
{
    let mut s = String::new();
    push_painted(&mut s, color, body);
    s
}

fn model_part(p: &Payload) -> (r: Option<String>)
    ensures
        opt_view(r) == model_part_spec(*p),
{
    match &p.model.display_name {
        Some(n) => Some(painted(PINK, n.as_str())),
        None => match &p.model.id {
            Some(i) => Some(painted(PINK, i.as_str())),
            None => None,
        },
    }
}

fn effort_part(p: &Payload) -> (r: Option<String>)
    ensures
        opt_view(r) == effort_part_spec(*p),
{
    let level = match &p.effort {
        Some(e) => match &e.level {
            Some(l) => l,
            None => return None,
        },
        None => return None,
    };
    let l = level.as_str();
    let color = if str_eq(l, "low") {
        GRAY
    } else if str_eq(l, "medium") {
        BLUE
    } else if str_eq(l, "high") {
        CYAN
    } else if str_eq(l, "xhigh") {
        PURPLE
    } else if str_eq(l, "max") {
        RED
    } else {
        GRAY
    };
    assert(color@ == effort_color(level@));
    let mut s = painted(color, l);
    let fast = match p.fast_mode {
        Some(b) => b,
        None => false,
    };
    if fast {
        push_str(&mut s, " ");
        push_painted(&mut s, ORANGE, "⚡fast");
    }
    let ghost a = paint(effort_color(level@), level@) + shown_if(
        p.fast_mode == Some(true),
        " "@ + paint(ORANGE@, "⚡fast"@),
    );
    assert(s@ =~= a);
    let no_think = match &p.thinking {
        Some(t) => match t.enabled {
            Some(b) => !b,
            None => false,
        },
        None => false,
    };
    if no_think {
        push_str(&mut s, " ");
        push_painted(&mut s, YELLOW, "¬think");
    }
    assert(s@ =~= a + shown_if(
        thinking_enabled(*p) == Some(false),
        " "@ + paint(YELLOW@, "¬think"@),
    ));
    Some(s)
}

fn cost_part(p: &Payload) -> (r: Option<String>)
    ensures
        opt_view(r) == cost_part_spec(*p),
{
    match &p.cost {
        Some(c) => match &c.total_cost_usd {
            Some(t) => {
                let mut s = String::new();
                push_str(&mut s, GOLD);
                push_str(&mut s, "$");
                push_str(&mut s, t.as_str());
                push_str(&mut s, RST);
                assert(s@ =~= paint(GOLD@, "$"@ + t@));
                Some(s)
            },
            None => None,
        },
        None => None,
    }
}

fn session_part(p: &Payload) -> (r: Option<String>)
    ensures
        opt_view(r) == session_part_spec(*p),
{
    match &p.session_name {
        Some(n) => {
            let t = truncate_ellipsis(n.as_str(), SESSION_MAX_CHARS);
            Some(painted(TEAL, t.as_str()))
        },
        None => None,
    }
}

fn line2(p: &Payload, limit: CompactLimit) -> (r: String)
    ensures
        r@ == line2_spec(*p, limit),
{
    let mut parts: Vec<String> = Vec::new();
    push_part(&mut parts, model_part(p));
    push_part(&mut parts, effort_part(p));
    push_part(&mut parts, Some(ctx_part(p, limit)));
    push_part(&mut parts, cost_part(p));
    push_part(&mut parts, session_part(p));
    assert(texts(parts@) =~= line2_parts(*p, limit));
    let sp = sep();
    join(&parts, sp.as_str())
}

// ---------------------------------------------------------------------
// Line 3: 5h/7d limits ↻reset · session tokens · last commit
// ---------------------------------------------------------------------

/// The color of a used share: red from 80 %, yellow from 50 %, teal below.
pub open spec fn rate_color(pct: int) -> Seq<char> {
    if pct >= 80 {
        RED@
    } else if pct >= 50 {
        YELLOW@
    } else {
        TEAL@
    }
}

/// One rate-limit window: `label pct%`, then the reset label when there is
/// one. A percentage outside `0..=100` is invalid input, not a rate: the
/// window does not render.
pub open spec fn rate_part_spec(
    label: Seq<char>,
    w: Option<RateWindow>,
    reset: Option<Seq<char>>,
) -> Option<Seq<char>> {
    match w {
        Some(w) => match w.used_percentage {
            Some(pct) => if 0 <= pct <= 100 {
                Some(
                    paint(rate_color(pct as int), label + " "@ + dec(pct as nat) + "%"@)
                        + match reset {
                        Some(l) => " "@ + paint(GRAY@, "↻"@ + l),
                        None => Seq::empty(),
                    },
                )
            } else {
                None
            },
            None => None,
        },
        None => None,
    }
}

/// Both windows, separated by a space; `reset_5h` and `reset_7d` are the
/// labels of their reset times.
pub open spec fn rate_line_spec(
    rl: RateLimits,
    reset_5h: Option<Seq<char>>,
    reset_7d: Option<Seq<char>>,
) -> Seq<char> {
    let a = rate_part_spec("5h"@, rl.five_hour, reset_5h);
    let b = rate_part_spec("7d"@, rl.seven_day, reset_7d);
    match (a, b) {
        (Some(x), Some(y)) => x + " "@ + y,
        (Some(x), None) => x,
        (None, Some(y)) => y,
        (None, None) => Seq::empty(),
    }
}

/// The rate-limit segment, when at least one window renders.
pub open spec fn rates_part_spec(
    p: Payload,
    reset_5h: Option<Seq<char>>,
    reset_7d: Option<Seq<char>>,
) -> Option<Seq<char>> {
    match p.rate_limits {
        Some(rl) => {
            let r = rate_line_spec(rl, reset_5h, reset_7d);
            if r.len() > 0 {
                Some(r)
            } else {
                None
            }
        },
        None => None,
    }
}

/// The session token total. A partial sum is not a total: it renders only
/// once the scan has reached the end of the transcript without losing a
/// relevant line, and only when it is not zero.
pub open spec fn tokens_part_spec(ext: External) -> Option<Seq<char>> {
    match ext.inventory {
        Some(inv) => if inv.caught_up && !inv.lossy && inv.total_tokens > 0 {
            Some(paint(GRAY@, "tok:"@) + paint(BLUE@, fmt_tokens_spec(inv.total_tokens)))
        } else {
            None
        },
        None => None,
    }
}

/// The subject of the last commit, when there is one.
pub open spec fn commit_part_spec(ext: External) -> Option<Seq<char>> {
    match ext.git {
        Some(g) => if g.last_commit@.len() > 0 {
            Some(paint(GRAY@, g.last_commit@))
        } else {
            None
        },
        None => None,
    }
}

/// The segments of the third line.
pub open spec fn line3_parts(
    p: Payload,
    ext: External,
    reset_5h: Option<Seq<char>>,
    reset_7d: Option<Seq<char>>,
) -> Seq<Seq<char>> {
    opt_part(rates_part_spec(p, reset_5h, reset_7d)) + opt_part(tokens_part_spec(ext)) + opt_part(
        commit_part_spec(ext),
    )
}

/// The third line: rate limits, token total and last commit.
pub open spec fn line3_spec(
    p: Payload,
    ext: External,
    reset_5h: Option<Seq<char>>,
    reset_7d: Option<Seq<char>>,
) -> Seq<char> {
    join_spec(line3_parts(p, ext, reset_5h, reset_7d), sep_spec())
}

fn rate_part(label: &str, w: &Option<RateWindow>, reset: &Option<String>) -> (r: Option<String>)
    ensures
        opt_view(r) == rate_part_spec(label@, *w, opt_view(*reset)),
{
    let w = match w {
        Some(w) => w,
        None => return None,
    };
    let pct = match w.used_percentage {
        Some(x) => x,
        None => return None,
    };
    if pct < 0 || pct > 100 {
        return None;
    }
    let color = if pct >= 80 {
        RED
    } else if pct >= 50 {
        YELLOW
    } else {
        TEAL
    };
    let mut s = String::new();
    push_str(&mut s, color);
    push_str(&mut s, label);
    push_str(&mut s, " ");
    push_dec(&mut s, pct as u64);
    push_str(&mut s, "%");
    push_str(&mut s, RST);
    let ghost head = paint(rate_color(pct as int), label@ + " "@ + dec(pct as nat) + "%"@);
    assert(s@ =~= head);
    match reset {
        Some(l) => {
            push_str(&mut s, " ");
            push_str(&mut s, GRAY);
            push_str(&mut s, "↻");
            push_str(&mut s, l.as_str());
            push_str(&mut s, RST);
            assert(s@ =~= head + (" "@ + paint(GRAY@, "↻"@ + l@)));
        },
        None => {
            assert(s@ =~= head + Seq::<char>::empty());
        },
    }
    Some(s)
}

fn rates_part(p: &Payload, reset_5h: &Option<String>, reset_7d: &Option<String>) -> (r: Option<
    String,
>)
    ensures
        opt_view(r) == rates_part_spec(*p, opt_view(*reset_5h), opt_view(*reset_7d)),
{
    let rl = match &p.rate_limits {
        Some(rl) => rl,
        None => return None,
    };
    let a = rate_part("5h", &rl.five_hour, reset_5h);
    let b = rate_part("7d", &rl.seven_day, reset_7d);
    let ghost want = rate_line_spec(*rl, opt_view(*reset_5h), opt_view(*reset_7d));
    let s = match (a, b) {
        (Some(x), Some(y)) => {
            let mut x = x;
            push_str(&mut x, " ");
            push_str(&mut x, y.as_str());
            x
        },
        (Some(x), None) => x,
        (None, Some(y)) => y,
        (None, None) => String::new(),
    };
    assert(s@ =~= want);
    if chars_of(s.as_str()).len() > 0 {
        Some(s)
    } else {
        None
    }
}

fn tokens_part(ext: &External) -> (r: Option<String>)
    ensures
        opt_view(r) == tokens_part_spec(*ext),
{
    match &ext.inventory {
        Some(inv) => if inv.caught_up && !inv.lossy && inv.total_tokens > 0 {
            let mut s = painted(GRAY, "tok:");
            let f = fmt_tokens(inv.total_tokens);
            push_painted(&mut s, BLUE, f.as_str());
            Some(s)
        } else {
            None
        },
        None => None,
    }
}

fn commit_part(ext: &External) -> (r: Option<String>)
    ensures
        opt_view(r) == commit_part_spec(*ext),
{
    match &ext.git {
        Some(g) => if chars_of(g.last_commit.as_str()).len() > 0 {
            Some(painted(GRAY, g.last_commit.as_str()))
        } else {
            None
        },
        None => None,
    }
}

fn line3(p: &Payload, ext: &External, reset_5h: &Option<String>, reset_7d: &Option<String>) -> (r:
    String)
    ensures
        r@ == line3_spec(*p, *ext, opt_view(*reset_5h), opt_view(*reset_7d)),
{
    let mut parts: Vec<String> = Vec::new();
    push_part(&mut parts, rates_part(p, reset_5h, reset_7d));
    push_part(&mut parts, tokens_part(ext));
    push_part(&mut parts, commit_part(ext));
    assert(texts(parts@) =~= line3_parts(*p, *ext, opt_view(*reset_5h), opt_view(*reset_7d)));
    let sp = sep();
    join(&parts, sp.as_str())
}

// ---------------------------------------------------------------------
// Line 4 (ambient, deviation-only): mcp · skills · sessions
// ---------------------------------------------------------------------

/// The number of loaded MCP servers, when it is not zero.
pub open spec fn mcp_part_spec(ext: External) -> Option<Seq<char>> {
    match ext.inventory {
        Some(inv) => if loaded_servers(inv@).len() > 0 {
            Some(paint(GRAY@, "mcp:"@) + paint(BLUE@, dec(loaded_servers(inv@).len())))
        } else {
            None
        },
        None => None,
    }
}

/// The latest skill count, when it is not zero.
pub open spec fn skills_part_spec(ext: External) -> Option<Seq<char>> {
    match ext.inventory {
        Some(inv) => match inv.skill_count {
            Some(n) => if n > 0 {
                Some(paint(GRAY@, "skills:"@) + paint(LAVENDER@, dec(n as nat)))
            } else {
                None
            },
            None => None,
        },
        None => None,
    }
}

/// The active sessions: one session is the default state, only a
/// plurality is signal.
pub open spec fn sessions_part_spec(ext: External) -> Option<Seq<char>> {
    match ext.active_sessions {
        Some(n) => if n >= 2 {
            Some(paint(GRAY@, "sessions:"@) + paint(TEAL@, dec(n as nat)))
        } else {
            None
        },
        None => None,
    }
}

/// The segments of the fourth line.
pub open spec fn line4_parts(ext: External) -> Seq<Seq<char>> {
    opt_part(mcp_part_spec(ext)) + opt_part(skills_part_spec(ext)) + opt_part(
        sessions_part_spec(ext),
    )
}

/// The fourth line: loaded MCP servers, skills and active sessions.
pub open spec fn line4_spec(ext: External) -> Seq<char> {
    join_spec(line4_parts(ext), sep_spec())
}

fn line4(ext: &External) -> (r: String)
    ensures
        r@ == line4_spec(*ext),
{
    let mut parts: Vec<String> = Vec::new();
    match &ext.inventory {
        Some(inv) => {
            let mcp = inv.mcp_count();
            if mcp > 0 {
                let mut s = painted(GRAY, "mcp:");
                push_painted_num(&mut s, BLUE, "", mcp);
                proof {
                    reveal_strlit("");
                }
                assert(s@ =~= paint(GRAY@, "mcp:"@) + paint(BLUE@, dec(mcp as nat)));
                parts.push(s);
            }
            match inv.skill_count {
                Some(n) => if n > 0 {
                    let mut s = painted(GRAY, "skills:");
                    push_painted_num(&mut s, LAVENDER, "", n);
                    proof {
                        reveal_strlit("");
                    }
                    assert(s@ =~= paint(GRAY@, "skills:"@) + paint(LAVENDER@, dec(n as nat)));
                    parts.push(s);
                },
                None => {},
            }
        },
        None => {},
    }
    let ghost two = texts(parts@);
    assert(two =~= opt_part(mcp_part_spec(*ext)) + opt_part(skills_part_spec(*ext)));
    match ext.active_sessions {
        Some(n) => if n >= 2 {
            let mut s = painted(GRAY, "sessions:");
            push_painted_num(&mut s, TEAL, "", n);
            proof {
                reveal_strlit("");
            }
            assert(s@ =~= paint(GRAY@, "sessions:"@) + paint(TEAL@, dec(n as nat)));
            parts.push(s);
        },
        None => {},
    }
    assert(texts(parts@) =~= line4_parts(*ext));
    let sp = sep();
    join(&parts, sp.as_str())
}

// ---------------------------------------------------------------------
// The whole render
// ---------------------------------------------------------------------

/// The lines that are not empty, in order.
pub open spec fn nonempty_lines(ls: Seq<Seq<char>>) -> Seq<Seq<char>> {
    ls.filter(|l: Seq<char>| l.len() > 0)
}

/// The statusline: the non-empty lines among the four, each ending with a
/// newline. `reset_5h` and `reset_7d` are the labels of the rate-limit
/// reset times.
pub open spec fn render_spec(
    p: Payload,
    ext: External,
    reset_5h: Option<Seq<char>>,
    reset_7d: Option<Seq<char>>,
) -> Seq<char> {
    join_spec(
        nonempty_lines(
            seq![
                line1_spec(p, ext.git),
                line2_spec(p, ext.compact_limit),
                line3_spec(p, ext, reset_5h, reset_7d),
                line4_spec(ext),
            ],
        ),
        "\n"@,
    ) + "\n"@
}

/// Renders the statusline with the given reset labels for the five-hour
/// and the seven-day windows.
pub fn render_with(
    p: &Payload,
    ext: &External,
    reset_5h: &Option<String>,
    reset_7d: &Option<String>,
) -> (r: String)
    ensures
        r@ == render_spec(*p, *ext, opt_view(*reset_5h), opt_view(*reset_7d)),
{
    let ghost f = |l: Seq<char>| l.len() > 0;
    let l1 = line1(p, &ext.git);
    let l2 = line2(p, ext.compact_limit);
    let l3 = line3(p, ext, reset_5h, reset_7d);
    let l4 = line4(ext);
    let ghost s0 = Seq::<Seq<char>>::empty();
    let ghost s1 = s0.push(l1@);
    let ghost s2 = s1.push(l2@);
    let ghost s3 = s2.push(l3@);
    let ghost s4 = s3.push(l4@);
    let mut lines: Vec<String> = Vec::new();
    proof {
        assert(s0.filter(f) =~= s0) by {
            reveal_with_fuel(Seq::<_>::filter, 1);
        }
        s0.lemma_filter_push(l1@, f);
        s1.lemma_filter_push(l2@, f);
        s2.lemma_filter_push(l3@, f);
        s3.lemma_filter_push(l4@, f);
    }
    if chars_of(l1.as_str()).len() > 0 {
        lines.push(l1);
    }
    assert(texts(lines@) =~= s1.filter(f));
    let ghost t1 = texts(lines@);
    if chars_of(l2.as_str()).len() > 0 {
        lines.push(l2);
        assert(texts(lines@) =~= t1.push(l2@));
    }
    assert(texts(lines@) =~= s2.filter(f));
    let ghost t2 = texts(lines@);
    if chars_of(l3.as_str()).len() > 0 {
        lines.push(l3);
        assert(texts(lines@) =~= t2.push(l3@));
    }
    assert(texts(lines@) =~= s3.filter(f));
    let ghost t3 = texts(lines@);
    if chars_of(l4.as_str()).len() > 0 {
        lines.push(l4);
        assert(texts(lines@) =~= t3.push(l4@));
    }
    assert(texts(lines@) =~= s4.filter(f));
    assert(s4 =~= seq![l1@, l2@, l3@, l4@]);
    let mut out = join(&lines, "\n");
    push_str(&mut out, "\n");
    out
}

/// The label that stands for the reset of window `w`: a clock time or a
/// weekday when the window reports a reset time that chrono can represent,
/// none otherwise.
pub open spec fn reset_fits(w: Option<RateWindow>, l: Option<Seq<char>>) -> bool {
    match w {
        Some(v) => match v.resets_at {
            Some(e) => if representable_secs(normalize_epoch_spec(e)) {
                l matches Some(x) && is_reset_label(x)
            } else {
                l is None
            },
            None => l is None,
        },
        None => l is None,
    }
}

/// The five-hour window of the payload.
pub open spec fn five_hour_of(p: Payload) -> Option<RateWindow> {
    match p.rate_limits {
        Some(rl) => rl.five_hour,
        None => None,
    }
}

/// The seven-day window of the payload.
pub open spec fn seven_day_of(p: Payload) -> Option<RateWindow> {
    match p.rate_limits {
        Some(rl) => rl.seven_day,
        None => None,
    }
}

/// The label of a window's reset time, as the local clock shows it.
fn reset_of(w: &Option<RateWindow>) -> (r: Option<String>)
    ensures
        reset_fits(*w, opt_view(r)),
{
    match w {
        Some(x) => match x.resets_at {
            Some(e) => reset_label(e),
            None => None,
        },
        None => None,
    }
}

/// Renders the statusline. The reset labels of the rate-limit windows
/// depend on the clock and the local time zone; apart from them the
/// output is [`render_spec`] exactly, as [`render_with`] states.
pub fn render(p: &Payload, ext: &External) -> (r: String)
    ensures
        exists|l5: Option<Seq<char>>, l7: Option<Seq<char>>|
            reset_fits(five_hour_of(*p), l5) && reset_fits(seven_day_of(*p), l7) && r@
                == #[trigger] render_spec(*p, *ext, l5, l7),
{
    let (l5, l7) = match &p.rate_limits {
        Some(rl) => (reset_of(&rl.five_hour), reset_of(&rl.seven_day)),
        None => (None, None),
    };
    let r = render_with(p, ext, &l5, &l7);
    assert(reset_fits(five_hour_of(*p), opt_view(l5)) && reset_fits(
        seven_day_of(*p),
        opt_view(l7),
    ));
    r
}

// ---------------------------------------------------------------------
// Laws
// ---------------------------------------------------------------------

/// A joined text is at least as long as any of its parts.
proof fn lemma_join_len(parts: Seq<Seq<char>>, sep: Seq<char>, i: int)
    requires
        0 <= i < parts.len(),
    ensures
        join_spec(parts, sep).len() >= parts[i].len(),
    decreases parts.len(),
{
    if parts.len() > 1 && i < parts.len() - 1 {
        lemma_join_len(parts.drop_last(), sep, i);
    }
}

/// The context segment always renders, so the second line is never empty
/// and the statusline never blank.
pub proof fn law_context_line_always_renders(p: Payload, limit: CompactLimit)
    ensures
        ctx_spec(p, limit).len() > 0,
        line2_spec(p, limit).len() > 0,
{
    reveal(ctx_spec);
    reveal_strlit("\x1b[0m");
    let parts = line2_parts(p, limit);
    let k = opt_part(model_part_spec(p)).len() + opt_part(effort_part_spec(p)).len();
    assert(parts[k as int] == ctx_spec(p, limit));
    lemma_join_len(parts, sep_spec(), k as int);
}

/// Nothing on the ambient line asks for attention: no loaded MCP server,
/// no skill listing with skills in it, fewer than two active sessions.
pub open spec fn ambient_quiet(ext: External) -> bool {
    &&& match ext.inventory {
        Some(inv) => loaded_servers(inv@).len() == 0 && !(inv.skill_count matches Some(n) && n > 0),
        None => true,
    }
    &&& match ext.active_sessions {
        Some(n) => n < 2,
        None => true,
    }
}

/// The ambient line shows deviations only: a zero count does not render,
/// and the whole line is absent exactly when nothing on it deviates.
pub proof fn law_ambient_line_only_on_deviation(ext: External)
    ensures
        line4_spec(ext).len() == 0 <==> ambient_quiet(ext),
{
    reveal_strlit("\x1b[0m");
    let parts = line4_parts(ext);
    if ambient_quiet(ext) {
        assert(parts =~= Seq::<Seq<char>>::empty());
    } else {
        assert(parts.len() > 0);
        let k = parts.len() - 1;
        assert(parts[k as int].len() > 0);
        lemma_join_len(parts, sep_spec(), k as int);
    }
}

/// A partial sum is not a total: while the scan has not reached the end
/// of the transcript, or after it lost a relevant line, no token total
/// renders.
pub proof fn law_partial_total_not_shown(ext: External)
    ensures
        (ext.inventory matches Some(inv) && (!inv.caught_up || inv.lossy)) ==> tokens_part_spec(
            ext,
        ) is None,
{
}

/// A percentage outside `0..=100` is invalid input, not a rate: its window
/// does not render.
pub proof fn law_invalid_percentage_not_shown(
    label: Seq<char>,
    w: Option<RateWindow>,
    reset: Option<Seq<char>>,
)
    ensures
        (w matches Some(x) && x.used_percentage matches Some(pct) && (pct < 0 || pct > 100))
            ==> rate_part_spec(label, w, reset) is None,
{
}

/// The session name renders without control characters and with at most
/// [`SESSION_MAX_CHARS`] characters plus the ellipsis, so it can neither
/// inject a line nor open an escape sequence.
pub proof fn law_session_name_is_safe(p: Payload)
    ensures
        p.session_name matches Some(n) ==> {
            let t = clean_truncate_spec(n@, SESSION_MAX_CHARS as nat);
            &&& session_part_spec(p) == Some(paint(TEAL@, t))
            &&& t.len() <= SESSION_MAX_CHARS + 1
            &&& forall|i: int| 0 <= i < t.len() ==> !is_control_spec(#[trigger] t[i])
        },
{
    match p.session_name {
        Some(n) => law_clean_truncate_is_safe(n@, SESSION_MAX_CHARS as nat),
        None => {},
    }
}

/// A broken configuration is flagged with `cfg!` whatever the token count,
/// and measured against the model ceiling the payload reports, never
/// against an invented window; a valid configuration shows no marker.
pub proof fn law_broken_config_flagged(p: Payload, limit: CompactLimit)
    ensures
        effective_limit(limit) == CompactLimit::Unavailable ==> ctx_spec(p, limit) == (if used_tokens(
            p,
        ) == 0 {
            paint(GRAY@, "ctx:--"@)
        } else {
            match reported_ceiling(p) {
                Some(g) => gauge_spec(used_tokens(p), g),
                None => paint(GREEN@, "ctx:"@ + fmt_tokens_spec(used_tokens(p))),
            }
        }) + cfg_marker(),
        effective_limit(limit) != CompactLimit::Unavailable ==> ctx_spec(p, limit) == (if used_tokens(
            p,
        ) == 0 {
            paint(GRAY@, "ctx:--"@)
        } else {
            match denominator_spec(limit, reported_ceiling(p)) {
                Some(d) => gauge_spec(used_tokens(p), d),
                None => paint(GREEN@, "ctx:"@ + fmt_tokens_spec(used_tokens(p))),
            }
        }),
{
    reveal(ctx_spec);
}

/// Without a reported model ceiling there is no denominator: the segment
/// shows the token count only, with no percentage.
pub proof fn law_no_ceiling_no_percentage(p: Payload, limit: CompactLimit)
    ensures
        used_tokens(p) > 0 && reported_ceiling(p) is None ==> ctx_spec(p, limit) == paint(
            GREEN@,
            "ctx:"@ + fmt_tokens_spec(used_tokens(p)),
        ) + shown_if(effective_limit(limit) == CompactLimit::Unavailable, cfg_marker()),
{
    reveal(ctx_spec);
}

/// The number tells the truth: the percentage is not clamped at 100, and
/// from 85 % of the window on, past the window included, the gauge warns.
pub proof fn law_gauge_warns_near_window(used: u64, d: u64)
    requires
        d > 0,
    ensures
        used_pct(used, d) == (used * 100) / (d as int),
        used * 100 >= 85 * d ==> gauge_spec(used, d) == paint(RED@, gauge_body(used, d)) + " "@
            + RED@ + paint(BOLD@, "⚠compact"@),
{
    let x = used * 100;
    if x >= 85 * d {
        assert(x / (d as int) >= 85) by (nonlinear_arith)
            requires
                x >= 85 * d,
                d > 0,
        ;
    }
}

/// The statusline ends with a newline and always holds the second line.
pub proof fn law_render_shape(
    p: Payload,
    ext: External,
    reset_5h: Option<Seq<char>>,
    reset_7d: Option<Seq<char>>,
)
    ensures
        render_spec(p, ext, reset_5h, reset_7d).last() == '\n',
        nonempty_lines(
            seq![
                line1_spec(p, ext.git),
                line2_spec(p, ext.compact_limit),
                line3_spec(p, ext, reset_5h, reset_7d),
                line4_spec(ext),
            ],
        ).contains(line2_spec(p, ext.compact_limit)),
{
    reveal_strlit("\n");
    let f = |l: Seq<char>| l.len() > 0;
    let ls = seq![
        line1_spec(p, ext.git),
        line2_spec(p, ext.compact_limit),
        line3_spec(p, ext, reset_5h, reset_7d),
        line4_spec(ext),
    ];
    law_context_line_always_renders(p, ext.compact_limit);
    assert(f(ls[1]));
    ls.lemma_filter_contains_rev(f, ls[1]);
}

/// An empty line does not render: every line of the statusline has text.
pub proof fn law_no_empty_line(ls: Seq<Seq<char>>)
    ensures
        forall|i: int|
            0 <= i < nonempty_lines(ls).len() ==> (#[trigger] nonempty_lines(ls)[i]).len() > 0,
{
    let f = |l: Seq<char>| l.len() > 0;
    assert forall|i: int| 0 <= i < nonempty_lines(ls).len() implies (#[trigger] nonempty_lines(
        ls,
    )[i]).len() > 0 by {
        ls.lemma_filter_pred(f, i);
    }
}

/// A badge for a default mode does not render: with fast mode not on and
/// thinking not off, the effort segment is the level alone.
pub proof fn law_default_modes_have_no_badge(p: Payload)
    ensures
        p.fast_mode != Some(true) && thinking_enabled(p) != Some(false) ==> effort_part_spec(p)
            == match p.effort {
            Some(e) => match e.level {
                Some(l) => Some(paint(effort_color(l@), l@)),
                None => None,
            },
            None => None,
        },
{
    match p.effort {
        Some(e) => match e.level {
            Some(l) => {
                assert(paint(effort_color(l@), l@) + Seq::<char>::empty() + Seq::<char>::empty()
                    =~= paint(effort_color(l@), l@));
            },
            None => {},
        },
        None => {},
    }
}

/// The worktree mark on the first line is there exactly when git reports a
/// linked worktree or the payload names one; it follows the branch and
/// precedes the counters.
pub proof fn law_worktree_mark_exactly_on_worktree(p: Payload, g: GitInfo)
    ensures
        line1_spec(p, Some(g)) == repo_head(p, g) + sep_spec() + paint(LAVENDER@, g.branch@)
            + shown_if(
            g.is_worktree || p.workspace.git_worktree is Some,
            " "@ + paint(PURPLE@, "[wt]"@),
        ) + spaced(counters_spec(g)) + spaced(sync_spec(g)) + match p.pr {
            Some(pr) => " "@ + pr_spec(pr),
            None => Seq::empty(),
        },
{
}

/// The deviation badges appear exactly on deviation: `⚡fast` exactly when
/// fast mode is on, `¬think` exactly when thinking is off, each after the
/// effort level.
pub proof fn law_badges_exactly_on_deviation(p: Payload)
    ensures
        match p.effort {
            Some(e) => match e.level {
                Some(l) => effort_part_spec(p) == Some(
                    paint(effort_color(l@), l@) + shown_if(
                        p.fast_mode == Some(true),
                        " "@ + paint(ORANGE@, "⚡fast"@),
                    ) + shown_if(
                        thinking_enabled(p) == Some(false),
                        " "@ + paint(YELLOW@, "¬think"@),
                    ),
                ),
                None => effort_part_spec(p) is None,
            },
            None => effort_part_spec(p) is None,
        },
{
}

/// The token total renders exactly when the scan has caught up, lost no
/// relevant line, and the total is not zero; it then shows the total.
pub proof fn law_tokens_segment_exactly(ext: External)
    ensures
        tokens_part_spec(ext) is Some <==> (ext.inventory matches Some(inv) && inv.caught_up
            && !inv.lossy && inv.total_tokens > 0),
        ext.inventory matches Some(inv) ==> (tokens_part_spec(ext) is Some ==> tokens_part_spec(
            ext,
        ) == Some(paint(GRAY@, "tok:"@) + paint(BLUE@, fmt_tokens_spec(inv.total_tokens)))),
{
}

/// Each ambient segment renders exactly on its deviation: MCP servers when
/// at least one is loaded, skills when the latest listing holds some,
/// sessions when at least two are active.
pub proof fn law_ambient_segments_exactly(ext: External)
    ensures
        mcp_part_spec(ext) is Some <==> (ext.inventory matches Some(inv) && loaded_servers(
            inv@,
        ).len() > 0),
        skills_part_spec(ext) is Some <==> (ext.inventory matches Some(inv)
            && inv.skill_count matches Some(n) && n > 0),
        sessions_part_spec(ext) is Some <==> (ext.active_sessions matches Some(n) && n >= 2),
        line4_parts(ext) == opt_part(mcp_part_spec(ext)) + opt_part(skills_part_spec(ext))
            + opt_part(sessions_part_spec(ext)),
{
}

// ---------------------------------------------------------------------
// One output line per line
// ---------------------------------------------------------------------

/// An optional text without newlines.
pub open spec fn opt_nl_free(o: Option<String>) -> bool {
    match o {
        Some(x) => nl_free(x@),
        None => true,
    }
}

/// The payload texts that the render shows verbatim hold no newline. (The
/// session name needs no such condition: it is cleaned of control
/// characters.)
pub open spec fn payload_lines_safe(p: Payload) -> bool {
    &&& opt_nl_free(p.cwd)
    &&& opt_nl_free(p.workspace.current_dir)
    &&& opt_nl_free(p.model.id)
    &&& opt_nl_free(p.model.display_name)
    &&& match p.workspace.repo {
        Some(r) => opt_nl_free(r.host) && opt_nl_free(r.owner) && opt_nl_free(r.name),
        None => true,
    }
    &&& match p.effort {
        Some(e) => opt_nl_free(e.level),
        None => true,
    }
    &&& match p.cost {
        Some(c) => opt_nl_free(c.total_cost_usd),
        None => true,
    }
    &&& match p.pr {
        Some(pr) => opt_nl_free(pr.url),
        None => true,
    }
}

/// The git texts that the render shows verbatim hold no newline.
pub open spec fn git_lines_safe(git: Option<GitInfo>) -> bool {
    match git {
        Some(g) => nl_free(g.repo_name@) && nl_free(g.branch@) && nl_free(g.last_commit@),
        None => true,
    }
}

/// A reset label without newlines.
pub open spec fn label_lines_safe(l: Option<Seq<char>>) -> bool {
    match l {
        Some(x) => nl_free(x),
        None => true,
    }
}

proof fn lemma_literals_nl_free()
    ensures
        nl_free(RST@),
        nl_free(BOLD@),
        nl_free(GRAY@),
        nl_free(PURPLE@),
        nl_free(CYAN@),
        nl_free(BLUE@),
        nl_free(PINK@),
        nl_free(ORANGE@),
        nl_free(GREEN@),
        nl_free(YELLOW@),
        nl_free(RED@),
        nl_free(GOLD@),
        nl_free(LAVENDER@),
        nl_free(TEAL@),
        nl_free(" "@),
        nl_free("·"@),
        nl_free("[wt]"@),
        nl_free("+"@),
        nl_free("~"@),
        nl_free("?"@),
        nl_free("↑"@),
        nl_free("↓"@),
        nl_free("✓"@),
        nl_free("✗"@),
        nl_free("◌"@),
        nl_free("○"@),
        nl_free("#"@),
        nl_free("\x1b]8;;"@),
        nl_free("\x07"@),
        nl_free("\x1b]8;;\x07"@),
        nl_free("https://"@),
        nl_free("/"@),
        nl_free("."@),
        nl_free("M"@),
        nl_free("K"@),
        nl_free("ctx:--"@),
        nl_free("ctx:"@),
        nl_free(" ("@),
        nl_free("%)"@),
        nl_free("⚠compact"@),
        nl_free("cfg!"@),
        nl_free("⚡fast"@),
        nl_free("¬think"@),
        nl_free("$"@),
        nl_free("5h"@),
        nl_free("7d"@),
        nl_free("%"@),
        nl_free("↻"@),
        nl_free("tok:"@),
        nl_free("mcp:"@),
        nl_free("skills:"@),
        nl_free("sessions:"@),
{
    reveal_strlit("\x1b[0m");
    reveal_strlit("\x1b[1m");
    reveal_strlit("\x1b[38;5;240m");
    reveal_strlit("\x1b[38;5;183m");
    reveal_strlit("\x1b[38;5;81m");
    reveal_strlit("\x1b[38;5;111m");
    reveal_strlit("\x1b[38;5;212m");
    reveal_strlit("\x1b[38;5;209m");
    reveal_strlit("\x1b[38;5;120m");
    reveal_strlit("\x1b[38;5;221m");
    reveal_strlit("\x1b[38;5;204m");
    reveal_strlit("\x1b[38;5;178m");
    reveal_strlit("\x1b[38;5;147m");
    reveal_strlit("\x1b[38;5;73m");
    reveal_strlit(" ");
    reveal_strlit("·");
    reveal_strlit("[wt]");
    reveal_strlit("+");
    reveal_strlit("~");
    reveal_strlit("?");
    reveal_strlit("↑");
    reveal_strlit("↓");
    reveal_strlit("✓");
    reveal_strlit("✗");
    reveal_strlit("◌");
    reveal_strlit("○");
    reveal_strlit("#");
    reveal_strlit("\x1b]8;;");
    reveal_strlit("\x07");
    reveal_strlit("\x1b]8;;\x07");
    reveal_strlit("https://");
    reveal_strlit("/");
    reveal_strlit(".");
    reveal_strlit("M");
    reveal_strlit("K");
    reveal_strlit("ctx:--");
    reveal_strlit("ctx:");
    reveal_strlit(" (");
    reveal_strlit("%)");
    reveal_strlit("⚠compact");
    reveal_strlit("cfg!");
    reveal_strlit("⚡fast");
    reveal_strlit("¬think");
    reveal_strlit("$");
    reveal_strlit("5h");
    reveal_strlit("7d");
    reveal_strlit("%");
    reveal_strlit("↻");
    reveal_strlit("tok:");
    reveal_strlit("mcp:");
    reveal_strlit("skills:");
    reveal_strlit("sessions:");
}

proof fn lemma_join_nl_free(parts: Seq<Seq<char>>, sep: Seq<char>)
    requires
        nl_free(sep),
        forall|i: int| 0 <= i < parts.len() ==> nl_free(#[trigger] parts[i]),
    ensures
        nl_free(join_spec(parts, sep)),
    decreases parts.len(),
{
    if parts.len() > 1 {
        lemma_join_nl_free(parts.drop_last(), sep);
        assert(nl_free(parts.last()));
    } else if parts.len() == 1 {
        assert(nl_free(parts[0]));
    }
}

proof fn lemma_fmt_tokens_nl_free(t: u64)
    ensures
        nl_free(fmt_tokens_spec(t)),
{
    lemma_literals_nl_free();
    lemma_dec_nl_free(t as nat);
    lemma_dec_nl_free((t / 1_000) as nat);
    lemma_dec_nl_free(tenths_of_millions(t) / 10);
    lemma_dec_nl_free(tenths_of_millions(t) % 10);
}

proof fn lemma_repo_head_nl_free(p: Payload, g: GitInfo)
    requires
        payload_lines_safe(p),
        git_lines_safe(Some(g)),
    ensures
        nl_free(repo_head(p, g)),
{
    lemma_literals_nl_free();
    assert(nl_free(repo_display_name(p, g)));
    match p.workspace.repo {
        Some(r) => match url_spec(r) {
            Some(u) => assert(nl_free(u)),
            None => {},
        },
        None => {},
    }
}

proof fn lemma_counts_nl_free(g: GitInfo)
    ensures
        nl_free(counters_spec(g)),
        nl_free(sync_spec(g)),
{
    lemma_literals_nl_free();
    lemma_dec_nl_free(g.staged as nat);
    lemma_dec_nl_free(g.modified as nat);
    lemma_dec_nl_free(g.untracked as nat);
    lemma_dec_nl_free(g.ahead as nat);
    lemma_dec_nl_free(g.behind as nat);
    assert(nl_free(paint(GREEN@, "+"@ + dec(g.staged as nat))));
    assert(nl_free(paint(ORANGE@, "~"@ + dec(g.modified as nat))));
    assert(nl_free(paint(GRAY@, "?"@ + dec(g.untracked as nat))));
    assert(nl_free(paint(PURPLE@, "↑"@ + dec(g.ahead as nat))));
    assert(nl_free(paint(BLUE@, "↓"@ + dec(g.behind as nat))));
}

proof fn lemma_pr_nl_free(pr: Pr)
    requires
        opt_nl_free(pr.url),
    ensures
        nl_free(pr_spec(pr)),
{
    lemma_literals_nl_free();
    match pr.number {
        Some(n) => lemma_dec_nl_free(n as nat),
        None => {},
    }
    let state = opt_view(pr.review_state);
    assert(nl_free(pr_icon(state)));
    assert(nl_free(pr_color(state)));
}

proof fn lemma_line1_nl_free(p: Payload, git: Option<GitInfo>)
    requires
        payload_lines_safe(p),
        git_lines_safe(git),
    ensures
        nl_free(line1_spec(p, git)),
{
    lemma_literals_nl_free();
    match git {
        None => {
            match cwd_spec(p) {
                Some(c) => lemma_file_name_nl_free(c),
                None => {},
            }
            assert(nl_free(dir_name_spec(p)));
        },
        Some(g) => {
            lemma_repo_head_nl_free(p, g);
            lemma_counts_nl_free(g);
            let tail = match p.pr {
                Some(pr) => " "@ + pr_spec(pr),
                None => Seq::<char>::empty(),
            };
            match p.pr {
                Some(pr) => lemma_pr_nl_free(pr),
                None => {},
            }
            assert(nl_free(tail));
            assert(nl_free(sep_spec()));
            let wt = shown_if(
                g.is_worktree || p.workspace.git_worktree is Some,
                " "@ + paint(PURPLE@, "[wt]"@),
            );
            assert(nl_free(wt));
            assert(nl_free(spaced(counters_spec(g))));
            assert(nl_free(spaced(sync_spec(g))));
            let head = repo_head(p, g) + sep_spec() + paint(LAVENDER@, g.branch@);
            assert(nl_free(head));
            assert(nl_free(head + wt));
            assert(nl_free(head + wt + spaced(counters_spec(g))));
            assert(nl_free(head + wt + spaced(counters_spec(g)) + spaced(sync_spec(g))));
        },
    }
}

proof fn lemma_gauge_nl_free(used: u64, d: u64)
    ensures
        nl_free(gauge_spec(used, d)),
{
    lemma_literals_nl_free();
    lemma_fmt_tokens_nl_free(used);
    lemma_fmt_tokens_nl_free(d);
    lemma_dec_nl_free(used_pct(used, d));
    assert(nl_free(gauge_body(used, d)));
}

proof fn lemma_ctx_nl_free(p: Payload, limit: CompactLimit)
    ensures
        nl_free(ctx_spec(p, limit)),
{
    lemma_literals_nl_free();
    reveal(ctx_spec);
    let used = used_tokens(p);
    lemma_fmt_tokens_nl_free(used);
    match denominator_spec(effective_limit(limit), reported_ceiling(p)) {
        Some(d) => lemma_gauge_nl_free(used, d),
        None => {},
    }
    assert(nl_free(cfg_marker()));
}

proof fn lemma_line2_parts_nl_free(p: Payload)
    requires
        payload_lines_safe(p),
    ensures
        model_part_spec(p) matches Some(x) ==> nl_free(x),
        effort_part_spec(p) matches Some(x) ==> nl_free(x),
        cost_part_spec(p) matches Some(x) ==> nl_free(x),
        session_part_spec(p) matches Some(x) ==> nl_free(x),
{
    lemma_literals_nl_free();
    match p.session_name {
        Some(n) => lemma_clean_truncate_nl_free(n@, SESSION_MAX_CHARS as nat),
        None => {},
    }
    match p.effort {
        Some(e) => match e.level {
            Some(l) => {
                assert(nl_free(effort_color(l@)));
            },
            None => {},
        },
        None => {},
    }
}

proof fn lemma_line2_nl_free(p: Payload, limit: CompactLimit)
    requires
        payload_lines_safe(p),
    ensures
        nl_free(line2_spec(p, limit)),
{
    lemma_literals_nl_free();
    lemma_ctx_nl_free(p, limit);
    lemma_line2_parts_nl_free(p);
    let parts = line2_parts(p, limit);
    assert forall|i: int| 0 <= i < parts.len() implies nl_free(#[trigger] parts[i]) by {}
    lemma_join_nl_free(parts, sep_spec());
}

proof fn lemma_line3_nl_free(
    p: Payload,
    ext: External,
    reset_5h: Option<Seq<char>>,
    reset_7d: Option<Seq<char>>,
)
    requires
        git_lines_safe(ext.git),
        label_lines_safe(reset_5h),
        label_lines_safe(reset_7d),
    ensures
        nl_free(line3_spec(p, ext, reset_5h, reset_7d)),
{
    lemma_literals_nl_free();
    match p.rate_limits {
        Some(rl) => {
            match rl.five_hour {
                Some(w) => match w.used_percentage {
                    Some(x) => lemma_dec_nl_free(x as nat),
                    None => {},
                },
                None => {},
            }
            match rl.seven_day {
                Some(w) => match w.used_percentage {
                    Some(x) => lemma_dec_nl_free(x as nat),
                    None => {},
                },
                None => {},
            }
            assert(rate_part_spec("5h"@, rl.five_hour, reset_5h) matches Some(x) ==> nl_free(x));
            assert(rate_part_spec("7d"@, rl.seven_day, reset_7d) matches Some(x) ==> nl_free(x));
            assert(nl_free(rate_line_spec(rl, reset_5h, reset_7d)));
        },
        None => {},
    }
    match ext.inventory {
        Some(inv) => lemma_fmt_tokens_nl_free(inv.total_tokens),
        None => {},
    }
    let parts = line3_parts(p, ext, reset_5h, reset_7d);
    assert forall|i: int| 0 <= i < parts.len() implies nl_free(#[trigger] parts[i]) by {}
    lemma_join_nl_free(parts, sep_spec());
}

proof fn lemma_line4_nl_free(ext: External)
    ensures
        nl_free(line4_spec(ext)),
{
    lemma_literals_nl_free();
    match ext.inventory {
        Some(inv) => {
            lemma_dec_nl_free(loaded_servers(inv@).len());
            match inv.skill_count {
                Some(n) => lemma_dec_nl_free(n as nat),
                None => {},
            }
        },
        None => {},
    }
    match ext.active_sessions {
        Some(n) => lemma_dec_nl_free(n as nat),
        None => {},
    }
    let parts = line4_parts(ext);
    assert forall|i: int| 0 <= i < parts.len() implies nl_free(#[trigger] parts[i]) by {}
    lemma_join_nl_free(parts, sep_spec());
}

/// One output line per line: when the texts shown verbatim hold no
/// newline, every line of the statusline is non-empty and holds no
/// newline, so the output is those lines, each ended by a newline, and
/// splitting it into lines gives them back one for one.
pub proof fn law_one_output_line_per_line(
    p: Payload,
    ext: External,
    reset_5h: Option<Seq<char>>,
    reset_7d: Option<Seq<char>>,
)
    requires
        payload_lines_safe(p),
        git_lines_safe(ext.git),
        label_lines_safe(reset_5h),
        label_lines_safe(reset_7d),
    ensures
        ({
            let ls = nonempty_lines(
                seq![
                    line1_spec(p, ext.git),
                    line2_spec(p, ext.compact_limit),
                    line3_spec(p, ext, reset_5h, reset_7d),
                    line4_spec(ext),
                ],
            );
            &&& render_spec(p, ext, reset_5h, reset_7d) == join_spec(ls, "\n"@) + "\n"@
            &&& ls.len() >= 1
            &&& forall|i: int|
                0 <= i < ls.len() ==> (#[trigger] ls[i]).len() > 0 && nl_free(ls[i])
        }),
{
    let all = seq![
        line1_spec(p, ext.git),
        line2_spec(p, ext.compact_limit),
        line3_spec(p, ext, reset_5h, reset_7d),
        line4_spec(ext),
    ];
    let f = |l: Seq<char>| l.len() > 0;
    let ls = all.filter(f);
    lemma_line1_nl_free(p, ext.git);
    lemma_line2_nl_free(p, ext.compact_limit);
    lemma_line3_nl_free(p, ext, reset_5h, reset_7d);
    lemma_line4_nl_free(ext);
    law_render_shape(p, ext, reset_5h, reset_7d);
    law_no_empty_line(all);
    assert forall|i: int| 0 <= i < ls.len() implies (#[trigger] ls[i]).len() > 0 && nl_free(
        ls[i],
    ) by {
        assert(ls.contains(ls[i]));
        all.lemma_filter_contains_rev(f, ls[i]);
        let j = choose|j: int| 0 <= j < all.len() && all[j] == ls[i];
        assert(j == 0 || j == 1 || j == 2 || j == 3);
    }
    assert(ls.contains(line2_spec(p, ext.compact_limit)));
}

/// The sync segment of line 1 shows the counts it names: after `↑` the
/// digits of the ahead count when ahead is not zero, after `↓` the digits
/// of the behind count when behind is not zero, and nothing when the
/// branch is in sync.
pub proof fn law_sync_shows_its_counts(g: GitInfo)
    ensures
        g.ahead > 0 ==> exists|d: Seq<char>|
            all_digits(d) && digits_value(d) == g.ahead && #[trigger] starts_with(
                sync_spec(g),
                PURPLE@ + "↑"@ + d + RST@,
            ),
        g.behind > 0 ==> exists|d: Seq<char>|
            all_digits(d) && digits_value(d) == g.behind && #[trigger] ends_with(
                sync_spec(g),
                BLUE@ + "↓"@ + d + RST@,
            ),
        g.ahead == 0 && g.behind == 0 ==> sync_spec(g).len() == 0,
{
    lemma_dec_reads_back(g.ahead as nat);
    lemma_dec_reads_back(g.behind as nat);
    let s = sync_spec(g);
    if g.ahead > 0 {
        let p = PURPLE@ + "↑"@ + dec(g.ahead as nat) + RST@;
        assert(s.take(p.len() as int) =~= p);
        assert(starts_with(s, p));
    }
    if g.behind > 0 {
        let p = BLUE@ + "↓"@ + dec(g.behind as nat) + RST@;
        assert(s.skip(s.len() - p.len()) =~= p);
        assert(ends_with(s, p));
    }
}

} // verus!
