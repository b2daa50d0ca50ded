//! Git segment data: the `git status --porcelain=v2 --branch` parser, the
//! repository display name, and the commit-subject sanitiser.
//!
//! Finding the repository and running `git` happen in the caller; this
//! module turns what they produced into a [`GitInfo`].

use vstd::prelude::*;
use crate::text::{
    all_digits, dec, is_whitespace_spec, lemma_dec_reads_back, lemma_parse_uint_dec,
    lemma_words_fold_append_word, words_fold,
    chars_of, clean_truncate, clean_truncate_spec, contains_chars, contains_str, file_name,
    file_name_spec, find_chars, find_str, has_prefix, has_suffix, lines_of, parse_uint,
    parse_uint_spec, split_lines, split_words, starts_with, string_from_chars, strip_suffix, trim,
    trim_spec, words_of,
};

verus! {

/// Longest commit subject shown, in characters.
pub const COMMIT_MAX_CHARS: usize = 36;

/// What the git segment shows about one repository.
#[derive(Debug, Clone, PartialEq)]
pub struct GitInfo {
    pub repo_name: String,
    pub is_worktree: bool,
    pub branch: String,
    pub ahead: u32,
    pub behind: u32,
    pub staged: u32,
    pub modified: u32,
    pub untracked: u32,
    pub last_commit: String,
}

impl Default for GitInfo {
    fn default() -> (r: Self)
        ensures
            r.repo_name@ == Seq::<char>::empty(),
            !r.is_worktree,
            r.branch@ == Seq::<char>::empty(),
            r.ahead == 0 && r.behind == 0,
            r.staged == 0 && r.modified == 0 && r.untracked == 0,
            r.last_commit@ == Seq::<char>::empty(),
    {
        GitInfo {
            repo_name: String::new(),
            is_worktree: false,
            branch: String::new(),
            ahead: 0,
            behind: 0,
            staged: 0,
            modified: 0,
            untracked: 0,
            last_commit: String::new(),
        }
    }
}

/// Where the repository was found: its root, and the contents of `.git`
/// when `.git` is a file (a linked worktree or a submodule), `None` when
/// it is a directory.
#[derive(Debug, Clone)]
pub struct Discovery {
    pub root: String,
    pub dot_git_file: Option<String>,
}

// ---------------------------------------------------------------------
// Porcelain v2
// ---------------------------------------------------------------------

/// What the porcelain output says, with the counters as unbounded numbers.
pub struct Porcelain {
    pub branch: Seq<char>,
    pub ahead: u32,
    pub behind: u32,
    pub staged: nat,
    pub modified: nat,
    pub untracked: nat,
}

/// Nothing read yet.
pub open spec fn porcelain_init() -> Porcelain {
    Porcelain {
        branch: Seq::empty(),
        ahead: 0,
        behind: 0,
        staged: 0,
        modified: 0,
        untracked: 0,
    }
}

/// `n.parse::<u32>().unwrap_or(0)`.
pub open spec fn u32_or_zero(n: Seq<char>) -> u32 {
    match parse_uint_spec(n, u32::MAX as nat) {
        Some(v) => v as u32,
        None => 0,
    }
}

/// One token of `# branch.ab +A -B`: `+N` sets ahead, `-N` sets behind.
pub open spec fn ab_step(ab: (u32, u32), tok: Seq<char>) -> (u32, u32) {
    if tok.len() > 0 && tok[0] == '+' {
        (u32_or_zero(tok.drop_first()), ab.1)
    } else if tok.len() > 0 && tok[0] == '-' {
        (ab.0, u32_or_zero(tok.drop_first()))
    } else {
        ab
    }
}

/// Ahead and behind after the tokens of a `# branch.ab ` line.
pub open spec fn ab_of(rest: Seq<char>, ab: (u32, u32)) -> (u32, u32) {
    words_of(rest).fold_left(ab, |a: (u32, u32), t: Seq<char>| ab_step(a, t))
}

/// The character at `i`, or `.` past the end.
pub open spec fn char_or_dot(l: Seq<char>, i: int) -> char {
    if i < l.len() {
        l[i]
    } else {
        '.'
    }
}

/// One line of porcelain output.
pub open spec fn porcelain_step(st: Porcelain, line: Seq<char>) -> Porcelain {
    if starts_with(line, "# branch.head "@) {
        let rest = line.skip("# branch.head "@.len() as int);
        Porcelain {
            branch: if rest == "(detached)"@ {
                "detached"@
            } else {
                rest
            },
            ..st
        }
    } else if starts_with(line, "# branch.ab "@) {
        let ab = ab_of(line.skip("# branch.ab "@.len() as int), (st.ahead, st.behind));
        Porcelain { ahead: ab.0, behind: ab.1, ..st }
    } else if starts_with(line, "1 "@) || starts_with(line, "2 "@) {
        Porcelain {
            staged: if char_or_dot(line, 2) != '.' {
                st.staged + 1
            } else {
                st.staged
            },
            modified: if char_or_dot(line, 3) != '.' {
                st.modified + 1
            } else {
                st.modified
            },
            ..st
        }
    } else if starts_with(line, "u "@) {
        Porcelain { modified: st.modified + 1, ..st }
    } else if starts_with(line, "? "@) {
        Porcelain { untracked: st.untracked + 1, ..st }
    } else {
        st
    }
}

/// The porcelain summary of a sequence of lines.
pub open spec fn porcelain_lines(ls: Seq<Seq<char>>) -> Porcelain {
    ls.fold_left(porcelain_init(), |st: Porcelain, l: Seq<char>| porcelain_step(st, l))
}

/// The porcelain summary of `git status --porcelain=v2 --branch` output:
/// the last `# branch.head` (with `(detached)` shown as `detached`), the
/// last `+A`/`-B` of `# branch.ab` lines (0 when absent or not a number),
/// entries `1`/`2` counted as staged when X is not `.` and as modified when
/// Y is not `.`, unmerged `u` entries as modified, `?` entries as untracked.
pub open spec fn porcelain_summary(text: Seq<char>) -> Porcelain {
    porcelain_lines(lines_of(text))
}

/// The counters of the summary fit the `u32` fields of [`GitInfo`].
pub open spec fn porcelain_fits(text: Seq<char>) -> bool {
    let p = porcelain_summary(text);
    p.staged <= u32::MAX && p.modified <= u32::MAX && p.untracked <= u32::MAX
}

/// An ordinary (`1`) or rename/copy (`2`) entry line.
pub open spec fn is_changed_entry(l: Seq<char>) -> bool {
    starts_with(l, "1 "@) || starts_with(l, "2 "@)
}

/// A line counted as staged: a changed entry whose index state X is not `.`.
pub open spec fn counts_staged(l: Seq<char>) -> bool {
    is_changed_entry(l) && char_or_dot(l, 2) != '.'
}

/// A line counted as modified: a changed entry whose worktree state Y is
/// not `.`, or an unmerged (`u`) entry.
pub open spec fn counts_modified(l: Seq<char>) -> bool {
    (is_changed_entry(l) && char_or_dot(l, 3) != '.') || starts_with(l, "u "@)
}

/// A line counted as untracked: a `?` entry.
pub open spec fn counts_untracked(l: Seq<char>) -> bool {
    starts_with(l, "? "@)
}

proof fn lemma_first_char(l: Seq<char>, p: Seq<char>)
    requires
        p.len() > 0,
        starts_with(l, p),
    ensures
        l.len() > 0 && l[0] == p[0],
{
    assert(l.take(p.len() as int)[0] == p[0]);
}

/// Each counter counts lines: staged entries, modified entries (unmerged
/// ones included) and untracked entries, one per line, whatever else the
/// output holds.
pub proof fn law_porcelain_counts_lines(ls: Seq<Seq<char>>)
    ensures
        porcelain_lines(ls).staged == ls.filter(|l: Seq<char>| counts_staged(l)).len(),
        porcelain_lines(ls).modified == ls.filter(|l: Seq<char>| counts_modified(l)).len(),
        porcelain_lines(ls).untracked == ls.filter(|l: Seq<char>| counts_untracked(l)).len(),
    decreases ls.len(),
{
    reveal_with_fuel(Seq::<_>::filter, 1);
    if ls.len() > 0 {
        law_porcelain_counts_lines(ls.drop_last());
        let l = ls.last();
        reveal_strlit("# branch.head ");
        reveal_strlit("# branch.ab ");
        reveal_strlit("1 ");
        reveal_strlit("2 ");
        reveal_strlit("u ");
        reveal_strlit("? ");
        if starts_with(l, "# branch.head "@) {
            lemma_first_char(l, "# branch.head "@);
        }
        if starts_with(l, "# branch.ab "@) {
            lemma_first_char(l, "# branch.ab "@);
        }
        if starts_with(l, "1 "@) {
            lemma_first_char(l, "1 "@);
        }
        if starts_with(l, "2 "@) {
            lemma_first_char(l, "2 "@);
        }
        if starts_with(l, "u "@) {
            lemma_first_char(l, "u "@);
        }
        if starts_with(l, "? "@) {
            lemma_first_char(l, "? "@);
        }
    }
}

/// The `# branch.ab +A -B` line for the counts `a` and `b`.
pub open spec fn branch_ab_line(a: u32, b: u32) -> Seq<char> {
    "# branch.ab "@ + seq!['+'] + dec(a as nat) + seq![' ', '-'] + dec(b as nat)
}

proof fn lemma_sign_token(sign: char, n: u32)
    requires
        sign == '+' || sign == '-',
    ensures
        forall|i: int|
            0 <= i < (seq![sign] + dec(n as nat)).len() ==> !is_whitespace_spec(
                #[trigger] (seq![sign] + dec(n as nat))[i],
            ),
        (seq![sign] + dec(n as nat)).drop_first() =~= dec(n as nat),
        u32_or_zero(dec(n as nat)) == n,
{
    lemma_dec_reads_back(n as nat);
    lemma_parse_uint_dec(n as nat, u32::MAX as nat);
    let t = seq![sign] + dec(n as nat);
    assert forall|i: int| 0 <= i < t.len() implies !is_whitespace_spec(#[trigger] t[i]) by {
        if i > 0 {
            assert(t[i] == dec(n as nat)[i - 1]);
        }
    }
}

/// The two tokens of `+A -B`, split on whitespace.
proof fn lemma_ab_words(a: u32, b: u32)
    ensures
        words_of(seq!['+'] + dec(a as nat) + seq![' ', '-'] + dec(b as nat)) =~= seq![
            seq!['+'] + dec(a as nat),
            seq!['-'] + dec(b as nat),
        ],
{
    let t1 = seq!['+'] + dec(a as nat);
    let t2 = seq!['-'] + dec(b as nat);
    lemma_sign_token('+', a);
    lemma_sign_token('-', b);
    lemma_words_fold_append_word(Seq::empty(), t1);
    assert(Seq::<char>::empty() + t1 =~= t1);
    assert(Seq::<char>::empty() + t1 == t1);
    let s1 = t1.push(' ');
    assert(s1.drop_last() =~= t1);
    assert(is_whitespace_spec(' '));
    assert(words_fold(s1) == (seq![t1], Seq::<char>::empty()));
    lemma_words_fold_append_word(s1, t2);
    assert(s1 + t2 =~= seq!['+'] + dec(a as nat) + seq![' ', '-'] + dec(b as nat));
}

/// On a `# branch.ab +A -B` line ahead becomes `A` and behind becomes `B`,
/// each whatever the other is and whatever was read before; the branch
/// and the counters stay.
pub proof fn law_branch_ab_sets_both(st: Porcelain, a: u32, b: u32)
    ensures
        porcelain_step(st, branch_ab_line(a, b)).ahead == a,
        porcelain_step(st, branch_ab_line(a, b)).behind == b,
        porcelain_step(st, branch_ab_line(a, b)).branch == st.branch,
        porcelain_step(st, branch_ab_line(a, b)).staged == st.staged,
        porcelain_step(st, branch_ab_line(a, b)).modified == st.modified,
        porcelain_step(st, branch_ab_line(a, b)).untracked == st.untracked,
{
    reveal_strlit("# branch.ab ");
    reveal_strlit("# branch.head ");
    let line = branch_ab_line(a, b);
    let rest = seq!['+'] + dec(a as nat) + seq![' ', '-'] + dec(b as nat);
    lemma_dec_reads_back(a as nat);
    lemma_dec_reads_back(b as nat);
    assert(line[9] == 'a');
    assert(!starts_with(line, "# branch.head "@)) by {
        if starts_with(line, "# branch.head "@) {
            assert(line.take(14)[9] == "# branch.head "@[9]);
        }
    }
    assert(line.take(12) =~= "# branch.ab "@);
    assert(line.skip(12) =~= rest);
    lemma_ab_words(a, b);
    let ws = words_of(rest);
    let t1 = seq!['+'] + dec(a as nat);
    let t2 = seq!['-'] + dec(b as nat);
    lemma_sign_token('+', a);
    lemma_sign_token('-', b);
    assert(ws.drop_last() =~= seq![t1]);
    assert(seq![t1].drop_last() =~= Seq::<Seq<char>>::empty());
    let f = |x: (u32, u32), t: Seq<char>| ab_step(x, t);
    let b0 = (st.ahead, st.behind);
    let one = seq![t1];
    assert(ws == seq![t1, t2]);
    assert(ws.last() == t2);
    assert(one.last() == t1);
    assert(Seq::<Seq<char>>::empty().fold_left(b0, f) == b0);
    assert(one.fold_left(b0, f) == f(one.drop_last().fold_left(b0, f), t1));
    assert(one.fold_left(b0, f) == ab_step(b0, t1));
    assert(ws.fold_left(b0, f) == f(ws.drop_last().fold_left(b0, f), t2));
    assert(ws.fold_left(b0, f) == ab_step(ab_step(b0, t1), t2));
}

/// After a `# branch.ab +A -B` line, the summary reports `A` ahead and `B`
/// behind, whatever the earlier lines said.
pub proof fn law_last_branch_ab_line_wins(ls: Seq<Seq<char>>, a: u32, b: u32)
    ensures
        porcelain_lines(ls.push(branch_ab_line(a, b))).ahead == a,
        porcelain_lines(ls.push(branch_ab_line(a, b))).behind == b,
{
    let ls2 = ls.push(branch_ab_line(a, b));
    assert(ls2.drop_last() =~= ls);
    law_branch_ab_sets_both(porcelain_lines(ls), a, b);
}

/// Without an upstream (no `# branch.ab` line) ahead and behind are 0.
pub proof fn law_no_upstream_means_zero_ab(ls: Seq<Seq<char>>)
    ensures
        (forall|i: int| 0 <= i < ls.len() ==> !starts_with(#[trigger] ls[i], "# branch.ab "@))
            ==> porcelain_lines(ls).ahead == 0 && porcelain_lines(ls).behind == 0,
    decreases ls.len(),
{
    if ls.len() > 0 {
        law_no_upstream_means_zero_ab(ls.drop_last());
        if forall|i: int| 0 <= i < ls.len() ==> !starts_with(#[trigger] ls[i], "# branch.ab "@) {
            assert forall|i: int| 0 <= i < ls.drop_last().len() implies !starts_with(
                #[trigger] ls.drop_last()[i],
                "# branch.ab "@,
            ) by {
                assert(ls.drop_last()[i] == ls[i]);
            }
            assert(!starts_with(ls[ls.len() - 1], "# branch.ab "@));
        }
    }
}

proof fn lemma_porcelain_counts_grow(ls: Seq<Seq<char>>, i: int)
    requires
        0 <= i <= ls.len(),
    ensures
        porcelain_lines(ls.take(i)).staged <= porcelain_lines(ls).staged,
        porcelain_lines(ls.take(i)).modified <= porcelain_lines(ls).modified,
        porcelain_lines(ls.take(i)).untracked <= porcelain_lines(ls).untracked,
    decreases ls.len() - i,
{
    if i == ls.len() {
        assert(ls.take(i) =~= ls);
    } else {
        lemma_porcelain_counts_grow(ls, i + 1);
        assert(ls.take(i + 1).drop_last() =~= ls.take(i));
    }
}

/// Reads the tokens of a `# branch.ab ` line.
fn parse_ab(rest: &[char], ahead: u32, behind: u32) -> (r: (u32, u32))
    ensures
        r == ab_of(rest@, (ahead, behind)),
{
    let toks = split_words(rest);
    let ghost ws = words_of(rest@);
    let mut ab: (u32, u32) = (ahead, behind);
    let mut i: usize = 0;
    while i < toks.len()
        invariant
            ws == words_of(rest@),
            toks@.len() == ws.len(),
            forall|k: int| 0 <= k < toks@.len() ==> #[trigger] toks@[k]@ == ws[k],
            i <= toks@.len(),
            ab == ws.take(i as int).fold_left(
                (ahead, behind),
                |a: (u32, u32), t: Seq<char>| ab_step(a, t),
            ),
        decreases toks@.len() - i,
    {
        let tok = &toks[i];
        assert(tok@ == ws[i as int]);
        assert(ws.take(i + 1).drop_last() =~= ws.take(i as int));
        if tok.len() > 0 && tok[0] == '+' {
            let (_, n) = tok.as_slice().split_at(1);
            assert(n@ =~= tok@.drop_first());
            ab = (
                match parse_uint(n, 0xffff_ffff) {
                    Some(v) => v as u32,
                    None => 0,
                },
                ab.1,
            );
        } else if tok.len() > 0 && tok[0] == '-' {
            let (_, n) = tok.as_slice().split_at(1);
            assert(n@ =~= tok@.drop_first());
            ab = (
                ab.0,
                match parse_uint(n, 0xffff_ffff) {
                    Some(v) => v as u32,
                    None => 0,
                },
            );
        }
        i = i + 1;
    }
    assert(ws.take(ws.len() as int) =~= ws);
    ab
}

/// Parses `git status --porcelain=v2 --branch` output.
///
/// Header lines: `# branch.head <name>`, `# branch.ab +A -B`.
/// Entries: `1 XY ...` / `2 XY ...` (X = index state, Y = worktree state),
/// `u ...` (unmerged), `? <path>` (untracked). Repository name, worktree
/// flag and commit subject are left empty.
pub fn parse_porcelain_v2(text: &str) -> (r: GitInfo)
    requires
        porcelain_fits(text@),
    ensures
        r.branch@ == porcelain_summary(text@).branch,
        r.ahead == porcelain_summary(text@).ahead,
        r.behind == porcelain_summary(text@).behind,
        r.staged == porcelain_summary(text@).staged,
        r.modified == porcelain_summary(text@).modified,
        r.untracked == porcelain_summary(text@).untracked,
        r.repo_name@ == Seq::<char>::empty(),
        !r.is_worktree,
        r.last_commit@ == Seq::<char>::empty(),
{
    let cs = chars_of(text);
    let lines = split_lines(cs.as_slice());
    let ghost ls = lines_of(text@);
    let p_head = chars_of("# branch.head ");
    let p_ab = chars_of("# branch.ab ");
    let p_one = chars_of("1 ");
    let p_two = chars_of("2 ");
    let p_u = chars_of("u ");
    let p_q = chars_of("? ");
    let detached_in = chars_of("(detached)");
    let mut info = GitInfo::default();
    let mut i: usize = 0;
    while i < lines.len()
        invariant
            ls == lines_of(text@),
            porcelain_fits(text@),
            lines@.len() == ls.len(),
            forall|k: int| 0 <= k < lines@.len() ==> #[trigger] lines@[k]@ == ls[k],
            p_head@ == "# branch.head "@,
            p_ab@ == "# branch.ab "@,
            p_one@ == "1 "@,
            p_two@ == "2 "@,
            p_u@ == "u "@,
            p_q@ == "? "@,
            detached_in@ == "(detached)"@,
            i <= lines@.len(),
            info.branch@ == porcelain_lines(ls.take(i as int)).branch,
            info.ahead == porcelain_lines(ls.take(i as int)).ahead,
            info.behind == porcelain_lines(ls.take(i as int)).behind,
            info.staged == porcelain_lines(ls.take(i as int)).staged,
            info.modified == porcelain_lines(ls.take(i as int)).modified,
            info.untracked == porcelain_lines(ls.take(i as int)).untracked,
            info.repo_name@ == Seq::<char>::empty(),
            !info.is_worktree,
            info.last_commit@ == Seq::<char>::empty(),
        decreases lines@.len() - i,
    {
        let line = lines[i].as_slice();
        proof {
            assert(line@ == ls[i as int]);
            assert(ls.take(i + 1).drop_last() =~= ls.take(i as int));
            lemma_porcelain_counts_grow(ls, i + 1);
        }
        if has_prefix(line, p_head.as_slice()) {
            let (_, rest) = line.split_at(p_head.len());
            assert(rest@ =~= line@.skip(p_head@.len() as int));
            if rest.len() == detached_in.len() && has_prefix(rest, detached_in.as_slice()) {
                assert(rest@ =~= detached_in@);
                info.branch = string_from_chars(chars_of("detached").as_slice());
            } else {
                proof {
                    if rest@.len() == detached_in@.len() {
                        assert(rest@.take(rest@.len() as int) =~= rest@);
                    }
                }
                assert(rest@ != detached_in@);
                info.branch = string_from_chars(rest);
            }
        } else if has_prefix(line, p_ab.as_slice()) {
            let (_, rest) = line.split_at(p_ab.len());
            assert(rest@ =~= line@.skip(p_ab@.len() as int));
            let ab = parse_ab(rest, info.ahead, info.behind);
            info.ahead = ab.0;
            info.behind = ab.1;
        } else if has_prefix(line, p_one.as_slice()) || has_prefix(line, p_two.as_slice()) {
            let x = if line.len() > 2 {
                line[2]
            } else {
                '.'
            };
            let y = if line.len() > 3 {
                line[3]
            } else {
                '.'
            };
            if x != '.' {
                info.staged = info.staged + 1;
            }
            if y != '.' {
                info.modified = info.modified + 1;
            }
        } else if has_prefix(line, p_u.as_slice()) {
            info.modified = info.modified + 1;
        } else if has_prefix(line, p_q.as_slice()) {
            info.untracked = info.untracked + 1;
        }
        i = i + 1;
    }
    assert(ls.take(ls.len() as int) =~= ls);
    info
}

// ---------------------------------------------------------------------
// Repository name
// ---------------------------------------------------------------------

/// The final component of `p`, or the empty text when it has none.
pub open spec fn basename_spec(p: Seq<char>) -> Seq<char> {
    match file_name_spec(p) {
        Some(n) => n,
        None => Seq::empty(),
    }
}

/// The final component of the path `p` (`Path::file_name`), or `""`.
pub fn basename(p: &str) -> (r: String)
    ensures
        r@ == basename_spec(p@),
{
    match file_name(p) {
        Some(v) => string_from_chars(v.as_slice()),
        None => String::new(),
    }
}

/// What follows `gitdir:` on the first line that starts with it.
pub open spec fn gitdir_of(ls: Seq<Seq<char>>) -> Option<Seq<char>>
    decreases ls.len(),
{
    if ls.len() == 0 {
        None
    } else if starts_with(ls[0], "gitdir:"@) {
        Some(ls[0].skip("gitdir:"@.len() as int))
    } else {
        gitdir_of(ls.drop_first())
    }
}

/// `s` without the suffix `p` when it has it, unchanged otherwise.
pub open spec fn without_suffix(s: Seq<char>, p: Seq<char>) -> Seq<char> {
    match strip_suffix(s, p) {
        Some(t) => t,
        None => s,
    }
}

/// The main repository's name from a worktree's `gitdir`
/// (`<main>/.git/worktrees/<name>`): the basename of what precedes the
/// first `/worktrees/`, without a trailing `/.git` and then without a
/// `.git` suffix; `None` when that leaves nothing.
pub open spec fn worktree_main_name(g: Seq<char>) -> Option<Seq<char>> {
    let main = match find_str(g, "/worktrees/"@) {
        Some(i) => g.take(i),
        None => g,
    };
    let base = without_suffix(basename_spec(without_suffix(main, "/.git"@)), ".git"@);
    if base.len() > 0 {
        Some(base)
    } else {
        None
    }
}

/// The display name of a discovered repository and whether it is a linked
/// worktree. A `.git` directory gives the root's basename. A `.git` file
/// marks a worktree, named after its main repository, unless its `gitdir`
/// points into a superproject's `/modules/` (a submodule, shown by the
/// root's basename and not as a worktree).
pub open spec fn repo_name_spec(root: Seq<char>, dot_git_file: Option<Seq<char>>) -> (
    Seq<char>,
    bool,
) {
    match dot_git_file {
        None => (basename_spec(root), false),
        Some(contents) => match gitdir_of(lines_of(contents)) {
            Some(raw) => {
                let g = trim_spec(raw);
                if contains_str(g, "/modules/"@) {
                    (basename_spec(root), false)
                } else {
                    (
                        match worktree_main_name(g) {
                            Some(n) => n,
                            None => basename_spec(root),
                        },
                        true,
                    )
                }
            },
            None => (basename_spec(root), true),
        },
    }
}

/// Only a `.git` file marks a linked worktree, and not one whose `gitdir`
/// points into a superproject's `/modules/`: a plain repository and a
/// submodule never render as a worktree, and both show the root's name.
pub proof fn law_worktree_flag(root: Seq<char>, dot_git_file: Option<Seq<char>>)
    ensures
        repo_name_spec(root, dot_git_file).1 <==> (dot_git_file matches Some(c) && !(gitdir_of(
            lines_of(c),
        ) matches Some(raw) && contains_str(trim_spec(raw), "/modules/"@))),
        !repo_name_spec(root, dot_git_file).1 ==> repo_name_spec(root, dot_git_file).0
            == basename_spec(root),
{
}

/// `s` without the suffix `p` when it has it.
fn drop_suffix(s: Vec<char>, p: &str) -> (r: Vec<char>)
    ensures
        r@ == without_suffix(s@, p@),
{
    let pc = chars_of(p);
    if has_suffix(s.as_slice(), pc.as_slice()) {
        let (head, _) = s.as_slice().split_at(s.len() - pc.len());
        let mut out: Vec<char> = Vec::new();
        let mut k: usize = 0;
        while k < head.len()
            invariant
                k <= head@.len(),
                out@ == head@.take(k as int),
            decreases head@.len() - k,
        {
            out.push(head[k]);
            k = k + 1;
            assert(head@.take(k as int) =~= head@.take(k - 1).push(head@[k - 1]));
        }
        assert(head@.take(head@.len() as int) =~= head@);
        assert(head@ =~= s@.take(s@.len() - p@.len()));
        out
    } else {
        s
    }
}

/// The main repository's name from a worktree's `gitdir`.
fn main_repo_name(g: &[char]) -> (r: Option<Vec<char>>)
    ensures
        match worktree_main_name(g@) {
            Some(n) => r matches Some(v) && v@ == n,
            None => r is None,
        },
{
    let marker = chars_of("/worktrees/");
    let mut main: Vec<char> = Vec::new();
    let end = match find_chars(g, marker.as_slice()) {
        Some(i) => i,
        None => g.len(),
    };
    let mut k: usize = 0;
    while k < end
        invariant
            end <= g@.len(),
            k <= end,
            main@ == g@.take(k as int),
        decreases end - k,
    {
        main.push(g[k]);
        k = k + 1;
        assert(g@.take(k as int) =~= g@.take(k - 1).push(g@[k - 1]));
    }
    assert(g@.take(g@.len() as int) =~= g@);
    let main = drop_suffix(main, "/.git");
    let main_str = string_from_chars(main.as_slice());
    let base = basename(main_str.as_str());
    let base = drop_suffix(chars_of(base.as_str()), ".git");
    if base.len() > 0 {
        Some(base)
    } else {
        None
    }
}

/// The display name of the repository and whether it is a linked worktree.
/// In a linked worktree the `.git` file points at
/// `<main>/.git/worktrees/<name>`: the name is `<main>`'s basename, not the
/// worktree folder's.
pub fn repo_name(d: &Discovery) -> (r: (String, bool))
    ensures
        r.0@ == repo_name_spec(d.root@, match d.dot_git_file {
            Some(c) => Some(c@),
            None => None,
        }).0,
        r.1 == repo_name_spec(d.root@, match d.dot_git_file {
            Some(c) => Some(c@),
            None => None,
        }).1,
{
    match &d.dot_git_file {
        None => (basename(d.root.as_str()), false),
        Some(contents) => {
            let cs = chars_of(contents.as_str());
            let lines = split_lines(cs.as_slice());
            let ghost ls = lines_of(contents@);
            let prefix = chars_of("gitdir:");
            let mut found: Option<Vec<char>> = None;
            let mut i: usize = 0;
            assert(ls.skip(0) =~= ls);
            while i < lines.len()
                invariant_except_break
                    found is None,
                    gitdir_of(ls) == gitdir_of(ls.skip(i as int)),
                invariant
                    ls == lines_of(contents@),
                    lines@.len() == ls.len(),
                    forall|k: int| 0 <= k < lines@.len() ==> #[trigger] lines@[k]@ == ls[k],
                    prefix@ == "gitdir:"@,
                    i <= lines@.len(),
                ensures
                    found is None ==> i == lines@.len() && gitdir_of(ls) == gitdir_of(
                        ls.skip(i as int),
                    ),
                    found matches Some(v) ==> gitdir_of(ls) == Some(v@),
                decreases lines@.len() - i,
            {
                let line = lines[i].as_slice();
                assert(line@ == ls[i as int]);
                assert(ls.skip(i as int)[0] == ls[i as int]);
                assert(ls.skip(i as int).drop_first() =~= ls.skip(i + 1));
                if has_prefix(line, prefix.as_slice()) {
                    let (_, rest) = line.split_at(prefix.len());
                    assert(rest@ =~= line@.skip(prefix@.len() as int));
                    let mut v: Vec<char> = Vec::new();
                    let mut k: usize = 0;
                    while k < rest.len()
                        invariant
                            k <= rest@.len(),
                            v@ == rest@.take(k as int),
                        decreases rest@.len() - k,
                    {
                        v.push(rest[k]);
                        k = k + 1;
                        assert(rest@.take(k as int) =~= rest@.take(k - 1).push(rest@[k - 1]));
                    }
                    assert(rest@.take(rest@.len() as int) =~= rest@);
                    assert(gitdir_of(ls.skip(i as int)) == Some(ls[i as int].skip("gitdir:"@.len() as int)));
                    found = Some(v);
                    break;
                }
                i = i + 1;
            }
            match found {
                Some(raw) => {
                    let g = trim(raw.as_slice());
                    let modules = chars_of("/modules/");
                    if contains_chars(g.as_slice(), modules.as_slice()) {
                        (basename(d.root.as_str()), false)
                    } else {
                        let name = match main_repo_name(g.as_slice()) {
                            Some(n) => string_from_chars(n.as_slice()),
                            None => basename(d.root.as_str()),
                        };
                        (name, true)
                    }
                },
                None => {
                    assert(ls.skip(ls.len() as int).len() == 0);
                    (basename(d.root.as_str()), true)
                },
            }
        },
    }
}

/// Drops control characters (a subject can hold ESC or tabs), then keeps
/// at most `max` characters, marking a cut with `…`: the statusline is
/// line-oriented ANSI output.
pub fn truncate_chars(s: &str, max: usize) -> (r: String)
    ensures
        r@ == clean_truncate_spec(s@, max as nat),
{
    clean_truncate(s, max)
}

/// The subject line as the git segment shows it: trimmed, control
/// characters dropped, at most [`COMMIT_MAX_CHARS`] characters.
pub open spec fn subject_spec(log: Seq<char>) -> Seq<char> {
    clean_truncate_spec(trim_spec(log), COMMIT_MAX_CHARS as nat)
}

/// The segment data from what `git` printed: `status` is the output of
/// `git status --porcelain=v2 --branch`, `log` the output of
/// `git log -1 --format=%s` when that command succeeded.
pub fn assemble(status: &str, d: &Discovery, log: Option<&str>) -> (r: GitInfo)
    requires
        porcelain_fits(status@),
    ensures
        r.branch@ == porcelain_summary(status@).branch,
        r.ahead == porcelain_summary(status@).ahead,
        r.behind == porcelain_summary(status@).behind,
        r.staged == porcelain_summary(status@).staged,
        r.modified == porcelain_summary(status@).modified,
        r.untracked == porcelain_summary(status@).untracked,
        r.repo_name@ == repo_name_spec(d.root@, match d.dot_git_file {
            Some(c) => Some(c@),
            None => None,
        }).0,
        r.is_worktree == repo_name_spec(d.root@, match d.dot_git_file {
            Some(c) => Some(c@),
            None => None,
        }).1,
        r.last_commit@ == (match log {
            Some(l) => subject_spec(l@),
            None => Seq::<char>::empty(),
        }),
{
    let mut info = parse_porcelain_v2(status);
    let (name, is_worktree) = repo_name(d);
    info.repo_name = name;
    info.is_worktree = is_worktree;
    if let Some(l) = log {
        let t = trim(chars_of(l).as_slice());
        let ts = string_from_chars(t.as_slice());
        info.last_commit = truncate_chars(ts.as_str(), COMMIT_MAX_CHARS);
    }
    info
}

} // verus!
