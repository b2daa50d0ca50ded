//! Character and string helpers shared by the parsers and the renderer.
//!
//! Each helper states, as a spec function, the behaviour of the `str`
//! operation that the statusline relies on (`str::lines`, `str::trim`,
//! `char::is_control`, decimal integers), and is proved against it.

use vstd::prelude::*;

verus! {

// ---------------------------------------------------------------------
// Character classes
// ---------------------------------------------------------------------

/// A control character: general category Cc (U+0000..=U+001F, U+007F..=U+009F).
pub open spec fn is_control_spec(c: char) -> bool {
    (c as u32) <= 0x1f || (0x7f <= (c as u32) && (c as u32) <= 0x9f)
}

/// Whether `c` is a control character, as `char::is_control` decides it.
pub fn is_control(c: char) -> (r: bool)
    ensures
        r == is_control_spec(c),
{
    let u = c as u32;
    u <= 0x1f || (0x7f <= u && u <= 0x9f)
}

/// A character with the Unicode `White_Space` property, the set that
/// `char::is_whitespace` (and so `str::trim`) recognises.
pub open spec fn is_whitespace_spec(c: char) -> bool {
    let u = c as u32;
    ||| 0x09 <= u && u <= 0x0d
    ||| u == 0x20
    ||| u == 0x85
    ||| u == 0xa0
    ||| u == 0x1680
    ||| 0x2000 <= u && u <= 0x200a
    ||| u == 0x2028
    ||| u == 0x2029
    ||| u == 0x202f
    ||| u == 0x205f
    ||| u == 0x3000
}

/// Whether `c` is white space, as `char::is_whitespace` decides it.
pub fn is_whitespace(c: char) -> (r: bool)
    ensures
        r == is_whitespace_spec(c),
{
    let u = c as u32;
    (0x09 <= u && u <= 0x0d) || u == 0x20 || u == 0x85 || u == 0xa0 || u == 0x1680 || (0x2000
        <= u && u <= 0x200a) || u == 0x2028 || u == 0x2029 || u == 0x202f || u == 0x205f || u
        == 0x3000
}

/// An ASCII decimal digit.
pub open spec fn is_digit_spec(c: char) -> bool {
    '0' <= c && c <= '9'
}

// ---------------------------------------------------------------------
// Building strings
// ---------------------------------------------------------------------

/// Appends one character. Trusted: `String::push` adds `c` at the end and
/// changes nothing else.
#[verifier::external_body]
pub(crate) fn push_char(s: &mut String, c: char)
    ensures
        final(s)@ == old(s)@.push(c),
{
    s.push(c)
}

/// Appends the characters of `cs` to `s`.
pub fn push_chars(s: &mut String, cs: &[char])
    ensures
        final(s)@ == old(s)@ + cs@,
{
    let mut i: usize = 0;
    while i < cs.len()
        invariant
            i <= cs@.len(),
            s@ == old(s)@ + cs@.take(i as int),
        decreases cs@.len() - i,
    {
        push_char(s, cs[i]);
        i = i + 1;
        assert(cs@.take(i as int) =~= cs@.take(i - 1).push(cs@[i - 1]));
    }
    assert(cs@.take(cs@.len() as int) =~= cs@);
}

/// A `String` holding exactly the characters of `cs`.
pub fn string_from_chars(cs: &[char]) -> (r: String)
    ensures
        r@ == cs@,
{
    let mut s = String::new();
    push_chars(&mut s, cs);
    s
}

/// Appends `t` to `s`.
pub fn push_str(s: &mut String, t: &str)
    ensures
        final(s)@ == old(s)@ + t@,
{
    let cs = chars_of(t);
    push_chars(s, cs.as_slice());
}

/// The characters of `s`, in order.
pub fn chars_of(s: &str) -> (r: Vec<char>)
    ensures
        r@ == s@,
{
    let mut out: Vec<char> = Vec::new();
    for c in it: s.chars()
        invariant
            it.seq() == s@,
            out@ == it.seq().take(it.index() as int),
    {
        out.push(c);
    }
    out
}

/// Whether two texts are equal.
pub fn str_eq(a: &str, b: &str) -> (r: bool)
    ensures
        r == (a@ == b@),
{
    let x = chars_of(a);
    let y = chars_of(b);
    if x.len() != y.len() {
        return false;
    }
    let mut i: usize = 0;
    while i < x.len()
        invariant
            x@ == a@,
            y@ == b@,
            x@.len() == y@.len(),
            i <= x@.len(),
            forall|j: int| 0 <= j < i ==> x@[j] == y@[j],
        decreases x@.len() - i,
    {
        if x[i] != y[i] {
            assert(x@[i as int] != y@[i as int]);
            return false;
        }
        i = i + 1;
    }
    assert(x@ =~= y@);
    true
}

/// What `String::from_utf8_lossy` makes of `bytes`.
pub uninterp spec fn lossy_utf8(bytes: Seq<u8>) -> Seq<char>;

/// Decodes `bytes` as UTF-8, replacing invalid sequences with U+FFFD.
/// Trusted: the result is what `String::from_utf8_lossy` returns for these
/// bytes, named by `lossy_utf8`.
#[verifier::external_body]
pub(crate) fn utf8_lossy(bytes: &[u8]) -> (r: String)
    ensures
        r@ == lossy_utf8(bytes@),
{
    String::from_utf8_lossy(bytes).into_owned()
}

// ---------------------------------------------------------------------
// Prefixes, suffixes, search
// ---------------------------------------------------------------------

/// `s` starts with `p`.
pub open spec fn starts_with(s: Seq<char>, p: Seq<char>) -> bool {
    p.len() <= s.len() && s.take(p.len() as int) == p
}

/// `s` ends with `p`.
pub open spec fn ends_with(s: Seq<char>, p: Seq<char>) -> bool {
    p.len() <= s.len() && s.skip(s.len() - p.len()) == p
}

/// `str::strip_prefix`: what follows `p` when `s` starts with it.
pub open spec fn strip_prefix(s: Seq<char>, p: Seq<char>) -> Option<Seq<char>> {
    if starts_with(s, p) {
        Some(s.skip(p.len() as int))
    } else {
        None
    }
}

/// `str::strip_suffix`: what precedes `p` when `s` ends with it.
pub open spec fn strip_suffix(s: Seq<char>, p: Seq<char>) -> Option<Seq<char>> {
    if ends_with(s, p) {
        Some(s.take(s.len() - p.len()))
    } else {
        None
    }
}

/// `p` occurs in `s` at position `i`.
pub open spec fn occurs_at(s: Seq<char>, p: Seq<char>, i: int) -> bool {
    0 <= i && i + p.len() <= s.len() && s.subrange(i, i + p.len()) == p
}

/// `p` occurs somewhere in `s`.
pub open spec fn contains_str(s: Seq<char>, p: Seq<char>) -> bool {
    exists|i: int| occurs_at(s, p, i)
}

/// Whether `s[at..]` starts with `p`.
pub fn matches_at(s: &[char], p: &[char], at: usize) -> (r: bool)
    requires
        at <= s@.len(),
    ensures
        r == occurs_at(s@, p@, at as int),
{
    if p.len() > s.len() - at {
        return false;
    }
    let mut k: usize = 0;
    while k < p.len()
        invariant
            at + p@.len() <= s@.len(),
            s@.len() == s.len(),
            p@.len() == p.len(),
            k <= p@.len(),
            forall|j: int| 0 <= j < k ==> s@[at + j] == p@[j],
        decreases p@.len() - k,
    {
        if s[at + k] != p[k] {
            assert(s@.subrange(at as int, at + p@.len())[k as int] != p@[k as int]);
            return false;
        }
        k = k + 1;
    }
    assert(s@.subrange(at as int, at + p@.len()) =~= p@);
    true
}

/// Whether `s` starts with `p`.
pub fn has_prefix(s: &[char], p: &[char]) -> (r: bool)
    ensures
        r == starts_with(s@, p@),
{
    let r = matches_at(s, p, 0);
    assert(s@.subrange(0, p@.len() as int) == s@.take(p@.len() as int));
    r
}

/// Whether `s` ends with `p`.
pub fn has_suffix(s: &[char], p: &[char]) -> (r: bool)
    ensures
        r == ends_with(s@, p@),
{
    if p.len() > s.len() {
        return false;
    }
    let r = matches_at(s, p, s.len() - p.len());
    assert(s@.subrange(s@.len() - p@.len(), s@.len() as int) =~= s@.skip(s@.len() - p@.len()));
    r
}

/// Whether `p` occurs in `s`.
pub fn contains_chars(s: &[char], p: &[char]) -> (r: bool)
    ensures
        r == contains_str(s@, p@),
{
    if p.len() > s.len() {
        return false;
    }
    let last = s.len() - p.len();
    let mut i: usize = 0;
    loop
        invariant
            last == s@.len() - p@.len(),
            i <= last,
            forall|j: int| 0 <= j < i ==> !occurs_at(s@, p@, j),
        ensures
            forall|j: int| 0 <= j <= last ==> !occurs_at(s@, p@, j),
        decreases last - i,
    {
        if matches_at(s, p, i) {
            return true;
        }
        if i == last {
            break;
        }
        i = i + 1;
    }
    assert forall|j: int| !occurs_at(s@, p@, j) by {
        if 0 <= j <= last {
        }
    }
    false
}

/// The position of the first occurrence of `p` in `s`, or `None`.
pub open spec fn find_str(s: Seq<char>, p: Seq<char>) -> Option<int> {
    if contains_str(s, p) {
        Some(choose|i: int| occurs_at(s, p, i) && forall|j: int| 0 <= j < i ==> !occurs_at(s, p, j))
    } else {
        None
    }
}

/// The first position at which `p` occurs in `s`.
pub fn find_chars(s: &[char], p: &[char]) -> (r: Option<usize>)
    ensures
        match r {
            Some(i) => occurs_at(s@, p@, i as int) && forall|j: int|
                0 <= j < i ==> !occurs_at(s@, p@, j),
            None => !contains_str(s@, p@),
        },
        r matches Some(i) ==> find_str(s@, p@) == Some(i as int),
        r is None ==> find_str(s@, p@) is None,
{
    if p.len() > s.len() {
        return None;
    }
    let last = s.len() - p.len();
    let mut i: usize = 0;
    loop
        invariant
            last == s@.len() - p@.len(),
            i <= last,
            forall|j: int| 0 <= j < i ==> !occurs_at(s@, p@, j),
        ensures
            forall|j: int| 0 <= j <= last ==> !occurs_at(s@, p@, j),
        decreases last - i,
    {
        if matches_at(s, p, i) {
            proof {
                let w = choose|k: int|
                    occurs_at(s@, p@, k) && forall|j: int| 0 <= j < k ==> !occurs_at(s@, p@, j);
                assert(occurs_at(s@, p@, i as int) && forall|j: int|
                    0 <= j < i ==> !occurs_at(s@, p@, j));
                if w < i {
                } else if w > i {
                    assert(!occurs_at(s@, p@, i as int));
                }
            }
            return Some(i);
        }
        if i == last {
            break;
        }
        i = i + 1;
    }
    assert forall|j: int| !occurs_at(s@, p@, j) by {
        if 0 <= j <= last {
        }
    }
    None
}

// ---------------------------------------------------------------------
// Lines
// ---------------------------------------------------------------------

/// A line ended by `\n` loses one trailing `\r`.
pub open spec fn strip_cr(l: Seq<char>) -> Seq<char> {
    if l.len() > 0 && l.last() == '\r' {
        l.drop_last()
    } else {
        l
    }
}

/// One character of the line splitter: the finished lines and the open one.
pub open spec fn lines_step(st: (Seq<Seq<char>>, Seq<char>), c: char) -> (
    Seq<Seq<char>>,
    Seq<char>,
) {
    if c == '\n' {
        (st.0.push(strip_cr(st.1)), Seq::empty())
    } else {
        (st.0, st.1.push(c))
    }
}

/// The splitter's state after reading `s`.
pub open spec fn lines_fold(s: Seq<char>) -> (Seq<Seq<char>>, Seq<char>)
    decreases s.len(),
{
    if s.len() == 0 {
        (Seq::empty(), Seq::empty())
    } else {
        lines_step(lines_fold(s.drop_last()), s.last())
    }
}

/// `str::lines`: the pieces between `\n`s, each without its `\n` and without
/// the `\r` just before it; a final piece is kept only when non-empty.
pub open spec fn lines_of(s: Seq<char>) -> Seq<Seq<char>> {
    let st = lines_fold(s);
    if st.1.len() > 0 {
        st.0.push(st.1)
    } else {
        st.0
    }
}

/// The lines of `s`, as `str::lines` yields them.
pub fn split_lines(s: &[char]) -> (r: Vec<Vec<char>>)
    ensures
        r@.len() == lines_of(s@).len(),
        forall|i: int| 0 <= i < r@.len() ==> #[trigger] r@[i]@ == lines_of(s@)[i],
{
    let mut done: Vec<Vec<char>> = Vec::new();
    let mut cur: Vec<char> = Vec::new();
    let mut i: usize = 0;
    while i < s.len()
        invariant
            i <= s@.len(),
            done@.len() == lines_fold(s@.take(i as int)).0.len(),
            forall|k: int|
                0 <= k < done@.len() ==> #[trigger] done@[k]@ == lines_fold(
                    s@.take(i as int),
                ).0[k],
            cur@ == lines_fold(s@.take(i as int)).1,
        decreases s@.len() - i,
    {
        let c = s[i];
        assert(s@.take(i + 1).drop_last() =~= s@.take(i as int));
        if c == '\n' {
            let mut line = cur;
            if line.len() > 0 && line[line.len() - 1] == '\r' {
                line.pop();
            }
            assert(line@ == strip_cr(lines_fold(s@.take(i as int)).1));
            done.push(line);
            cur = Vec::new();
        } else {
            cur.push(c);
        }
        i = i + 1;
    }
    assert(s@.take(s@.len() as int) =~= s@);
    if cur.len() > 0 {
        done.push(cur);
    }
    done
}

/// Leading white space removed.
pub open spec fn trim_start(s: Seq<char>) -> Seq<char>
    decreases s.len(),
{
    if s.len() > 0 && is_whitespace_spec(s[0]) {
        trim_start(s.drop_first())
    } else {
        s
    }
}

/// Trailing white space removed.
pub open spec fn trim_end(s: Seq<char>) -> Seq<char>
    decreases s.len(),
{
    if s.len() > 0 && is_whitespace_spec(s.last()) {
        trim_end(s.drop_last())
    } else {
        s
    }
}

/// `str::trim`: `s` without leading and trailing white space.
pub open spec fn trim_spec(s: Seq<char>) -> Seq<char> {
    trim_end(trim_start(s))
}

proof fn lemma_trim_start_at(s: Seq<char>, a: int)
    requires
        0 <= a <= s.len(),
        forall|j: int| 0 <= j < a ==> is_whitespace_spec(#[trigger] s[j]),
        a == s.len() || !is_whitespace_spec(s[a]),
    ensures
        trim_start(s) == s.skip(a),
    decreases a,
{
    if a == 0 {
        assert(s.skip(0) =~= s);
    } else {
        assert(is_whitespace_spec(s[0]));
        let t = s.drop_first();
        assert forall|j: int| 0 <= j < a - 1 implies is_whitespace_spec(#[trigger] t[j]) by {
            assert(t[j] == s[j + 1]);
        }
        lemma_trim_start_at(t, a - 1);
        assert(t.skip(a - 1) =~= s.skip(a));
    }
}

proof fn lemma_trim_end_at(s: Seq<char>, b: int)
    requires
        0 <= b <= s.len(),
        forall|j: int| b <= j < s.len() ==> is_whitespace_spec(#[trigger] s[j]),
        b == 0 || !is_whitespace_spec(s[b - 1]),
    ensures
        trim_end(s) == s.take(b),
    decreases s.len() - b,
{
    if b == s.len() {
        assert(s.take(b) =~= s);
    } else {
        assert(is_whitespace_spec(s.last()));
        let t = s.drop_last();
        assert forall|j: int| b <= j < t.len() implies is_whitespace_spec(#[trigger] t[j]) by {
            assert(t[j] == s[j]);
        }
        lemma_trim_end_at(t, b);
        assert(t.take(b) =~= s.take(b));
    }
}

/// `s` without leading and trailing white space, as `str::trim` returns it.
pub fn trim(s: &[char]) -> (r: Vec<char>)
    ensures
        r@ == trim_spec(s@),
{
    let n = s.len();
    let mut a: usize = 0;
    while a < n && is_whitespace(s[a])
        invariant
            n == s@.len(),
            a <= n,
            forall|j: int| 0 <= j < a ==> is_whitespace_spec(#[trigger] s@[j]),
        decreases n - a,
    {
        a = a + 1;
    }
    proof {
        lemma_trim_start_at(s@, a as int);
    }
    let mut b: usize = n;
    while b > a && is_whitespace(s[b - 1])
        invariant
            n == s@.len(),
            a <= b <= n,
            forall|j: int| b <= j < n ==> is_whitespace_spec(#[trigger] s@[j]),
        decreases b - a,
    {
        b = b - 1;
    }
    let ghost t = s@.skip(a as int);
    proof {
        assert forall|j: int|
            b - a <= j < t.len() implies is_whitespace_spec(#[trigger] t[j]) by {
            assert(t[j] == s@[j + a]);
        }
        if b > a {
            assert(t[b - a - 1] == s@[b - 1]);
        }
        lemma_trim_end_at(t, b - a);
    }
    let mut out: Vec<char> = Vec::new();
    let mut k: usize = a;
    while k < b
        invariant
            n == s@.len(),
            a <= k <= b <= n,
            out@ == s@.subrange(a as int, k as int),
        decreases b - k,
    {
        out.push(s[k]);
        k = k + 1;
        assert(s@.subrange(a as int, k as int) =~= s@.subrange(a as int, k - 1).push(
            s@[k - 1],
        ));
    }
    assert(t.take(b - a) =~= s@.subrange(a as int, b as int));
    out
}

/// One character of `str::split_whitespace`: finished words and the open one.
pub open spec fn words_step(st: (Seq<Seq<char>>, Seq<char>), c: char) -> (
    Seq<Seq<char>>,
    Seq<char>,
) {
    if is_whitespace_spec(c) {
        if st.1.len() > 0 {
            (st.0.push(st.1), Seq::empty())
        } else {
            st
        }
    } else {
        (st.0, st.1.push(c))
    }
}

/// The word splitter's state after reading `s`.
pub open spec fn words_fold(s: Seq<char>) -> (Seq<Seq<char>>, Seq<char>)
    decreases s.len(),
{
    if s.len() == 0 {
        (Seq::empty(), Seq::empty())
    } else {
        words_step(words_fold(s.drop_last()), s.last())
    }
}

/// `str::split_whitespace`: the maximal runs of non-white-space characters.
pub open spec fn words_of(s: Seq<char>) -> Seq<Seq<char>> {
    let st = words_fold(s);
    if st.1.len() > 0 {
        st.0.push(st.1)
    } else {
        st.0
    }
}

/// The words of `s`, as `str::split_whitespace` yields them.
pub fn split_words(s: &[char]) -> (r: Vec<Vec<char>>)
    ensures
        r@.len() == words_of(s@).len(),
        forall|i: int| 0 <= i < r@.len() ==> #[trigger] r@[i]@ == words_of(s@)[i],
{
    let mut done: Vec<Vec<char>> = Vec::new();
    let mut cur: Vec<char> = Vec::new();
    let mut i: usize = 0;
    while i < s.len()
        invariant
            i <= s@.len(),
            done@.len() == words_fold(s@.take(i as int)).0.len(),
            forall|k: int|
                0 <= k < done@.len() ==> #[trigger] done@[k]@ == words_fold(
                    s@.take(i as int),
                ).0[k],
            cur@ == words_fold(s@.take(i as int)).1,
        decreases s@.len() - i,
    {
        let c = s[i];
        assert(s@.take(i + 1).drop_last() =~= s@.take(i as int));
        if is_whitespace(c) {
            if cur.len() > 0 {
                done.push(cur);
                cur = Vec::new();
            }
        } else {
            cur.push(c);
        }
        i = i + 1;
    }
    assert(s@.take(s@.len() as int) =~= s@);
    if cur.len() > 0 {
        done.push(cur);
    }
    done
}

// ---------------------------------------------------------------------
// Decimal integers
// ---------------------------------------------------------------------

/// The ASCII digit for `d < 10`.
pub open spec fn digit_char(d: nat) -> char {
    ((48 + d) as u8) as char
}

/// The decimal representation of `n`, without sign or leading zeros.
pub open spec fn dec(n: nat) -> Seq<char>
    decreases n,
{
    if n < 10 {
        seq![digit_char(n)]
    } else {
        dec(n / 10).push(digit_char(n % 10))
    }
}

/// The decimal text of `n` reads back as `n`: it is a non-empty run of
/// ASCII digits whose value is `n`.
pub proof fn lemma_dec_reads_back(n: nat)
    ensures
        dec(n).len() > 0,
        all_digits(dec(n)),
        digits_value(dec(n)) == n,
    decreases n,
{
    let d = n % 10;
    assert(((48 + d) as u8) as char as u32 == 48 + d);
    if n >= 10 {
        lemma_dec_reads_back(n / 10);
        let s = dec(n);
        assert(s.drop_last() =~= dec(n / 10));
        assert(s.last() == digit_char(d));
        assert((n / 10) * 10 + d == n) by (nonlinear_arith)
            requires
                d == n % 10,
        ;
        assert(digits_value(s) == digits_value(dec(n / 10)) * 10 + d);
        assert forall|i: int| 0 <= i < s.len() implies is_digit_spec(#[trigger] s[i]) by {
            if i < s.len() - 1 {
                assert(s[i] == dec(n / 10)[i]);
            }
        }
    } else {
        assert(dec(n).drop_last() =~= Seq::<char>::empty());
        assert(d == n);
        assert(digits_value(dec(n)) == digits_value(Seq::<char>::empty()) * 10 + d);
    }
}

/// `parse_uint_spec` reads a decimal text back.
pub proof fn lemma_parse_uint_dec(n: nat, max: nat)
    requires
        n <= max,
    ensures
        parse_uint_spec(dec(n), max) == Some(n),
{
    lemma_dec_reads_back(n);
    assert(is_digit_spec(dec(n)[0]));
}

/// Appending a run of non-whitespace characters extends the word being
/// read.
pub proof fn lemma_words_fold_append_word(s: Seq<char>, w: Seq<char>)
    requires
        forall|i: int| 0 <= i < w.len() ==> !is_whitespace_spec(#[trigger] w[i]),
    ensures
        words_fold(s + w) == (words_fold(s).0, words_fold(s).1 + w),
    decreases w.len(),
{
    if w.len() == 0 {
        assert(s + w =~= s);
        assert(words_fold(s).1 + w =~= words_fold(s).1);
    } else {
        let w0 = w.drop_last();
        assert forall|i: int| 0 <= i < w0.len() implies !is_whitespace_spec(#[trigger] w0[i]) by {
            assert(w0[i] == w[i]);
        }
        lemma_words_fold_append_word(s, w0);
        assert((s + w).drop_last() =~= s + w0);
        assert((s + w).last() == w.last());
        assert(!is_whitespace_spec(w[w.len() - 1]));
        assert(words_fold(s).1 + w0 + seq![w.last()] =~= words_fold(s).1 + w);
        assert((words_fold(s).1 + w0).push(w.last()) =~= words_fold(s).1 + w);
    }
}

/// Appends the decimal representation of `n`, as `format!("{n}")` writes it.
pub fn push_dec(out: &mut String, n: u64)
    ensures
        final(out)@ == old(out)@ + dec(n as nat),
    decreases n,
{
    if n >= 10 {
        push_dec(out, n / 10);
    }
    let d: u8 = (n % 10) as u8;
    push_char(out, (48u8 + d) as char);
    proof {
        if n >= 10 {
            assert(dec(n as nat) == dec((n / 10) as nat).push(digit_char((n % 10) as nat)));
        }
    }
}

/// Appends the decimal representation of the 128-bit `n`.
pub fn push_dec_wide(out: &mut String, n: u128)
    ensures
        final(out)@ == old(out)@ + dec(n as nat),
    decreases n,
{
    if n >= 10 {
        push_dec_wide(out, n / 10);
    }
    let d: u8 = (n % 10) as u8;
    push_char(out, (48u8 + d) as char);
    proof {
        if n >= 10 {
            assert(dec(n as nat) == dec((n / 10) as nat).push(digit_char((n % 10) as nat)));
        }
    }
}

/// The value of a run of ASCII digits.
pub open spec fn digits_value(d: Seq<char>) -> nat
    decreases d.len(),
{
    if d.len() == 0 {
        0
    } else {
        digits_value(d.drop_last()) * 10 + ((d.last() as u32) - 48) as nat
    }
}

/// Every character of `d` is an ASCII digit.
pub open spec fn all_digits(d: Seq<char>) -> bool {
    forall|i: int| 0 <= i < d.len() ==> is_digit_spec(#[trigger] d[i])
}

/// `str::parse` for an unsigned integer type whose largest value is `max`:
/// an optional `+`, then one or more ASCII digits, denoting at most `max`.
pub open spec fn parse_uint_spec(s: Seq<char>, max: nat) -> Option<nat> {
    let d = if s.len() > 0 && s[0] == '+' {
        s.drop_first()
    } else {
        s
    };
    if d.len() > 0 && all_digits(d) && digits_value(d) <= max {
        Some(digits_value(d))
    } else {
        None
    }
}

proof fn lemma_digits_monotone(d: Seq<char>, i: int, j: int)
    requires
        0 <= i <= j <= d.len(),
        all_digits(d),
    ensures
        digits_value(d.take(i)) <= digits_value(d.take(j)),
    decreases j - i,
{
    if i < j {
        lemma_digits_monotone(d, i, j - 1);
        assert(d.take(j).drop_last() =~= d.take(j - 1));
        assert(is_digit_spec(d[j - 1]));
    }
}

/// Parses `s` as `str::parse::<uN>` does for a type whose maximum is `max`.
pub fn parse_uint(s: &[char], max: u64) -> (r: Option<u64>)
    ensures
        match parse_uint_spec(s@, max as nat) {
            Some(v) => r == Some(v as u64),
            None => r is None,
        },
{
    let start: usize = if s.len() > 0 && s[0] == '+' {
        1
    } else {
        0
    };
    let ghost d = if s@.len() > 0 && s@[0] == '+' {
        s@.drop_first()
    } else {
        s@
    };
    assert(d =~= s@.skip(start as int));
    if start == s.len() {
        return None;
    }
    let mut acc: u64 = 0;
    let mut over = false;
    let mut i: usize = start;
    while i < s.len()
        invariant
            start <= i <= s@.len(),
            d == s@.skip(start as int),
            d == (if s@.len() > 0 && s@[0] == '+' {
                s@.drop_first()
            } else {
                s@
            }),
            d.len() > 0,
            forall|j: int| 0 <= j < i - start ==> is_digit_spec(#[trigger] d[j]),
            !over ==> acc == digits_value(d.take(i - start)),
            !over ==> acc <= max,
            over ==> digits_value(d.take(i - start)) > max,
        decreases s@.len() - i,
    {
        let c = s[i];
        assert(c == d[i - start]);
        if !('0' <= c && c <= '9') {
            assert(!is_digit_spec(d[i - start]));
            assert(!all_digits(d));
            assert(parse_uint_spec(s@, max as nat) is None);
            return None;
        }
        let k = i - start;
        assert(d.take(k + 1).drop_last() =~= d.take(k as int));
        let v: u64 = (c as u32 - 48) as u64;
        if !over {
            if v > max {
                over = true;
            } else if acc > (max - v) / 10 {
                over = true;
                assert(acc * 10 + v > max) by (nonlinear_arith)
                    requires
                        acc > (max - v) / 10,
                        v <= max,
                ;
            } else {
                assert(acc * 10 + v <= max) by (nonlinear_arith)
                    requires
                        acc <= (max - v) / 10,
                        v <= max,
                ;
                acc = acc * 10 + v;
            }
        } else {
            assert(digits_value(d.take(k + 1)) >= digits_value(d.take(k as int)) * 10);
        }
        i = i + 1;
    }
    assert(d.take(d.len() as int) =~= d);
    if over {
        None
    } else {
        Some(acc)
    }
}

// ---------------------------------------------------------------------
// Sanitising and truncating
// ---------------------------------------------------------------------

/// `s` with every control character removed.
pub open spec fn drop_controls(s: Seq<char>) -> Seq<char> {
    s.filter(|c: char| !is_control_spec(c))
}

/// Control characters dropped, then at most `max` characters kept; a
/// shortened text ends with `…`.
pub open spec fn clean_truncate_spec(s: Seq<char>, max: nat) -> Seq<char> {
    let clean = drop_controls(s);
    if clean.len() <= max {
        clean
    } else {
        clean.take(max as int).push('…')
    }
}

/// Drops the control characters of `s`, then keeps at most `max`
/// characters, marking a cut with `…`.
pub fn clean_truncate(s: &str, max: usize) -> (r: String)
    ensures
        r@ == clean_truncate_spec(s@, max as nat),
{
    let cs = chars_of(s);
    let mut clean: Vec<char> = Vec::new();
    let mut i: usize = 0;
    while i < cs.len()
        invariant
            cs@ == s@,
            i <= cs@.len(),
            clean@ == drop_controls(cs@.take(i as int)),
        decreases cs@.len() - i,
    {
        let c = cs[i];
        proof {
            let f = |c: char| !is_control_spec(c);
            assert(cs@.take(i + 1) =~= cs@.take(i as int).push(c));
            reveal_with_fuel(Seq::<_>::filter, 1);
            assert(cs@.take(i + 1).drop_last() =~= cs@.take(i as int));
        }
        if !is_control(c) {
            clean.push(c);
        }
        i = i + 1;
    }
    assert(cs@.take(cs@.len() as int) =~= cs@);
    if clean.len() <= max {
        string_from_chars(clean.as_slice())
    } else {
        let mut out = String::new();
        let mut k: usize = 0;
        while k < max
            invariant
                k <= max < clean@.len(),
                out@ == clean@.take(k as int),
            decreases max - k,
        {
            push_char(&mut out, clean[k]);
            k = k + 1;
            assert(clean@.take(k as int) =~= clean@.take(k - 1).push(clean@[k - 1]));
        }
        push_char(&mut out, '…');
        out
    }
}

/// What a cleaned, truncated text can hold: no control character, and at
/// most `max` characters plus the ellipsis.
pub proof fn law_clean_truncate_is_safe(s: Seq<char>, max: nat)
    ensures
        forall|i: int|
            0 <= i < clean_truncate_spec(s, max).len() ==> !is_control_spec(
                #[trigger] clean_truncate_spec(s, max)[i],
            ),
        clean_truncate_spec(s, max).len() <= max + 1,
        drop_controls(s).len() <= max ==> clean_truncate_spec(s, max) == drop_controls(s),
{
    let f = |c: char| !is_control_spec(c);
    let clean = drop_controls(s);
    assert forall|i: int| 0 <= i < clean.len() implies !is_control_spec(#[trigger] clean[i]) by {
        s.lemma_filter_pred(f, i);
    }
    assert(!is_control_spec('…'));
}

// ---------------------------------------------------------------------
// Paths
// ---------------------------------------------------------------------

/// A path segment that names something: not empty and not `.`.
pub open spec fn is_named_segment(seg: Seq<char>) -> bool {
    seg.len() > 0 && seg != seq!['.']
}

/// One character of the path walk: the last named segment so far and the
/// segment being read.
pub open spec fn path_step(st: (Option<Seq<char>>, Seq<char>), c: char) -> (
    Option<Seq<char>>,
    Seq<char>,
) {
    if c == '/' {
        (if is_named_segment(st.1) {
            Some(st.1)
        } else {
            st.0
        }, Seq::empty())
    } else {
        (st.0, st.1.push(c))
    }
}

/// The walk's state after reading `p`.
pub open spec fn path_fold(p: Seq<char>) -> (Option<Seq<char>>, Seq<char>)
    decreases p.len(),
{
    if p.len() == 0 {
        (None, Seq::empty())
    } else {
        path_step(path_fold(p.drop_last()), p.last())
    }
}

/// The last `/`-separated segment of `p` that is neither empty nor `.`.
pub open spec fn last_named_segment(p: Seq<char>) -> Option<Seq<char>> {
    let st = path_fold(p);
    if is_named_segment(st.1) {
        Some(st.1)
    } else {
        st.0
    }
}

/// `Path::file_name` on a Unix path: its last component when that is a
/// name, `None` for `/`, an empty path, or a path ending in `..` or `.`.
pub open spec fn file_name_spec(p: Seq<char>) -> Option<Seq<char>> {
    match last_named_segment(p) {
        Some(seg) => if seg == seq!['.', '.'] {
            None
        } else {
            Some(seg)
        },
        None => None,
    }
}

/// The final component of the Unix path `p`, as `Path::file_name` finds it.
pub fn file_name(p: &str) -> (r: Option<Vec<char>>)
    ensures
        match file_name_spec(p@) {
            Some(n) => r matches Some(v) && v@ == n,
            None => r is None,
        },
{
    let cs = chars_of(p);
    let mut last: Option<Vec<char>> = None;
    let mut cur: Vec<char> = Vec::new();
    let mut i: usize = 0;
    while i < cs.len()
        invariant
            cs@ == p@,
            i <= cs@.len(),
            cur@ == path_fold(cs@.take(i as int)).1,
            match path_fold(cs@.take(i as int)).0 {
                Some(n) => last matches Some(v) && v@ == n,
                None => last is None,
            },
        decreases cs@.len() - i,
    {
        let c = cs[i];
        assert(cs@.take(i + 1).drop_last() =~= cs@.take(i as int));
        if c == '/' {
            let named = cur.len() > 0 && !(cur.len() == 1 && cur[0] == '.');
            assert(named == is_named_segment(cur@)) by {
                if cur@.len() == 1 && cur@[0] == '.' {
                    assert(cur@ =~= seq!['.']);
                }
            }
            if named {
                last = Some(cur);
            }
            cur = Vec::new();
        } else {
            cur.push(c);
        }
        i = i + 1;
    }
    assert(cs@.take(cs@.len() as int) =~= cs@);
    let named = cur.len() > 0 && !(cur.len() == 1 && cur[0] == '.');
    assert(named == is_named_segment(cur@)) by {
        if cur@.len() == 1 && cur@[0] == '.' {
            assert(cur@ =~= seq!['.']);
        }
    }
    let seg = if named {
        Some(cur)
    } else {
        last
    };
    match seg {
        Some(v) => {
            let dotdot = v.len() == 2 && v[0] == '.' && v[1] == '.';
            assert(dotdot == (v@ == seq!['.', '.'])) by {
                if v@.len() == 2 && v@[0] == '.' && v@[1] == '.' {
                    assert(v@ =~= seq!['.', '.']);
                }
            }
            if dotdot {
                None
            } else {
                Some(v)
            }
        },
        None => None,
    }
}


// ---------------------------------------------------------------------
// Line-safe text
// ---------------------------------------------------------------------

/// `s` holds no newline, so it cannot break a line of output.
pub open spec fn nl_free(s: Seq<char>) -> bool {
    forall|i: int| 0 <= i < s.len() ==> s[i] != '\n'
}

/// Decimal digits hold no newline.
pub proof fn lemma_dec_nl_free(n: nat)
    ensures
        nl_free(dec(n)),
    decreases n,
{
    assert(digit_char(n % 10) != '\n') by {
        let d = n % 10;
        assert(48 + d < 256);
        assert(((48 + d) as u8) as char != '\n');
    }
    if n >= 10 {
        lemma_dec_nl_free(n / 10);
    }
}

/// A cleaned, truncated text holds no newline.
pub proof fn lemma_clean_truncate_nl_free(s: Seq<char>, max: nat)
    ensures
        nl_free(clean_truncate_spec(s, max)),
{
    law_clean_truncate_is_safe(s, max);
    let t = clean_truncate_spec(s, max);
    assert forall|i: int| 0 <= i < t.len() implies t[i] != '\n' by {
        assert(!is_control_spec(t[i]));
    }
}

proof fn lemma_path_fold_nl_free(p: Seq<char>)
    requires
        nl_free(p),
    ensures
        nl_free(path_fold(p).1),
        path_fold(p).0 matches Some(seg) ==> nl_free(seg),
    decreases p.len(),
{
    if p.len() > 0 {
        assert(nl_free(p.drop_last()));
        lemma_path_fold_nl_free(p.drop_last());
    }
}

/// The file name of a path without newlines holds none.
pub proof fn lemma_file_name_nl_free(p: Seq<char>)
    requires
        nl_free(p),
    ensures
        file_name_spec(p) matches Some(n) ==> nl_free(n),
{
    lemma_path_fold_nl_free(p);
}

} // verus!
