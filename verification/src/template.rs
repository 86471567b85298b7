//! The command syntax of page templates: `<!--@<command> <argument> -->`, where the
//! command and the argument are non-empty and stay on one line, and the two blanks
//! are white space other than a line break. Commands are found from left to right;
//! at each start the command is taken as long as it can be, then the argument.

use vstd::prelude::*;

verus! {

/// White space other than `\r` and `\n`.
pub open spec fn is_cmd_space(c: char) -> bool {
    c == '\t' || c == '\u{0b}' || c == '\u{0c}' || c == ' ' || c == '\u{85}' || c == '\u{a0}'
        || c == '\u{1680}' || ('\u{2000}' <= c && c <= '\u{200a}') || c == '\u{2028}' || c
        == '\u{2029}' || c == '\u{202f}' || c == '\u{205f}' || c == '\u{3000}'
}

/// `<!--@` starts at `s`.
pub open spec fn opener_at(t: Seq<char>, s: int) -> bool {
    0 <= s && s + 5 <= t.len() && t[s] == '<' && t[s + 1] == '!' && t[s + 2] == '-' && t[s + 3]
        == '-' && t[s + 4] == '@'
}

/// A blank followed by `-->` starts at `k`.
pub open spec fn closer_at(t: Seq<char>, k: int) -> bool {
    0 <= k && k + 4 <= t.len() && is_cmd_space(t[k]) && t[k + 1] == '-' && t[k + 2] == '-' && t[k
        + 3] == '>'
}

/// No line break in `t[a..b]`.
pub open spec fn line_free(t: Seq<char>, a: int, b: int) -> bool {
    forall|i: int| a <= i < b ==> #[trigger] t[i] != '\n'
}

/// A way to read a command at `s`: the command is `t[s + 5..split]`, the blank is at
/// `split`, the argument is `t[split + 1..close]`, and the closing blank is at `close`.
pub open spec fn candidate(t: Seq<char>, s: int, split: int, close: int) -> bool {
    &&& opener_at(t, s)
    &&& s + 6 <= split
    &&& split + 2 <= close
    &&& is_cmd_space(t[split])
    &&& closer_at(t, close)
    &&& line_free(t, s + 5, close)
}

/// Some command can be read at `s`.
pub open spec fn has_match_at(t: Seq<char>, s: int) -> bool {
    exists|split: int, close: int| candidate(t, s, split, close)
}

/// The reading at `s` that is taken: the longest command, then the longest argument.
pub open spec fn best_at(t: Seq<char>, s: int, split: int, close: int) -> bool {
    &&& candidate(t, s, split, close)
    &&& forall|a: int, b: int|
        #[trigger] candidate(t, s, a, b) ==> a < split || (a == split && b <= close)
}

/// The first command at or after `p`.
pub open spec fn first_match(t: Seq<char>, p: int, m: (int, int, int)) -> bool {
    &&& p <= m.0
    &&& best_at(t, m.0, m.1, m.2)
    &&& forall|s: int| p <= s < m.0 ==> !#[trigger] has_match_at(t, s)
}

/// No command starts at or after `p`.
pub open spec fn no_match_from(t: Seq<char>, p: int) -> bool {
    forall|s: int| p <= s ==> !#[trigger] has_match_at(t, s)
}

/// Where the search goes on after the commands `ms`, found from `p`.
pub open spec fn chain_end(p: int, ms: Seq<(int, int, int)>) -> int {
    if ms.len() == 0 {
        p
    } else {
        ms.last().2 + 4
    }
}

/// `ms` are the commands found one after another from `p`, each search starting where
/// the previous command ends.
pub open spec fn is_chain(t: Seq<char>, p: int, ms: Seq<(int, int, int)>) -> bool
    decreases ms.len(),
{
    if ms.len() == 0 {
        true
    } else {
        is_chain(t, p, ms.drop_last()) && first_match(t, chain_end(p, ms.drop_last()), ms.last())
    }
}

/// `ms` are all the commands of `t` from `p` on.
pub open spec fn is_match_list(t: Seq<char>, p: int, ms: Seq<(int, int, int)>) -> bool {
    is_chain(t, p, ms) && no_match_from(t, chain_end(p, ms))
}

/// The commands of `t`, in order.
pub open spec fn cmd_matches(t: Seq<char>) -> Seq<(int, int, int)> {
    choose|ms: Seq<(int, int, int)>| is_match_list(t, 0, ms)
}

/// The command word of a match.
pub open spec fn cmd_word(t: Seq<char>, m: (int, int, int)) -> Seq<char> {
    t.subrange(m.0 + 5, m.1)
}

/// The argument of a match.
pub open spec fn cmd_arg(t: Seq<char>, m: (int, int, int)) -> Seq<char> {
    t.subrange(m.1 + 1, m.2)
}

/// Where a match ends.
pub open spec fn cmd_end(m: (int, int, int)) -> int {
    m.2 + 4
}

pub open spec fn match_views(ms: Seq<(usize, usize, usize)>) -> Seq<(int, int, int)> {
    ms.map_values(|m: (usize, usize, usize)| (m.0 as int, m.1 as int, m.2 as int))
}

// ---------------------------------------------------------------------------------
// Uniqueness
pub proof fn lemma_first_match_unique(t: Seq<char>, p: int, m1: (int, int, int), m2: (
    int,
    int,
    int,
))
    requires
        first_match(t, p, m1),
        first_match(t, p, m2),
    ensures
        m1 == m2,
{
    if m1.0 < m2.0 {
        assert(candidate(t, m1.0, m1.1, m1.2));
        assert(has_match_at(t, m1.0));
    } else if m2.0 < m1.0 {
        assert(candidate(t, m2.0, m2.1, m2.2));
        assert(has_match_at(t, m2.0));
    } else {
        assert(candidate(t, m1.0, m2.1, m2.2));
        assert(candidate(t, m1.0, m1.1, m1.2));
    }
}

pub proof fn lemma_chain_prefix(t: Seq<char>, p: int, ms: Seq<(int, int, int)>, k: int)
    requires
        is_chain(t, p, ms),
        0 <= k <= ms.len(),
    ensures
        is_chain(t, p, ms.take(k)),
        k < ms.len() ==> first_match(t, chain_end(p, ms.take(k)), ms[k]),
    decreases ms.len(),
{
    if k < ms.len() {
        lemma_chain_prefix(t, p, ms.drop_last(), k);
        if k == ms.len() - 1 {
            assert(ms.take(k) =~= ms.drop_last());
        } else {
            assert(ms.drop_last().take(k) =~= ms.take(k));
        }
    } else {
        assert(ms.take(k) =~= ms);
    }
}

proof fn lemma_chains_agree(t: Seq<char>, p: int, ms1: Seq<(int, int, int)>, ms2: Seq<(int, int, int)>, k: int)
    requires
        is_chain(t, p, ms1),
        is_chain(t, p, ms2),
        0 <= k <= ms1.len(),
        k <= ms2.len(),
    ensures
        ms1.take(k) == ms2.take(k),
    decreases k,
{
    if k > 0 {
        lemma_chains_agree(t, p, ms1, ms2, k - 1);
        lemma_chain_prefix(t, p, ms1, k - 1);
        lemma_chain_prefix(t, p, ms2, k - 1);
        lemma_first_match_unique(t, chain_end(p, ms1.take(k - 1)), ms1[k - 1], ms2[k - 1]);
        assert(ms1.take(k) =~= ms1.take(k - 1).push(ms1[k - 1]));
        assert(ms2.take(k) =~= ms2.take(k - 1).push(ms2[k - 1]));
    } else {
        assert(ms1.take(0) =~= ms2.take(0));
    }
}

/// The commands of a text are determined by it: two complete lists are equal.
pub proof fn lemma_match_list_unique(t: Seq<char>, p: int, ms1: Seq<(int, int, int)>, ms2: Seq<
    (int, int, int),
>)
    requires
        is_match_list(t, p, ms1),
        is_match_list(t, p, ms2),
    ensures
        ms1 == ms2,
{
    if ms1.len() < ms2.len() {
        let k = ms1.len() as int;
        lemma_chains_agree(t, p, ms1, ms2, k);
        lemma_chain_prefix(t, p, ms2, k);
        assert(ms1.take(k) =~= ms1);
        assert(candidate(t, ms2[k].0, ms2[k].1, ms2[k].2));
        assert(has_match_at(t, ms2[k].0));
    } else if ms2.len() < ms1.len() {
        let k = ms2.len() as int;
        lemma_chains_agree(t, p, ms1, ms2, k);
        lemma_chain_prefix(t, p, ms1, k);
        assert(ms2.take(k) =~= ms2);
        assert(candidate(t, ms1[k].0, ms1[k].1, ms1[k].2));
        assert(has_match_at(t, ms1[k].0));
    } else {
        lemma_chains_agree(t, p, ms1, ms2, ms1.len() as int);
        assert(ms1.take(ms1.len() as int) =~= ms1);
        assert(ms2.take(ms2.len() as int) =~= ms2);
    }
}

/// Reading a command again from its own text gives the same command and argument:
/// the reading taken at `s` is also the one taken at the start of `t[s..end]`.
pub proof fn lemma_recapture(t: Seq<char>, s: int, split: int, close: int)
    requires
        best_at(t, s, split, close),
    ensures
        best_at(t.subrange(s, close + 4), 0, split - s, close - s),
{
    let u = t.subrange(s, close + 4);
    assert(forall|k: int| 0 <= k < u.len() ==> #[trigger] u[k] == t[s + k]);
    assert(line_free(u, 5, close - s)) by {
        assert forall|i: int| 5 <= i < close - s implies #[trigger] u[i] != '\n' by {
            assert(u[i] == t[s + i]);
        }
    }
    assert(candidate(u, 0, split - s, close - s));
    assert forall|a: int, b: int| #[trigger] candidate(u, 0, a, b) implies a < split - s || (a == split
        - s && b <= close - s) by {
        assert(u[a] == t[s + a]);
        assert(u[b] == t[s + b] && u[b + 1] == t[s + b + 1] && u[b + 2] == t[s + b + 2] && u[b + 3]
            == t[s + b + 3]);
        assert(line_free(t, s + 5, s + b)) by {
            assert forall|i: int| s + 5 <= i < s + b implies #[trigger] t[i] != '\n' by {
                assert(u[i - s] == t[i]);
            }
        }
        assert(candidate(t, s, s + a, s + b));
    }
}

// ---------------------------------------------------------------------------------
// Existence
/// The first line break at or after `i`, or the end of the text.
pub open spec fn line_end(t: Seq<char>, i: int) -> int
    decreases t.len() - i,
{
    if i >= t.len() {
        t.len() as int
    } else if t[i] == '\n' {
        i
    } else {
        line_end(t, i + 1)
    }
}

proof fn lemma_line_end(t: Seq<char>, i: int)
    requires
        0 <= i <= t.len(),
    ensures
        i <= line_end(t, i) <= t.len(),
        line_free(t, i, line_end(t, i)),
        line_end(t, i) == t.len() || t[line_end(t, i)] == '\n',
    decreases t.len() - i,
{
    if i < t.len() && t[i] != '\n' {
        lemma_line_end(t, i + 1);
    }
}

/// The last position `k` in `lo..=hi` where a closer starts, or `lo - 1`.
pub open spec fn last_closer(t: Seq<char>, lo: int, hi: int) -> int
    decreases hi - lo + 1,
{
    if hi < lo {
        lo - 1
    } else if closer_at(t, hi) {
        hi
    } else {
        last_closer(t, lo, hi - 1)
    }
}

proof fn lemma_last_closer(t: Seq<char>, lo: int, hi: int)
    requires
        lo - 1 <= hi,
    ensures
        lo - 1 <= last_closer(t, lo, hi) <= hi,
        last_closer(t, lo, hi) >= lo ==> closer_at(t, last_closer(t, lo, hi)),
        forall|j: int| last_closer(t, lo, hi) < j <= hi ==> !closer_at(t, j),
    decreases hi - lo + 1,
{
    if hi >= lo && !closer_at(t, hi) {
        lemma_last_closer(t, lo, hi - 1);
    }
}

/// The last position in `lo..=hi` that holds a blank, or `lo - 1`.
pub open spec fn last_space(t: Seq<char>, lo: int, hi: int) -> int
    decreases hi - lo + 1,
{
    if hi < lo {
        lo - 1
    } else if is_cmd_space(t[hi]) {
        hi
    } else {
        last_space(t, lo, hi - 1)
    }
}

proof fn lemma_last_space(t: Seq<char>, lo: int, hi: int)
    requires
        lo - 1 <= hi,
    ensures
        lo - 1 <= last_space(t, lo, hi) <= hi,
        last_space(t, lo, hi) >= lo ==> is_cmd_space(t[last_space(t, lo, hi)]),
        forall|j: int| last_space(t, lo, hi) < j <= hi ==> !is_cmd_space(#[trigger] t[j]),
    decreases hi - lo + 1,
{
    if hi >= lo && !is_cmd_space(t[hi]) {
        lemma_last_space(t, lo, hi - 1);
    }
}

/// Either no command can be read at `s`, or the reading taken there exists.
proof fn lemma_best_exists(t: Seq<char>, s: int)
    requires
        0 <= s,
    ensures
        has_match_at(t, s) ==> exists|a: int, b: int| best_at(t, s, a, b),
{
    if has_match_at(t, s) {
        let (a0, b0) = choose|a: int, b: int| candidate(t, s, a, b);
        let l = line_end(t, s + 5);
        lemma_line_end(t, s + 5);
        lemma_closer_in_line(t, s, l, b0);
        let close = last_closer(t, s + 8, l - 4);
        lemma_last_closer(t, s + 8, l - 4);
        let split = last_space(t, s + 6, close - 2);
        lemma_last_space(t, s + 6, close - 2);
        assert(line_free(t, s + 5, close));
        assert(candidate(t, s, split, close));
        assert forall|a: int, b: int| #[trigger] candidate(t, s, a, b) implies a < split || (a
            == split && b <= close) by {
            lemma_closer_in_line(t, s, l, b);
        }
        assert(best_at(t, s, split, close));
    }
}

/// The first command at or after `p`, if there is one.
proof fn lemma_first_exists(t: Seq<char>, p: int)
    requires
        0 <= p,
    ensures
        no_match_from(t, p) || exists|m: (int, int, int)| #[trigger] first_match(t, p, m),
    decreases t.len() - p,
{
    if p >= t.len() {
        assert forall|s: int| p <= s implies !#[trigger] has_match_at(t, s) by {
            assert forall|a: int, b: int| !candidate(t, s, a, b) by {}
        }
    } else {
        lemma_best_exists(t, p);
        if has_match_at(t, p) {
            let (a, b) = choose|a: int, b: int| best_at(t, p, a, b);
            assert(first_match(t, p, (p, a, b)));
        } else {
            lemma_first_exists(t, p + 1);
            if !no_match_from(t, p + 1) {
                let m = choose|m: (int, int, int)| #[trigger] first_match(t, p + 1, m);
                assert(first_match(t, p, m));
            }
        }
    }
}

proof fn lemma_list_exists(t: Seq<char>, ms: Seq<(int, int, int)>) -> (r: Seq<(int, int, int)>)
    requires
        is_chain(t, 0, ms),
        0 <= chain_end(0, ms) <= t.len() + 4,
    ensures
        is_match_list(t, 0, r),
    decreases t.len() + 4 - chain_end(0, ms),
{
    let p = chain_end(0, ms);
    lemma_first_exists(t, p);
    if no_match_from(t, p) {
        ms
    } else {
        let m = choose|m: (int, int, int)| #[trigger] first_match(t, p, m);
        assert(candidate(t, m.0, m.1, m.2));
        let next = ms.push(m);
        assert(next.drop_last() =~= ms);
        lemma_list_exists(t, next)
    }
}

/// Every text has its list of commands, and `cmd_matches` is that list.
pub proof fn lemma_cmd_matches_complete(t: Seq<char>)
    ensures
        is_match_list(t, 0, cmd_matches(t)),
{
    let ms = lemma_list_exists(t, Seq::empty());
    assert(is_match_list(t, 0, ms));
}

// ---------------------------------------------------------------------------------
// Search
fn is_space(c: char) -> (r: bool)
    ensures
        r == is_cmd_space(c),
{
    c == '\t' || c == '\u{0b}' || c == '\u{0c}' || c == ' ' || c == '\u{85}' || c == '\u{a0}' || c
        == '\u{1680}' || ('\u{2000}' <= c && c <= '\u{200a}') || c == '\u{2028}' || c == '\u{2029}'
        || c == '\u{202f}' || c == '\u{205f}' || c == '\u{3000}'
}

fn is_opener(v: &Vec<char>, s: usize) -> (r: bool)
    ensures
        r == opener_at(v@, s as int),
{
    s <= v.len() && v.len() - s >= 5 && v[s] == '<' && v[s + 1] == '!' && v[s + 2] == '-' && v[s
        + 3] == '-' && v[s + 4] == '@'
}

fn is_closer(v: &Vec<char>, k: usize) -> (r: bool)
    ensures
        r == closer_at(v@, k as int),
{
    k <= v.len() && v.len() - k >= 4 && is_space(v[k]) && v[k + 1] == '-' && v[k + 2] == '-' && v[k
        + 3] == '>'
}

/// The reading taken at `s`, if a command can be read there.
fn match_at(v: &Vec<char>, s: usize) -> (r: Option<(usize, usize)>)
    ensures
        match r {
            None => !has_match_at(v@, s as int),
            Some((a, b)) => best_at(v@, s as int, a as int, b as int),
        },
{
    let ghost t = v@;
    if !is_opener(v, s) {
        assert forall|a: int, b: int| !candidate(t, s as int, a, b) by {}
        return None;
    }
    // the end of the line
    let n = v.len();
    let mut l: usize = s + 5;
    while l < n && v[l] != '\n'
        invariant
            s + 5 <= l <= n,
            n == t.len(),
            t == v@,
            line_free(t, s + 5, l as int),
        decreases n - l,
    {
        l = l + 1;
    }
    // the last closer on the line
    if l - s < 12 {
        assert forall|a: int, b: int| !candidate(t, s as int, a, b) by {
            if candidate(t, s as int, a, b) {
                lemma_closer_in_line(t, s as int, l as int, b);
            }
        }
        return None;
    }
    let mut k: usize = l - 4;
    while k >= s + 8 && !is_closer(v, k)
        invariant
            s + 7 <= k <= l - 4,
            l <= n == t.len(),
            t == v@,
            forall|j: int| k < j <= l - 4 ==> !closer_at(t, j),
        decreases k,
    {
        k = k - 1;
    }
    if k < s + 8 {
        assert forall|a: int, b: int| !candidate(t, s as int, a, b) by {
            if candidate(t, s as int, a, b) {
                lemma_closer_in_line(t, s as int, l as int, b);
            }
        }
        return None;
    }
    let close = k;
    // the last blank before the argument
    let mut j: usize = close - 2;
    while j >= s + 6 && !is_space(v[j])
        invariant
            s + 5 <= j <= close - 2,
            close < n == t.len(),
            t == v@,
            forall|i: int| j < i <= close - 2 ==> !is_cmd_space(#[trigger] t[i]),
        decreases j,
    {
        j = j - 1;
    }
    if j < s + 6 {
        assert forall|a: int, b: int| !candidate(t, s as int, a, b) by {
            if candidate(t, s as int, a, b) {
                lemma_closer_in_line(t, s as int, l as int, b);
            }
        }
        return None;
    }
    proof {
        assert(line_free(t, s + 5, close as int));
        assert(candidate(t, s as int, j as int, close as int));
        assert forall|a: int, b: int| #[trigger] candidate(t, s as int, a, b) implies a < j || (a
            == j && b <= close) by {
            lemma_closer_in_line(t, s as int, l as int, b);
        }
    }
    Some((j, close))
}

/// A closer that belongs to a command at `s` lies within the line that starts there.
proof fn lemma_closer_in_line(t: Seq<char>, s: int, l: int, b: int)
    requires
        s + 5 <= l <= t.len(),
        line_free(t, s + 5, l),
        l == t.len() || t[l] == '\n',
        closer_at(t, b),
        s + 5 <= b,
        line_free(t, s + 5, b),
    ensures
        b + 4 <= l,
{
    if b + 4 > l {
        if l < t.len() {
            assert(t[l] == '\n');
            if l < b {
                assert(t[l] != '\n');
            } else if l == b {
                assert(is_cmd_space(t[b]));
            }
        }
    }
}

/// The first command at or after `p`.
fn find_from(v: &Vec<char>, p: usize) -> (r: Option<(usize, usize, usize)>)
    ensures
        match r {
            None => no_match_from(v@, p as int),
            Some(m) => first_match(v@, p as int, (m.0 as int, m.1 as int, m.2 as int)),
        },
{
    let n = v.len();
    let mut s = p;
    while s < n
        invariant
            p <= s,
            n == v@.len(),
            forall|q: int| p <= q < s ==> !#[trigger] has_match_at(v@, q),
        decreases n - s,
    {
        match match_at(v, s) {
            Some((a, b)) => {
                return Some((s, a, b));
            },
            None => {},
        }
        s = s + 1;
    }
    assert forall|q: int| p <= q implies !#[trigger] has_match_at(v@, q) by {
        if q >= s {
            assert forall|a: int, b: int| !candidate(v@, q, a, b) by {}
        }
    }
    None
}

/// All commands of `t`, in order, as (start, blank after the command, closing blank).
pub fn find_commands(t: &Vec<char>) -> (r: Vec<(usize, usize, usize)>)
    ensures
        match_views(r@) == cmd_matches(t@),
        is_match_list(t@, 0, match_views(r@)),
{
    let mut ms: Vec<(usize, usize, usize)> = Vec::new();
    let mut p: usize = 0;
    assert(match_views(ms@) =~= Seq::<(int, int, int)>::empty());
    loop
        invariant
            is_chain(t@, 0, match_views(ms@)),
            chain_end(0, match_views(ms@)) == p,
            p <= t@.len() + 4,
        decreases t@.len() + 4 - p,
    {
        match find_from(t, p) {
            None => {
                proof {
                    lemma_match_list_unique(t@, 0, match_views(ms@), cmd_matches(t@));
                }
                return ms;
            },
            Some(m) => {
                proof {
                    assert(candidate(t@, m.0 as int, m.1 as int, m.2 as int));
                    assert(m.2 + 4 <= t.len());
                    assert(match_views(ms@.push(m)) =~= match_views(ms@).push(
                        (m.0 as int, m.1 as int, m.2 as int),
                    ));
                    assert(match_views(ms@.push(m)).drop_last() =~= match_views(ms@));
                }
                ms.push(m);
                p = m.2 + 4;
            },
        }
    }
}

} // verus!
