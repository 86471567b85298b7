use vstd::prelude::*;

verus! {

broadcast use vstd::string::group_string_axioms;

/// The characters of `s`, in order, in a vector that can be indexed in constant time.
pub fn chars_of(s: &str) -> (v: Vec<char>)
    ensures
        v@ == s@,
{
    let mut v: Vec<char> = Vec::new();
    for c in it: s.chars()
        invariant
            v@ == it.seq().take(it.index() as int),
            it.seq() == s@,
    {
        v.push(c);
    }
    v
}

/// The index of the last occurrence of `c` in `s`, or -1 when `c` does not occur.
pub open spec fn last_index_of(s: Seq<char>, c: char) -> int
    decreases s.len(),
{
    if s.len() == 0 {
        -1
    } else if s.last() == c {
        s.len() - 1
    } else {
        last_index_of(s.drop_last(), c)
    }
}

pub proof fn lemma_last_index_of(s: Seq<char>, c: char)
    ensures
        -1 <= last_index_of(s, c) < s.len(),
        last_index_of(s, c) >= 0 ==> s[last_index_of(s, c)] == c,
        forall|j: int| last_index_of(s, c) < j < s.len() ==> s[j] != c,
    decreases s.len(),
{
    if s.len() > 0 && s.last() != c {
        lemma_last_index_of(s.drop_last(), c);
        assert(forall|j: int| 0 <= j < s.len() - 1 ==> s.drop_last()[j] == s[j]);
    }
}

/// Appends `c` to `s` (`String::push`).
#[verifier::external_body]
pub(crate) fn push_char(s: &mut String, c: char)
    ensures
        final(s)@ == old(s)@.push(c),
{
    s.push(c)
}

/// The lower-case hexadecimal digit for `d < 16`.
pub open spec fn hex_digit(d: nat) -> char {
    if d < 10 {
        ((d + 48) as u32) as char
    } else {
        ((d + 87) as u32) as char
    }
}

/// `n` written in lower-case hexadecimal without leading zeros, as `format!("{:x}", n)`.
#[verifier::opaque]
pub open spec fn spec_lower_hex(n: nat) -> Seq<char>
    decreases n,
{
    if n < 16 {
        seq![hex_digit(n)]
    } else {
        spec_lower_hex(n / 16).push(hex_digit(n % 16))
    }
}

/// One step of the digit expansion.
pub proof fn lemma_lower_hex_step(m: nat)
    ensures
        m < 16 ==> spec_lower_hex(m) == seq![hex_digit(m)],
        m >= 16 ==> spec_lower_hex(m) == spec_lower_hex(m / 16).push(hex_digit(m % 16)),
{
    reveal(spec_lower_hex);
}

/// The lower-case hexadecimal digits, in order of value, as `{:x}` writes them.
pub open spec fn hex_alphabet() -> Seq<char> {
    seq!['0', '1', '2', '3', '4', '5', '6', '7', '8', '9', 'a', 'b', 'c', 'd', 'e', 'f']
}

/// The value of a lower-case hexadecimal digit: its place in `hex_alphabet`.
pub open spec fn hex_value(c: char) -> int {
    choose|d: int| 0 <= d < 16 && hex_alphabet()[d] == c
}

/// The number that a string of lower-case hexadecimal digits spells, most significant
/// digit first.
pub open spec fn hex_number(s: Seq<char>) -> int
    decreases s.len(),
{
    if s.len() == 0 {
        0
    } else {
        16 * hex_number(s.drop_last()) + hex_value(s.last())
    }
}

/// Each digit value is written as its place in the alphabet `0123456789abcdef`.
pub proof fn lemma_hex_digit_alphabet(d: nat)
    requires
        d < 16,
    ensures
        hex_digit(d) == hex_alphabet()[d as int],
        hex_value(hex_digit(d)) == d,
{
    assert(hex_digit(d) == hex_alphabet()[d as int]) by {
        if d == 0 { assert(hex_digit(0) == '0'); }
        else if d == 1 { assert(hex_digit(1) == '1'); }
        else if d == 2 { assert(hex_digit(2) == '2'); }
        else if d == 3 { assert(hex_digit(3) == '3'); }
        else if d == 4 { assert(hex_digit(4) == '4'); }
        else if d == 5 { assert(hex_digit(5) == '5'); }
        else if d == 6 { assert(hex_digit(6) == '6'); }
        else if d == 7 { assert(hex_digit(7) == '7'); }
        else if d == 8 { assert(hex_digit(8) == '8'); }
        else if d == 9 { assert(hex_digit(9) == '9'); }
        else if d == 10 { assert(hex_digit(10) == 'a'); }
        else if d == 11 { assert(hex_digit(11) == 'b'); }
        else if d == 12 { assert(hex_digit(12) == 'c'); }
        else if d == 13 { assert(hex_digit(13) == 'd'); }
        else if d == 14 { assert(hex_digit(14) == 'e'); }
        else { assert(hex_digit(15) == 'f'); }
    }
    let c = hex_digit(d);
    assert(0 <= d < 16 && hex_alphabet()[d as int] == c);
    let e = hex_value(c);
    assert(0 <= e < 16 && hex_alphabet()[e] == c);
    assert forall|i: int, j: int| 0 <= i < 16 && 0 <= j < 16 && i != j implies hex_alphabet()[i]
        != hex_alphabet()[j] by {
        assert(hex_alphabet()[i] as u32 != hex_alphabet()[j] as u32);
    }
}

/// `spec_lower_hex(n)` is `n` in base 16: it is made of digits of `hex_alphabet`, it
/// reads back as `n`, and it starts with `0` only for `n == 0`.
pub proof fn lemma_lower_hex_reads_back(n: nat)
    ensures
        spec_lower_hex(n).len() > 0,
        forall|i: int| 0 <= i < spec_lower_hex(n).len() ==> hex_alphabet().contains(#[trigger] spec_lower_hex(n)[i]),
        hex_number(spec_lower_hex(n)) == n,
        spec_lower_hex(n)[0] == '0' ==> n == 0,
    decreases n,
{
    lemma_lower_hex_step(n);
    if n < 16 {
        lemma_hex_digit_alphabet(n);
        let s = spec_lower_hex(n);
        assert(s.drop_last() =~= Seq::<char>::empty());
        assert(hex_number(s.drop_last()) == 0);
        assert(hex_number(s) == 16 * hex_number(s.drop_last()) + hex_value(s.last()));
        assert(hex_alphabet()[n as int] == s[0]);
        if s[0] == '0' {
            assert(hex_alphabet()[0] == '0');
            assert(hex_value(s[0]) == 0) by {
                lemma_hex_digit_alphabet(0);
            }
        }
    } else {
        let q = n / 16;
        let r = n % 16;
        lemma_lower_hex_reads_back(q);
        lemma_hex_digit_alphabet(r);
        let s = spec_lower_hex(n);
        let p = spec_lower_hex(q);
        assert(s == p.push(hex_digit(r)));
        assert(s.drop_last() =~= p);
        assert(s.last() == hex_digit(r));
        assert(n == 16 * q + r);
        assert(hex_number(s) == 16 * hex_number(p) + hex_value(hex_digit(r)));
        assert forall|i: int| 0 <= i < s.len() implies hex_alphabet().contains(#[trigger] s[i]) by {
            if i < p.len() {
                assert(s[i] == p[i]);
            } else {
                assert(s[i] == hex_alphabet()[r as int]);
            }
        }
        assert(s[0] == p[0]);
    }
}

fn digit_char(d: u32) -> (c: char)
    requires
        d < 16,
    ensures
        c == hex_digit(d as nat),
{
    if d < 10 {
        proof {
            assert(((d + 48) as u32) == (d + 48));
        }
        char_from_u32(d + 48)
    } else {
        char_from_u32(d + 87)
    }
}

fn char_from_u32(v: u32) -> (c: char)
    requires
        v < 128,
    ensures
        c == v as char,
{
    (v as u8) as char
}

/// Appends `n` in lower-case hexadecimal to `r`.
fn push_lower_hex(r: &mut String, n: u32)
    ensures
        final(r)@ == old(r)@ + spec_lower_hex(n as nat),
    decreases n,
{
    proof {
        lemma_lower_hex_step(n as nat);
    }
    if n >= 16 {
        push_lower_hex(r, n / 16);
    }
    let c = digit_char(n % 16);
    push_char(r, c);
    proof {
        if n >= 16 {
            assert(old(r)@ + spec_lower_hex(n as nat) =~= old(r)@ + spec_lower_hex((n / 16) as nat)
                + seq![c]);
        }
    }
}

/// Formats `n` in lower-case hexadecimal.
pub fn lower_hex(n: u32) -> (r: String)
    ensures
        r@ == spec_lower_hex(n as nat),
{
    let mut r = String::new();
    push_lower_hex(&mut r, n);
    assert(r@ =~= spec_lower_hex(n as nat));
    r
}

/// `s` with every occurrence of `pat` replaced by `rep`, as `str::replace` does it:
/// occurrences are taken from left to right without overlapping; an empty pattern
/// matches before every character and at the end.
pub open spec fn spec_replace(s: Seq<char>, pat: Seq<char>, rep: Seq<char>) -> Seq<char>
    decreases s.len(),
{
    if pat.len() == 0 {
        if s.len() == 0 {
            rep
        } else {
            rep + seq![s[0]] + spec_replace(s.drop_first(), pat, rep)
        }
    } else if s.len() == 0 {
        s
    } else if pat.len() <= s.len() && s.subrange(0, pat.len() as int) == pat {
        rep + spec_replace(s.subrange(pat.len() as int, s.len() as int), pat, rep)
    } else {
        seq![s[0]] + spec_replace(s.drop_first(), pat, rep)
    }
}

/// `v[i..]` starts with `pat`.
fn starts_at(v: &Vec<char>, i: usize, pat: &Vec<char>) -> (r: bool)
    requires
        i <= v.len(),
    ensures
        r == (pat@.len() <= v@.len() - i && v@.subrange(i as int, i + pat@.len()) == pat@),
{
    if pat.len() > v.len() - i {
        return false;
    }
    let ghost w = v@.subrange(i as int, i + pat@.len());
    let mut k: usize = 0;
    while k < pat.len()
        invariant
            i + pat@.len() <= v@.len(),
            i + pat.len() <= v.len(),
            w == v@.subrange(i as int, i + pat@.len()),
            k <= pat@.len(),
            forall|j: int| 0 <= j < k ==> #[trigger] w[j] == pat@[j],
        decreases pat@.len() - k,
    {
        if v[i + k] != pat[k] {
            assert(w[k as int] != pat@[k as int]);
            return false;
        }
        k = k + 1;
    }
    assert(w =~= pat@);
    true
}

/// Replaces every occurrence of `pat` in `s` by `rep` (`str::replace`).
pub fn replace_all(s: &str, pat: &str, rep: &str) -> (r: String)
    ensures
        r@ == spec_replace(s@, pat@, rep@),
{
    let v = chars_of(s);
    let p = chars_of(pat);
    let n = v.len();
    let mut r = String::new();
    let mut i: usize = 0;
    assert(v@.subrange(0, n as int) =~= v@);
    while i < n
        invariant
            v@ == s@,
            p@ == pat@,
            n == v@.len(),
            i <= n,
            r@ + spec_replace(v@.subrange(i as int, n as int), pat@, rep@) == spec_replace(s@, pat@, rep@),
        decreases n - i,
    {
        let ghost rest = v@.subrange(i as int, n as int);
        let ghost before = r@;
        if p.len() == 0 {
            r.append(rep);
            push_char(&mut r, v[i]);
            proof {
                assert(rest.drop_first() =~= v@.subrange(i + 1, n as int));
                assert(rest[0] == v@[i as int]);
                assert(r@ + spec_replace(v@.subrange(i + 1, n as int), pat@, rep@) =~= before + (rep@
                    + seq![v@[i as int]] + spec_replace(rest.drop_first(), pat@, rep@)));
            }
            i = i + 1;
        } else if starts_at(&v, i, &p) {
            r.append(rep);
            proof {
                assert(rest.subrange(0, pat@.len() as int) =~= v@.subrange(i as int, i + pat@.len()));
                assert(rest.subrange(pat@.len() as int, rest.len() as int) =~= v@.subrange(
                    i + pat@.len(),
                    n as int,
                ));
                assert(r@ + spec_replace(v@.subrange(i + p@.len(), n as int), pat@, rep@) =~= before
                    + (rep@ + spec_replace(rest.subrange(pat@.len() as int, rest.len() as int), pat@, rep@)));
            }
            i = i + p.len();
        } else {
            push_char(&mut r, v[i]);
            proof {
                assert(rest.drop_first() =~= v@.subrange(i + 1, n as int));
                assert(rest[0] == v@[i as int]);
                if pat@.len() <= rest.len() {
                    assert(rest.subrange(0, pat@.len() as int) =~= v@.subrange(i as int, i + pat@.len()));
                }
                assert(r@ + spec_replace(v@.subrange(i + 1, n as int), pat@, rep@) =~= before + (seq![
                    v@[i as int],
                ] + spec_replace(rest.drop_first(), pat@, rep@)));
            }
            i = i + 1;
        }
    }
    if p.len() == 0 {
        r.append(rep);
        proof {
            assert(v@.subrange(i as int, n as int) =~= Seq::<char>::empty());
        }
    } else {
        proof {
            assert(v@.subrange(i as int, n as int) =~= Seq::<char>::empty());
            assert(r@ + Seq::<char>::empty() =~= r@);
        }
    }
    r
}

} // verus!
