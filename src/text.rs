//! Character-sequence primitives shared by the parsers and rewriters.

use vstd::prelude::*;
use vstd::std_specs::iter::IteratorSpec;

verus! {

/// The characters of `s`, in order.
pub(crate) fn chars_of(s: &str) -> (r: Vec<char>)
    ensures
        r@ == s@,
{
    broadcast use vstd::string::axiom_spec_iter, vstd::string::next_postcondition;

    let mut it = s.chars();
    let mut v: Vec<char> = Vec::new();
    loop
        invariant
            v@ + it.remaining() == s@,
            it.obeys_prophetic_iter_laws(),
            it.decrease() is Some,
        ensures
            v@ == s@,
        decreases it.decrease()->0,
    {
        let ghost before = it.remaining();
        match it.next() {
            Some(c) => {
                assert(before.len() > 0);
                v.push(c);
                assert(v@ + it.remaining() =~= s@);
            },
            None => {
                assert(v@ =~= s@);
                break;
            },
        }
    }
    v
}

/// Relies on `String::from_iter` over chars: the string made of the
/// characters of `v`, in order.
#[verifier::external_body]
pub(crate) fn string_of(v: &[char]) -> (r: String)
    ensures
        r@ == v@,
{
    String::from_iter(v.iter())
}

/// A fresh vector holding the characters of `s`.
pub fn copy_chars(s: &[char]) -> (r: Vec<char>)
    ensures
        r@ == s@,
{
    let mut r: Vec<char> = Vec::new();
    append_chars(&mut r, s);
    assert(r@ =~= s@);
    r
}

/// Appends the characters of `s` to `out`.
pub fn append_chars(out: &mut Vec<char>, s: &[char])
    ensures
        final(out)@ == old(out)@ + s@,
{
    let ghost before = out@;
    let mut k: usize = 0;
    while k < s.len()
        invariant
            k <= s@.len(),
            out@ == before + s@.take(k as int),
        decreases s.len() - k,
    {
        out.push(s[k]);
        k = k + 1;
        assert(out@ =~= before + s@.take(k as int));
    }
    assert(s@.take(s@.len() as int) =~= s@);
}

/// Whether `a` and `b` hold the same characters.
pub fn chars_eq(a: &[char], b: &[char]) -> (r: bool)
    ensures
        r == (a@ == b@),
{
    if a.len() != b.len() {
        return false;
    }
    let r = matches_at(a, 0, b);
    proof {
        assert(a@.subrange(0, b@.len() as int) =~= a@);
    }
    r
}

/// `p` occurs in `s` starting at index `i`.
pub open spec fn occurs_at(s: Seq<char>, i: int, p: Seq<char>) -> bool {
    0 <= i && i + p.len() <= s.len() && s.subrange(i, i + p.len()) == p
}

/// `p` occurs somewhere in `s`.
pub open spec fn contains(s: Seq<char>, p: Seq<char>) -> bool {
    exists|i: int| #[trigger] occurs_at(s, i, p)
}

/// `s` begins with `p`.
pub open spec fn starts_with(s: Seq<char>, p: Seq<char>) -> bool {
    occurs_at(s, 0, p)
}

/// Every non-overlapping occurrence of `pat`, found left to right, replaced by `rep`.
pub open spec fn replace_all(s: Seq<char>, pat: Seq<char>, rep: Seq<char>) -> Seq<char>
    decreases s.len(),
{
    if s.len() == 0 || pat.len() == 0 {
        s
    } else if starts_with(s, pat) {
        rep + replace_all(s.skip(pat.len() as int), pat, rep)
    } else {
        seq![s[0]] + replace_all(s.skip(1), pat, rep)
    }
}

/// Whether `p` occurs in `s` at index `i`.
pub fn matches_at(s: &[char], i: usize, p: &[char]) -> (r: bool)
    ensures
        r == occurs_at(s@, i as int, p@),
{
    if i > s.len() || p.len() > s.len() - i {
        return false;
    }
    let mut k: usize = 0;
    while k < p.len()
        invariant
            i + p@.len() <= s@.len(),
            i + p.len() <= s.len(),
            k <= p@.len(),
            forall|j: int| 0 <= j < k ==> s@[i + j] == p@[j],
        decreases p.len() - k,
    {
        if s[i + k] != p[k] {
            assert(s@.subrange(i as int, i + p@.len())[k as int] != p@[k as int]);
            return false;
        }
        k = k + 1;
    }
    assert(s@.subrange(i as int, i + p@.len()) =~= p@);
    true
}

/// Whether `p` occurs anywhere in `s`.
pub fn contains_chars(s: &[char], p: &[char]) -> (r: bool)
    ensures
        r == contains(s@, p@),
{
    let mut i: usize = 0;
    while i < s.len()
        invariant
            i <= s@.len(),
            forall|j: int| 0 <= j < i ==> !occurs_at(s@, j, p@),
        decreases s.len() - i,
    {
        if matches_at(s, i, p) {
            return true;
        }
        i = i + 1;
    }
    if matches_at(s, i, p) {
        return true;
    }
    assert forall|j: int| !occurs_at(s@, j, p@) by {
        if 0 <= j <= i {
        }
    }
    false
}

proof fn lemma_skip_skip(s: Seq<char>, a: int, b: int)
    requires
        0 <= a,
        0 <= b,
        a + b <= s.len(),
    ensures
        s.skip(a).skip(b) == s.skip(a + b),
{
    assert(s.skip(a).skip(b) =~= s.skip(a + b));
}

proof fn lemma_occurs_skip(s: Seq<char>, i: int, p: Seq<char>)
    requires
        0 <= i <= s.len(),
    ensures
        occurs_at(s, i, p) == starts_with(s.skip(i), p),
{
    if i + p.len() <= s.len() {
        assert(s.subrange(i, i + p.len()) =~= s.skip(i).subrange(0, p.len() as int));
    }
}

/// `s` with every occurrence of `pat` replaced by `rep`, left to right.
pub fn replace_chars(s: &[char], pat: &[char], rep: &[char]) -> (r: Vec<char>)
    ensures
        r@ == replace_all(s@, pat@, rep@),
{
    let mut out: Vec<char> = Vec::new();
    if pat.len() == 0 {
        let mut k: usize = 0;
        while k < s.len()
            invariant
                k <= s@.len(),
                out@ == s@.take(k as int),
            decreases s.len() - k,
        {
            out.push(s[k]);
            k = k + 1;
            assert(out@ =~= s@.take(k as int));
        }
        assert(s@.take(s@.len() as int) =~= s@);
        return out;
    }
    let mut i: usize = 0;
    assert(s@.skip(0) =~= s@);
    while i < s.len()
        invariant
            pat@.len() > 0,
            i <= s@.len(),
            replace_all(s@, pat@, rep@) == out@ + replace_all(s@.skip(i as int), pat@, rep@),
        decreases s.len() - i,
    {
        let ghost t = s@.skip(i as int);
        proof {
            lemma_occurs_skip(s@, i as int, pat@);
        }
        if matches_at(s, i, pat) {
            let mut k: usize = 0;
            let ghost before = out@;
            while k < rep.len()
                invariant
                    k <= rep@.len(),
                    out@ == before + rep@.take(k as int),
                decreases rep.len() - k,
            {
                out.push(rep[k]);
                k = k + 1;
                assert(out@ =~= before + rep@.take(k as int));
            }
            assert(rep@.take(rep@.len() as int) =~= rep@);
            proof {
                lemma_skip_skip(s@, i as int, pat@.len() as int);
                assert(before + (rep@ + replace_all(t.skip(pat@.len() as int), pat@, rep@))
                    =~= out@ + replace_all(t.skip(pat@.len() as int), pat@, rep@));
            }
            i = i + pat.len();
        } else {
            let ghost before = out@;
            out.push(s[i]);
            proof {
                lemma_skip_skip(s@, i as int, 1);
                assert(t[0] == s@[i as int]);
                assert(before + (seq![t[0]] + replace_all(t.skip(1), pat@, rep@))
                    =~= out@ + replace_all(t.skip(1), pat@, rep@));
            }
            i = i + 1;
        }
    }
    assert(s@.skip(i as int).len() == 0);
    assert(out@ + replace_all(s@.skip(i as int), pat@, rep@) =~= out@);
    out
}

/// When `pat` does not occur in `s`, replacing it leaves `s` unchanged.
pub proof fn lemma_replace_absent(s: Seq<char>, pat: Seq<char>, rep: Seq<char>)
    requires
        !contains(s, pat),
    ensures
        replace_all(s, pat, rep) == s,
    decreases s.len(),
{
    if s.len() > 0 && pat.len() > 0 {
        assert(!occurs_at(s, 0, pat));
        assert forall|j: int| !occurs_at(s.skip(1), j, pat) by {
            if occurs_at(s.skip(1), j, pat) {
                assert(s.subrange(j + 1, j + 1 + pat.len()) =~= s.skip(1).subrange(j, j + pat.len()));
                assert(occurs_at(s, j + 1, pat));
            }
        }
        lemma_replace_absent(s.skip(1), pat, rep);
        assert(seq![s[0]] + s.skip(1) =~= s);
    }
}

/// The pieces of `s` between the non-overlapping occurrences of `sep`, found
/// left to right; there is always at least one piece.
pub open spec fn split_on(s: Seq<char>, sep: Seq<char>) -> Seq<Seq<char>>
    decreases s.len(),
{
    if s.len() == 0 || sep.len() == 0 {
        seq![s]
    } else if starts_with(s, sep) {
        seq![Seq::<char>::empty()] + split_on(s.skip(sep.len() as int), sep)
    } else {
        let rest = split_on(s.skip(1), sep);
        rest.update(0, seq![s[0]] + rest[0])
    }
}

pub proof fn lemma_split_nonempty(s: Seq<char>, sep: Seq<char>)
    ensures
        split_on(s, sep).len() >= 1,
    decreases s.len(),
{
    if s.len() == 0 || sep.len() == 0 {
    } else if starts_with(s, sep) {
        lemma_split_nonempty(s.skip(sep.len() as int), sep);
    } else {
        lemma_split_nonempty(s.skip(1), sep);
    }
}

/// The character sequences that a vector of character vectors holds.
pub open spec fn views(v: Seq<Vec<char>>) -> Seq<Seq<char>> {
    v.map_values(|x: Vec<char>| x@)
}

/// The pieces already cut, the piece being built, and the pieces of what is left.
spec fn glue(done: Seq<Seq<char>>, cur: Seq<char>, rest: Seq<Seq<char>>) -> Seq<Seq<char>> {
    done + seq![cur + rest[0]] + rest.skip(1)
}

/// The pieces of `s` between the occurrences of `sep`, as `str::split` cuts them.
pub fn split_chars(s: &[char], sep: &[char]) -> (r: Vec<Vec<char>>)
    ensures
        views(r@) == split_on(s@, sep@),
{
    let mut done: Vec<Vec<char>> = Vec::new();
    let mut cur: Vec<char> = Vec::new();
    if sep.len() == 0 {
        let mut k: usize = 0;
        while k < s.len()
            invariant
                k <= s@.len(),
                cur@ == s@.take(k as int),
            decreases s.len() - k,
        {
            cur.push(s[k]);
            k = k + 1;
            assert(cur@ =~= s@.take(k as int));
        }
        assert(s@.take(s@.len() as int) =~= s@);
        done.push(cur);
        assert(views(done@) =~= seq![s@]);
        return done;
    }
    let mut i: usize = 0;
    proof {
        assert(s@.skip(0) =~= s@);
        lemma_split_nonempty(s@, sep@);
        assert(glue(seq![], seq![], split_on(s@, sep@)) =~= split_on(s@, sep@));
    }
    while i < s.len()
        invariant
            sep@.len() > 0,
            i <= s@.len(),
            split_on(s@, sep@) == glue(views(done@), cur@, split_on(s@.skip(i as int), sep@)),
        decreases s.len() - i,
    {
        let ghost t = s@.skip(i as int);
        let ghost d0 = views(done@);
        let ghost c0 = cur@;
        proof {
            lemma_occurs_skip(s@, i as int, sep@);
        }
        if matches_at(s, i, sep) {
            let ghost rest = split_on(t.skip(sep@.len() as int), sep@);
            proof {
                lemma_skip_skip(s@, i as int, sep@.len() as int);
                lemma_split_nonempty(t.skip(sep@.len() as int), sep@);
            }
            let piece = cur;
            done.push(piece);
            cur = Vec::new();
            proof {
                assert(views(done@) =~= d0.push(c0));
                let whole = seq![Seq::<char>::empty()] + rest;
                assert(glue(d0, c0, whole) =~= glue(views(done@), cur@, rest));
            }
            i = i + sep.len();
        } else {
            let ghost rest = split_on(t.skip(1), sep@);
            proof {
                lemma_skip_skip(s@, i as int, 1);
                lemma_split_nonempty(t.skip(1), sep@);
                assert(t[0] == s@[i as int]);
            }
            cur.push(s[i]);
            proof {
                let whole = rest.update(0, seq![t[0]] + rest[0]);
                assert(c0 + (seq![t[0]] + rest[0]) =~= cur@ + rest[0]);
                assert(whole.skip(1) =~= rest.skip(1));
                assert(glue(d0, c0, whole) =~= glue(d0, cur@, rest));
            }
            i = i + 1;
        }
    }
    proof {
        assert(s@.skip(i as int) =~= Seq::<char>::empty());
        let ghost d0 = views(done@);
        assert(cur@ + Seq::<char>::empty() =~= cur@);
        assert(glue(d0, cur@, seq![Seq::<char>::empty()]) =~= d0.push(cur@));
    }
    let ghost d1 = views(done@);
    let ghost c1 = cur@;
    done.push(cur);
    proof {
        assert(views(done@) =~= d1.push(c1));
    }
    done
}

/// The characters that `char::is_whitespace` accepts (Unicode `White_Space`).
pub open spec fn is_space(c: char) -> bool {
    ('\u{9}' <= c && c <= '\u{d}') || c == ' ' || c == '\u{85}' || c == '\u{a0}'
        || c == '\u{1680}' || ('\u{2000}' <= c && c <= '\u{200a}') || c == '\u{2028}'
        || c == '\u{2029}' || c == '\u{202f}' || c == '\u{205f}' || c == '\u{3000}'
}

fn space(c: char) -> (r: bool)
    ensures
        r == is_space(c),
{
    ('\u{9}' <= c && c <= '\u{d}') || c == ' ' || c == '\u{85}' || c == '\u{a0}'
        || c == '\u{1680}' || ('\u{2000}' <= c && c <= '\u{200a}') || c == '\u{2028}'
        || c == '\u{2029}' || c == '\u{202f}' || c == '\u{205f}' || c == '\u{3000}'
}

/// `s` without its leading white space.
pub open spec fn trim_start(s: Seq<char>) -> Seq<char>
    decreases s.len(),
{
    if s.len() > 0 && is_space(s[0]) {
        trim_start(s.skip(1))
    } else {
        s
    }
}

/// `s` without its trailing white space.
pub open spec fn trim_end(s: Seq<char>) -> Seq<char>
    decreases s.len(),
{
    if s.len() > 0 && is_space(s.last()) {
        trim_end(s.drop_last())
    } else {
        s
    }
}

/// `s` without leading and trailing white space, as `str::trim` gives it.
pub open spec fn trim(s: Seq<char>) -> Seq<char> {
    trim_end(trim_start(s))
}

/// `s` without leading and trailing white space.
pub fn trim_chars(s: &[char]) -> (r: Vec<char>)
    ensures
        r@ == trim(s@),
{
    let mut a: usize = 0;
    assert(s@.skip(0) =~= s@);
    while a < s.len() && space(s[a])
        invariant
            a <= s@.len(),
            trim_start(s@) == trim_start(s@.skip(a as int)),
        decreases s.len() - a,
    {
        proof {
            lemma_skip_skip(s@, a as int, 1);
        }
        a = a + 1;
    }
    let ghost x = s@.skip(a as int);
    let mut b: usize = s.len();
    assert(s@.subrange(a as int, b as int) =~= x);
    while b > a && space(s[b - 1])
        invariant
            a <= b <= s@.len(),
            x == s@.skip(a as int),
            trim_end(x) == trim_end(s@.subrange(a as int, b as int)),
        decreases b,
    {
        assert(s@.subrange(a as int, b as int).drop_last() =~= s@.subrange(a as int, b - 1));
        b = b - 1;
    }
    let mut r: Vec<char> = Vec::new();
    let mut k: usize = a;
    while k < b
        invariant
            a <= k <= b <= s@.len(),
            r@ == s@.subrange(a as int, k as int),
        decreases b - k,
    {
        r.push(s[k]);
        k = k + 1;
        assert(r@ =~= s@.subrange(a as int, k as int));
    }
    r
}

/// The value of a string of decimal digits.
pub open spec fn digits_value(d: Seq<char>) -> nat
    decreases d.len(),
{
    if d.len() == 0 {
        0
    } else {
        digits_value(d.drop_last()) * 10 + ((d.last() as u32 - '0' as u32) as nat)
    }
}

pub open spec fn is_digit(c: char) -> bool {
    '0' <= c && c <= '9'
}

/// `s` without one leading `+`, if it has one.
pub open spec fn unsigned_part(s: Seq<char>) -> Seq<char> {
    if s.len() > 0 && s[0] == '+' {
        s.skip(1)
    } else {
        s
    }
}

pub open spec fn all_digits(d: Seq<char>) -> bool {
    forall|k: int| 0 <= k < d.len() ==> is_digit(#[trigger] d[k])
}

/// What `u64::from_str` gives: an optional `+`, then one or more decimal
/// digits whose value fits in a `u64`.
pub open spec fn parse_u64_spec(s: Seq<char>) -> Option<u64> {
    let d = unsigned_part(s);
    if d.len() > 0 && all_digits(d) && digits_value(d) <= u64::MAX {
        Some(digits_value(d) as u64)
    } else {
        None
    }
}

proof fn lemma_digits_mono(d: Seq<char>, i: int)
    requires
        0 <= i <= d.len(),
        forall|k: int| 0 <= k < d.len() ==> is_digit(#[trigger] d[k]),
    ensures
        digits_value(d.take(i)) <= digits_value(d),
    decreases d.len() - i,
{
    if i < d.len() {
        lemma_digits_mono(d, i + 1);
        assert(d.take(i + 1).drop_last() =~= d.take(i));
    } else {
        assert(d.take(i) =~= d);
    }
}

/// Parses a decimal `u64` as `u64::from_str` does.
pub fn parse_u64(s: &[char]) -> (r: Option<u64>)
    ensures
        r == parse_u64_spec(s@),
{
    let start: usize = if s.len() > 0 && s[0] == '+' { 1 } else { 0 };
    let ghost d = unsigned_part(s@);
    assert(d =~= s@.skip(start as int));
    if start >= s.len() {
        return None;
    }
    let mut v: u64 = 0;
    let mut i: usize = start;
    assert(d.take(0) =~= Seq::<char>::empty());
    while i < s.len()
        invariant
            start <= i <= s@.len(),
            d == s@.skip(start as int),
            d == unsigned_part(s@),
            forall|k: int| 0 <= k < i - start ==> is_digit(#[trigger] d[k]),
            v as nat == digits_value(d.take(i - start)),
        decreases s.len() - i,
    {
        let c = s[i];
        assert(d[i - start] == c);
        if !('0' <= c && c <= '9') {
            assert(!is_digit(d[i - start]));
            assert(!all_digits(d));
            assert(parse_u64_spec(s@) == None::<u64>);
            return None;
        }
        let dig: u64 = (c as u32 - '0' as u32) as u64;
        assert(d.take(i - start + 1).drop_last() =~= d.take(i - start));
        assert(d.take(i - start + 1).last() == c);
        if v > (u64::MAX - dig) / 10 {
            proof {
                if all_digits(d) {
                    lemma_digits_mono(d, i - start + 1);
                    assert(digits_value(d.take(i - start + 1)) == v * 10 + dig) by (nonlinear_arith)
                        requires digits_value(d.take(i - start + 1)) == digits_value(d.take(i - start)) * 10 + dig,
                            v == digits_value(d.take(i - start));
                    assert(v * 10 + dig > u64::MAX) by (nonlinear_arith)
                        requires v > (u64::MAX - dig) / 10, dig <= 9;
                    assert(digits_value(d) > u64::MAX);
                }
                assert(parse_u64_spec(s@) == None::<u64>);
            }
            return None;
        }
        assert(v * 10 + dig <= u64::MAX) by (nonlinear_arith)
            requires v <= (u64::MAX - dig) / 10, dig <= 9;
        v = v * 10 + dig;
        i = i + 1;
    }
    assert(d.take(i - start) =~= d);
    Some(v)
}

/// The decimal digits of `n`, most significant first.
pub open spec fn decimal(n: nat) -> Seq<char>
    decreases n,
{
    if n < 10 {
        seq![(('0' as u32) + n) as char]
    } else {
        decimal(n / 10) + seq![(('0' as u32) + (n % 10)) as char]
    }
}

/// The decimal form of `n`, as `format!("{}", n)` writes it.
pub fn decimal_chars(n: u64) -> (r: Vec<char>)
    ensures
        r@ == decimal(n as nat),
    decreases n,
{
    let last: char = char_of_digit((n % 10) as u32);
    if n < 10 {
        let mut r: Vec<char> = Vec::new();
        r.push(last);
        assert(r@ =~= decimal(n as nat));
        r
    } else {
        let mut r = decimal_chars(n / 10);
        r.push(last);
        assert(r@ =~= decimal(n as nat));
        r
    }
}

fn char_of_digit(d: u32) -> (c: char)
    requires
        d < 10,
    ensures
        c == (('0' as u32) + d) as char,
{
    if d == 0 { '0' } else if d == 1 { '1' } else if d == 2 { '2' } else if d == 3 { '3' }
    else if d == 4 { '4' } else if d == 5 { '5' } else if d == 6 { '6' } else if d == 7 { '7' }
    else if d == 8 { '8' } else { '9' }
}

} // verus!
