use vstd::prelude::*;

verus! {

/// Offset of the first occurrence of `p` in `s`, or `s.len()` where `p` does not occur.
pub open spec fn find(s: Seq<char>, p: Seq<char>) -> nat
    decreases s.len(),
{
    if s.len() < p.len() {
        s.len()
    } else if s.len() == 0 || s.subrange(0, p.len() as int) == p {
        0
    } else {
        1 + find(s.drop_first(), p)
    }
}

/// The pieces of `s` between the non-overlapping occurrences of `p`, left to right.
pub open spec fn split(s: Seq<char>, p: Seq<char>) -> Seq<Seq<char>>
    decreases s.len(),
{
    let e = find(s, p);
    if p.len() > 0 && e + p.len() <= s.len() {
        seq![s.subrange(0, e as int)] + split(s.subrange((e + p.len()) as int, s.len() as int), p)
    } else {
        seq![s]
    }
}

/// `s` split once, at the first occurrence of `p`.
pub open spec fn split_once(s: Seq<char>, p: Seq<char>) -> Option<(Seq<char>, Seq<char>)> {
    let e = find(s, p);
    if e + p.len() <= s.len() {
        Some((s.subrange(0, e as int), s.subrange((e + p.len()) as int, s.len() as int)))
    } else {
        None
    }
}

pub open spec fn digit_char(d: nat) -> char {
    if d == 0 { '0' } else if d == 1 { '1' } else if d == 2 { '2' } else if d == 3 { '3' }
    else if d == 4 { '4' } else if d == 5 { '5' } else if d == 6 { '6' } else if d == 7 { '7' }
    else if d == 8 { '8' } else { '9' }
}

/// The decimal digits of `n`, most significant first, without leading zeros.
pub open spec fn decimal(n: nat) -> Seq<char>
    decreases n,
{
    if n < 10 {
        seq![digit_char(n)]
    } else {
        decimal(n / 10).push(digit_char(n % 10))
    }
}

pub open spec fn is_digit(c: char) -> bool {
    '0' <= c && c <= '9'
}

pub open spec fn all_digits(s: Seq<char>) -> bool {
    forall|i: int| 0 <= i < s.len() ==> is_digit(#[trigger] s[i])
}

/// The value of a string of decimal digits.
pub open spec fn digits_value(s: Seq<char>) -> nat
    decreases s.len(),
{
    if s.len() == 0 {
        0
    } else {
        digits_value(s.drop_last()) * 10 + ((s.last() as u32 - '0' as u32) as nat)
    }
}

/// The unsigned integer that `s` denotes: an optional `+` and at least one digit.
pub open spec fn unsigned_value(s: Seq<char>) -> Option<nat> {
    let d = if s.len() > 0 && s[0] == '+' { s.drop_first() } else { s };
    if d.len() > 0 && all_digits(d) {
        Some(digits_value(d))
    } else {
        None
    }
}

pub proof fn lemma_find_bound(s: Seq<char>, p: Seq<char>)
    ensures
        find(s, p) <= s.len(),
        p.len() > 0 && find(s, p) < s.len() ==> find(s, p) + p.len() <= s.len()
            && s.subrange(find(s, p) as int, (find(s, p) + p.len()) as int) == p,
    decreases s.len(),
{
    if s.len() >= p.len() && s.len() > 0 && s.subrange(0, p.len() as int) != p {
        lemma_find_bound(s.drop_first(), p);
        let e = find(s.drop_first(), p);
        if p.len() > 0 && e < s.drop_first().len() {
            assert(s.subrange((e + 1) as int, (e + 1 + p.len()) as int) =~= s.drop_first().subrange(
                e as int,
                (e + p.len()) as int,
            ));
        }
    }
}

/// Relies on `String::push`: the character is appended.
#[verifier::external_body]
pub(crate) fn push_char(s: &mut String, c: char)
    ensures
        final(s)@ == old(s)@.push(c),
{
    s.push(c)
}

/// The characters of `s`, in order.
pub fn chars_of(s: &str) -> (r: Vec<char>)
    ensures
        r@ == s@,
{
    let n = s.unicode_len();
    let mut r: Vec<char> = Vec::new();
    let mut i: usize = 0;
    while i < n
        invariant
            n == s@.len(),
            i <= n,
            r@ == s@.subrange(0, i as int),
        decreases n - i,
    {
        r.push(s.get_char(i));
        i += 1;
        assert(r@ =~= s@.subrange(0, i as int));
    }
    assert(r@ =~= s@);
    r
}

/// A string holding the characters `v[from..to]`.
pub fn string_of(v: &Vec<char>, from: usize, to: usize) -> (r: String)
    requires
        from <= to <= v.len(),
    ensures
        r@ == v@.subrange(from as int, to as int),
{
    let mut r = String::new();
    let mut i: usize = from;
    while i < to
        invariant
            from <= i <= to <= v.len(),
            r@ == v@.subrange(from as int, i as int),
        decreases to - i,
    {
        push_char(&mut r, v[i]);
        i += 1;
        assert(r@ =~= v@.subrange(from as int, i as int));
    }
    r
}

/// Whether `p` occurs in `s` at offset `at`.
fn occurs_at(s: &Vec<char>, p: &Vec<char>, at: usize) -> (r: bool)
    requires
        at + p.len() <= s.len(),
    ensures
        r == (s@.subrange(at as int, at + p.len()) == p@),
{
    let mut j: usize = 0;
    while j < p.len()
        invariant
            at + p.len() <= s.len(),
            j <= p.len(),
            forall|k: int| 0 <= k < j ==> s@[at + k] == p@[k],
        decreases p.len() - j,
    {
        if s[at + j] != p[j] {
            assert(s@.subrange(at as int, at + p.len())[j as int] != p@[j as int]);
            return false;
        }
        j += 1;
    }
    assert(s@.subrange(at as int, at + p.len()) =~= p@);
    true
}

/// Whether `v` and `lit` hold the same characters.
pub fn chars_equal(v: &Vec<char>, lit: &Vec<char>) -> (r: bool)
    ensures
        r == (v@ == lit@),
{
    if v.len() != lit.len() {
        return false;
    }
    let mut i: usize = 0;
    while i < v.len()
        invariant
            v.len() == lit.len(),
            i <= v.len(),
            forall|k: int| 0 <= k < i ==> v@[k] == lit@[k],
        decreases v.len() - i,
    {
        if v[i] != lit[i] {
            return false;
        }
        i += 1;
    }
    assert(v@ =~= lit@);
    true
}

/// Offset of the first occurrence of `p` in `s` at or after `start`, or `s.len()`.
pub fn find_from(s: &Vec<char>, p: &Vec<char>, start: usize) -> (r: usize)
    requires
        start <= s.len(),
    ensures
        r == start + find(s@.subrange(start as int, s.len() as int), p@),
{
    let ghost whole = s@.subrange(start as int, s.len() as int);
    let mut i: usize = start;
    while i < s.len()
        invariant
            start <= i <= s.len(),
            whole == s@.subrange(start as int, s.len() as int),
            find(whole, p@) == (i - start) + find(s@.subrange(i as int, s.len() as int), p@),
        decreases s.len() - i,
    {
        let ghost rest = s@.subrange(i as int, s.len() as int);
        if s.len() - i < p.len() {
            return s.len();
        }
        if occurs_at(s, p, i) {
            assert(rest.subrange(0, p.len() as int) =~= s@.subrange(i as int, i + p.len()));
            return i;
        }
        assert(rest.subrange(0, p.len() as int) =~= s@.subrange(i as int, i + p.len()));
        assert(rest.drop_first() =~= s@.subrange(i + 1, s.len() as int));
        i += 1;
    }
    let ghost rest = s@.subrange(i as int, s.len() as int);
    assert(rest.len() == 0);
    if p.len() == 0 {
        assert(rest.subrange(0, 0) =~= p@);
    }
    i
}

/// The pieces of `s` between the occurrences of `p`, as `str::split` gives them.
pub fn split_chars(s: &Vec<char>, p: &Vec<char>) -> (r: Vec<Vec<char>>)
    requires
        p.len() > 0,
    ensures
        r@.map_values(|v: Vec<char>| v@) == split(s@, p@),
{
    let mut out: Vec<Vec<char>> = Vec::new();
    let mut start: usize = 0;
    let mut done = false;
    assert(s@.subrange(0, s.len() as int) =~= s@);
    while !done
        invariant
            start <= s.len(),
            p.len() > 0,
            !done ==> out@.map_values(|v: Vec<char>| v@) + split(
                s@.subrange(start as int, s.len() as int),
                p@,
            ) == split(s@, p@),
            done ==> out@.map_values(|v: Vec<char>| v@) == split(s@, p@),
        decreases s.len() + 1 - start - (if done { 1int } else { 0int }),
    {
        let ghost rest = s@.subrange(start as int, s.len() as int);
        let ghost before = out@.map_values(|v: Vec<char>| v@);
        let e = find_from(s, p, start);
        proof {
            lemma_find_bound(rest, p@);
        }
        let mut piece: Vec<char> = Vec::new();
        let mut i: usize = start;
        while i < e
            invariant
                start <= i <= e <= s.len(),
                piece@ == s@.subrange(start as int, i as int),
            decreases e - i,
        {
            piece.push(s[i]);
            i += 1;
            assert(piece@ =~= s@.subrange(start as int, i as int));
        }
        out.push(piece);
        proof {
            assert(out@.map_values(|v: Vec<char>| v@) =~= before.push(
                s@.subrange(start as int, e as int),
            ));
            assert(rest.subrange(0, (e - start) as int) =~= s@.subrange(start as int, e as int));
        }
        if e < s.len() {
            proof {
                assert(rest.subrange((e - start) + p.len(), rest.len() as int) =~= s@.subrange(
                    e + p.len(),
                    s.len() as int,
                ));
                assert(before + split(rest, p@) =~= before.push(
                    s@.subrange(start as int, e as int),
                ) + split(s@.subrange(e + p.len(), s.len() as int), p@));
            }
            start = e + p.len();
        } else {
            proof {
                assert(rest =~= s@.subrange(start as int, e as int));
                assert(before + split(rest, p@) =~= before.push(rest));
            }
            done = true;
        }
    }
    out
}

/// Appends the decimal digits of `n` to `s`.
pub fn push_decimal(s: &mut String, n: u64)
    ensures
        final(s)@ == old(s)@ + decimal(n as nat),
    decreases n,
{
    if n >= 10 {
        push_decimal(s, n / 10);
    }
    let d = n % 10;
    let c = if d == 0 { '0' } else if d == 1 { '1' } else if d == 2 { '2' } else if d == 3 { '3' }
    else if d == 4 { '4' } else if d == 5 { '5' } else if d == 6 { '6' } else if d == 7 { '7' }
    else if d == 8 { '8' } else { '9' };
    push_char(s, c);
    proof {
        if n >= 10 {
            assert(old(s)@ + decimal(n as nat) =~= old(s)@ + decimal((n / 10) as nat) + seq![c]);
        } else {
            assert(old(s)@ + decimal(n as nat) =~= old(s)@ + seq![c]);
        }
    }
}

/// Parses an unsigned decimal integer as `str::parse::<usize>` reads it, giving `None`
/// where it is malformed or exceeds `limit`.
pub fn parse_bounded(s: &Vec<char>, limit: u64) -> (r: Option<u64>)
    requires
        limit < 0x1000_0000_0000_0000,
    ensures
        match r {
            Some(n) => unsigned_value(s@) == Some(n as nat) && n <= limit,
            None => unsigned_value(s@) is None || unsigned_value(s@)->Some_0 > limit,
        },
{
    let start: usize = if s.len() > 0 && s[0] == '+' { 1 } else { 0 };
    let ghost d = if s@.len() > 0 && s@[0] == '+' { s@.drop_first() } else { s@ };
    assert(d =~= s@.subrange(start as int, s.len() as int));
    if start >= s.len() {
        assert(d.len() == 0);
        return None;
    }
    let mut acc: u64 = 0;
    let mut i: usize = start;
    while i < s.len()
        invariant
            start <= i <= s.len(),
            d == s@.subrange(start as int, s.len() as int),
            d == (if s@.len() > 0 && s@[0] == '+' { s@.drop_first() } else { s@ }),
            limit < 0x1000_0000_0000_0000,
            all_digits(s@.subrange(start as int, i as int)),
            acc as nat == if digits_value(s@.subrange(start as int, i as int)) > limit {
                limit as nat + 1
            } else {
                digits_value(s@.subrange(start as int, i as int))
            },
        decreases s.len() - i,
    {
        let c = s[i];
        if !('0' <= c && c <= '9') {
            assert(d[i - start] == c);
            assert(!is_digit(d[i - start]));
            assert(!all_digits(d));
            return None;
        }
        let ghost prev = s@.subrange(start as int, i as int);
        let ghost next = s@.subrange(start as int, i + 1);
        assert(next.drop_last() =~= prev);
        assert(all_digits(next)) by {
            assert forall|k: int| 0 <= k < next.len() implies is_digit(#[trigger] next[k]) by {
                if k < prev.len() {
                    assert(next[k] == prev[k]);
                }
            }
        }
        let dv = (c as u32 - '0' as u32) as u64;
        if acc > limit {
            proof {
                let v = digits_value(prev);
                assert(v * 10 + dv >= v) by (nonlinear_arith)
                    requires v >= 0, dv >= 0;
            }
            acc = limit + 1;
        } else {
            let t = acc * 10 + dv;
            acc = if t > limit { limit + 1 } else { t };
        }
        i += 1;
    }
    assert(s@.subrange(start as int, s.len() as int) == d);
    if acc > limit {
        None
    } else {
        Some(acc)
    }
}

} // verus!
