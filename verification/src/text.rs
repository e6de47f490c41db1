//! Small verified string helpers shared by the state machine and renderer.

use vstd::prelude::*;
use vstd::string::StrSliceExecFns;

verus! {

/// Character-wise equality of two string slices.
pub fn str_eq(a: &str, b: &str) -> (r: bool)
    ensures
        r == (a@ == b@),
{
    let x = a.to_owned();
    let y = b.to_owned();
    x == y
}

/// `s` with every character beyond the first `n` dropped.
pub open spec fn take_chars(s: Seq<char>, n: nat) -> Seq<char> {
    if s.len() <= n {
        s
    } else {
        s.subrange(0, n as int)
    }
}

/// The first `n` characters of `s`, as a new string.
pub fn truncate_chars(s: &str, n: usize) -> (r: String)
    ensures
        r@ == take_chars(s@, n as nat),
{
    let len = s.unicode_len();
    let k = if len <= n { len } else { n };
    let out = s.substring_char(0, k).to_owned();
    proof {
        if len <= n {
            assert(s@.subrange(0, k as int) =~= s@);
        }
    }
    out
}

/// The contents of an optional string, or the empty sequence.
pub open spec fn or_empty(o: Option<Seq<char>>) -> Seq<char> {
    match o {
        Some(s) => s,
        None => Seq::empty(),
    }
}

/// The contents of an optional string when it is non-empty, else `d`.
pub open spec fn nonempty_or(o: Option<Seq<char>>, d: Seq<char>) -> Seq<char> {
    match o {
        Some(s) => if s.len() > 0 {
            s
        } else {
            d
        },
        None => d,
    }
}

} // verus!

verus! {

/// The characters of `s`, in order.
pub fn chars_of(s: &str) -> (r: Vec<char>)
    ensures
        r@ == s@,
{
    let mut v: Vec<char> = Vec::new();
    for c in it: s.chars()
        invariant
            v@ == it.seq().take(it.index() as int),
    {
        v.push(c);
    }
    v
}

} // verus!

verus! {

/// Whether `k` occurs in `h` as a contiguous run.
pub open spec fn contains_sub(h: Seq<char>, k: Seq<char>) -> bool {
    exists|i: int| 0 <= i && i + k.len() <= h.len() && #[trigger] h.subrange(i, i + k.len()) == k
}

/// Whether `k` matches `h` at position `i`.
fn matches_at(h: &Vec<char>, k: &Vec<char>, i: usize) -> (r: bool)
    requires
        i + k@.len() <= h@.len(),
    ensures
        r == (h@.subrange(i as int, i + k@.len()) == k@),
{
    let hl = h.len();
    let mut j: usize = 0;
    while j < k.len()
        invariant
            hl == h@.len(),
            i + k@.len() <= h@.len(),
            j <= k@.len(),
            forall|m: int| 0 <= m < j ==> h@[i + m] == k@[m],
        decreases k@.len() - j,
    {
        if h[i + j] != k[j] {
            proof {
                assert(h@.subrange(i as int, i + k@.len())[j as int] != k@[j as int]);
            }
            return false;
        }
        j = j + 1;
    }
    proof {
        assert(h@.subrange(i as int, i + k@.len()) =~= k@);
    }
    true
}

/// Substring search over character sequences.
pub fn seq_contains(h: &Vec<char>, k: &Vec<char>) -> (r: bool)
    ensures
        r == contains_sub(h@, k@),
{
    if k.len() > h.len() {
        return false;
    }
    let last = h.len() - k.len();
    let mut i: usize = 0;
    while i <= last
        invariant
            last + k@.len() == h@.len(),
            i <= last + 1,
            forall|m: int| 0 <= m < i ==> #[trigger] h@.subrange(m, m + k@.len()) != k@,
        decreases last + 1 - i,
    {
        if matches_at(h, k, i) {
            return true;
        }
        if i == last {
            proof {
                assert forall|m: int| 0 <= m && m + k@.len() <= h@.len() implies #[trigger] h@.subrange(m, m + k@.len()) != k@ by {
                    assert(m <= i);
                }
            }
            return false;
        }
        i = i + 1;
    }
    false
}

} // verus!

verus! {

/// `a` comes no later than `b` in code-point order, a prefix first.
pub open spec fn lex_le(a: Seq<char>, b: Seq<char>) -> bool
    decreases a.len(),
{
    if a.len() == 0 {
        true
    } else if b.len() == 0 {
        false
    } else if (a[0] as u32) < (b[0] as u32) {
        true
    } else if (a[0] as u32) == (b[0] as u32) {
        lex_le(a.drop_first(), b.drop_first())
    } else {
        false
    }
}

/// Any two sequences are ordered one way or the other.
pub proof fn lemma_lex_total(a: Seq<char>, b: Seq<char>)
    ensures
        lex_le(a, b) || lex_le(b, a),
    decreases a.len(),
{
    if a.len() > 0 && b.len() > 0 && (a[0] as u32) == (b[0] as u32) {
        lemma_lex_total(a.drop_first(), b.drop_first());
    }
}

/// The order is transitive.
pub proof fn lemma_lex_trans(a: Seq<char>, b: Seq<char>, c: Seq<char>)
    requires
        lex_le(a, b),
        lex_le(b, c),
    ensures
        lex_le(a, c),
    decreases a.len(),
{
    if a.len() > 0 && b.len() > 0 && c.len() > 0 && (a[0] as u32) == (b[0] as u32) && (b[0] as u32) == (c[0] as u32) {
        lemma_lex_trans(a.drop_first(), b.drop_first(), c.drop_first());
    }
}

/// Whether `a` comes no later than `b` in code-point order.
pub fn str_le(a: &str, b: &str) -> (r: bool)
    ensures
        r == lex_le(a@, b@),
{
    let x = chars_of(a);
    let y = chars_of(b);
    let mut i: usize = 0;
    assert(x@.skip(0) =~= x@ && y@.skip(0) =~= y@);
    while i < x.len() && i < y.len()
        invariant
            x@ == a@,
            y@ == b@,
            i <= x@.len(),
            i <= y@.len(),
            lex_le(x@, y@) == lex_le(x@.skip(i as int), y@.skip(i as int)),
        decreases x@.len() - i,
    {
        proof {
            assert(x@.skip(i as int)[0] == x@[i as int]);
            assert(y@.skip(i as int)[0] == y@[i as int]);
            assert(x@.skip(i as int).drop_first() =~= x@.skip(i + 1));
            assert(y@.skip(i as int).drop_first() =~= y@.skip(i + 1));
        }
        let cx: u32 = x[i] as u32;
        let cy: u32 = y[i] as u32;
        if cx < cy {
            return true;
        }
        if cx != cy {
            return false;
        }
        i = i + 1;
    }
    proof {
        if i == x@.len() {
            assert(x@.skip(i as int).len() == 0);
        } else {
            assert(y@.skip(i as int).len() == 0);
        }
    }
    i == x.len()
}

} // verus!

verus! {

/// `String::from_iter` over characters: the string made of them, in order.
#[verifier::external_body]
pub(crate) fn string_from_chars(v: Vec<char>) -> (r: String)
    ensures
        r@ == v@,
{
    String::from_iter(v)
}

/// The decimal digit `d` (for `0 <= d < 10`).
pub open spec fn digit_char(d: int) -> char {
    seq!['0', '1', '2', '3', '4', '5', '6', '7', '8', '9'][d]
}

/// The decimal writing of `n`, without leading zeros.
pub open spec fn decimal(n: nat) -> Seq<char>
    decreases n,
{
    if n < 10 {
        seq![digit_char(n as int)]
    } else {
        decimal(n / 10).push(digit_char((n % 10) as int))
    }
}

/// Appends the decimal writing of `n`.
pub fn push_decimal(v: &mut Vec<char>, n: u64)
    ensures
        final(v)@ == old(v)@ + decimal(n as nat),
    decreases n,
{
    let digits: [char; 10] = ['0', '1', '2', '3', '4', '5', '6', '7', '8', '9'];
    if n < 10 {
        v.push(digits[n as usize]);
        assert(v@ =~= old(v)@ + decimal(n as nat));
    } else {
        push_decimal(v, n / 10);
        v.push(digits[(n % 10) as usize]);
        assert(v@ =~= old(v)@ + decimal(n as nat));
    }
}

/// Appends the characters of a literal.
pub fn push_text(v: &mut Vec<char>, s: &str)
    ensures
        final(v)@ == old(v)@ + s@,
{
    let cs = chars_of(s);
    let mut i: usize = 0;
    while i < cs.len()
        invariant
            cs@ == s@,
            i <= cs@.len(),
            v@ == old(v)@ + cs@.take(i as int),
        decreases cs@.len() - i,
    {
        v.push(cs[i]);
        assert(cs@.take(i + 1) =~= cs@.take(i as int).push(cs@[i as int]));
        i = i + 1;
    }
    assert(cs@.take(i as int) =~= cs@);
}

} // verus!
