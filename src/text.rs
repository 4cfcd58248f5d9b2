use vstd::prelude::*;

verus! {

/// The characters that `char::is_whitespace` accepts: those with the Unicode
/// `White_Space` property.
pub open spec fn is_ws(c: char) -> bool {
    ('\u{9}' <= c && c <= '\u{d}') || c == ' ' || c == '\u{85}' || c == '\u{a0}'
        || c == '\u{1680}' || ('\u{2000}' <= c && c <= '\u{200a}') || c == '\u{2028}'
        || c == '\u{2029}' || c == '\u{202f}' || c == '\u{205f}' || c == '\u{3000}'
}

/// `s` with its leading whitespace removed.
pub open spec fn trim_start(s: Seq<char>) -> Seq<char>
    decreases s.len(),
{
    if s.len() > 0 && is_ws(s[0]) {
        trim_start(s.drop_first())
    } else {
        s
    }
}

/// `s` with its trailing whitespace removed.
pub open spec fn trim_end(s: Seq<char>) -> Seq<char>
    decreases s.len(),
{
    if s.len() > 0 && is_ws(s.last()) {
        trim_end(s.drop_last())
    } else {
        s
    }
}

/// `s` with whitespace removed at both ends, as `str::trim` does.
pub open spec fn trim(s: Seq<char>) -> Seq<char> {
    trim_end(trim_start(s))
}

/// `s` holds the character `c`.
pub open spec fn has_char(s: Seq<char>, c: char) -> bool {
    exists|i: int| 0 <= i < s.len() && s[i] == c
}

/// Index of the first `c` in `s`, or the length of `s` when there is none.
pub open spec fn first_index(s: Seq<char>, c: char) -> nat
    decreases s.len(),
{
    if s.len() == 0 {
        0
    } else if s[0] == c {
        0
    } else {
        1 + first_index(s.drop_first(), c)
    }
}

/// Index of the last `c` in `s`, or -1 when there is none.
pub open spec fn last_index(s: Seq<char>, c: char) -> int
    decreases s.len(),
{
    if s.len() == 0 {
        -1
    } else if s.last() == c {
        s.len() - 1
    } else {
        last_index(s.drop_last(), c)
    }
}

pub proof fn lemma_first_index(s: Seq<char>, c: char)
    ensures
        first_index(s, c) <= s.len(),
        first_index(s, c) < s.len() ==> s[first_index(s, c) as int] == c,
        forall|i: int| 0 <= i < first_index(s, c) ==> s[i] != c,
    decreases s.len(),
{
    if s.len() > 0 && s[0] != c {
        lemma_first_index(s.drop_first(), c);
        assert forall|i: int| 0 <= i < first_index(s, c) implies s[i] != c by {
            if i > 0 {
                assert(s[i] == s.drop_first()[i - 1]);
            }
        }
    }
}

pub proof fn lemma_first_index_absent(s: Seq<char>, c: char)
    requires
        !has_char(s, c),
    ensures
        first_index(s, c) == s.len(),
    decreases s.len(),
{
    if s.len() > 0 {
        assert(s[0] != c);
        assert forall|i: int| 0 <= i < s.drop_first().len() implies s.drop_first()[i] != c by {
            assert(s.drop_first()[i] == s[i + 1]);
        }
        lemma_first_index_absent(s.drop_first(), c);
    }
}

pub proof fn lemma_first_index_append(a: Seq<char>, b: Seq<char>, c: char)
    requires
        !has_char(a, c),
    ensures
        first_index(a + b, c) == a.len() + first_index(b, c),
    decreases a.len(),
{
    if a.len() > 0 {
        assert(a[0] != c);
        assert((a + b)[0] == a[0]);
        assert((a + b).drop_first() =~= a.drop_first() + b);
        assert forall|i: int| 0 <= i < a.drop_first().len() implies a.drop_first()[i] != c by {
            assert(a.drop_first()[i] == a[i + 1]);
        }
        lemma_first_index_append(a.drop_first(), b, c);
    } else {
        assert(a + b =~= b);
    }
}

pub proof fn lemma_last_index(s: Seq<char>, c: char)
    ensures
        -1 <= last_index(s, c) < s.len(),
        last_index(s, c) >= 0 ==> s[last_index(s, c)] == c,
        forall|i: int| last_index(s, c) < i < s.len() ==> s[i] != c,
    decreases s.len(),
{
    if s.len() > 0 && s.last() != c {
        lemma_last_index(s.drop_last(), c);
        assert forall|i: int| last_index(s, c) < i < s.len() implies s[i] != c by {
            if i < s.len() - 1 {
                assert(s[i] == s.drop_last()[i]);
            }
        }
    }
}

pub proof fn lemma_last_index_append(a: Seq<char>, b: Seq<char>, c: char)
    requires
        !has_char(b, c),
    ensures
        last_index(a + b, c) == last_index(a, c),
    decreases b.len(),
{
    if b.len() > 0 {
        assert((a + b).last() == b.last());
        assert((a + b).drop_last() =~= a + b.drop_last());
        assert forall|i: int| 0 <= i < b.drop_last().len() implies b.drop_last()[i] != c by {
            assert(b.drop_last()[i] == b[i]);
        }
        lemma_last_index_append(a, b.drop_last(), c);
    } else {
        assert(a + b =~= a);
    }
}

/// Whether `c` is a whitespace character, as `char::is_whitespace` says.
pub fn is_whitespace(c: char) -> (r: bool)
    ensures
        r == is_ws(c),
{
    ('\u{9}' <= c && c <= '\u{d}') || c == ' ' || c == '\u{85}' || c == '\u{a0}'
        || c == '\u{1680}' || ('\u{2000}' <= c && c <= '\u{200a}') || c == '\u{2028}'
        || c == '\u{2029}' || c == '\u{202f}' || c == '\u{205f}' || c == '\u{3000}'
}

/// The characters of `s`, in order.
pub fn chars_of(s: &str) -> (r: Vec<char>)
    ensures
        r@ == s@,
{
    let n = s.unicode_len();
    let mut v: Vec<char> = Vec::new();
    let mut i: usize = 0;
    while i < n
        invariant
            n == s@.len(),
            i <= n,
            v@ == s@.take(i as int),
        decreases n - i,
    {
        let c = s.get_char(i);
        v.push(c);
        proof {
            assert(s@.take(i as int).push(c) =~= s@.take(i + 1));
        }
        i = i + 1;
    }
    proof {
        assert(s@.take(n as int) =~= s@);
    }
    v
}

/// Relies on `String::push`: it appends one character to the string.
#[verifier::external_body]
pub(crate) fn push_char(s: &mut String, c: char)
    ensures
        final(s)@ == old(s)@.push(c),
{
    s.push(c)
}

/// Appends the characters of `v` to `s`.
pub(crate) fn push_all(s: &mut String, v: &Vec<char>)
    ensures
        final(s)@ == old(s)@ + v@,
{
    let ghost t = v@;
    let mut i: usize = 0;
    while i < v.len()
        invariant
            v@ == t,
            i <= v@.len(),
            s@ == old(s)@ + t.take(i as int),
        decreases v@.len() - i,
    {
        push_char(s, v[i]);
        proof {
            assert(old(s)@ + t.take(i as int) + seq![t[i as int]] =~= old(s)@ + t.take(i + 1));
        }
        i = i + 1;
    }
    proof {
        assert(t.take(i as int) =~= t);
    }
}

/// Appends the characters of `t` to `s`.
pub(crate) fn push_str(s: &mut String, t: &str)
    ensures
        final(s)@ == old(s)@ + t@,
{
    let v = chars_of(t);
    push_all(s, &v);
}

/// The characters `v[lo..hi]` as a string.
pub fn string_of(v: &Vec<char>, lo: usize, hi: usize) -> (r: String)
    requires
        lo <= hi <= v@.len(),
    ensures
        r@ == v@.subrange(lo as int, hi as int),
{
    let mut s = String::new();
    let mut i: usize = lo;
    while i < hi
        invariant
            lo <= i <= hi <= v@.len(),
            s@ == v@.subrange(lo as int, i as int),
        decreases hi - i,
    {
        push_char(&mut s, v[i]);
        proof {
            assert(v@.subrange(lo as int, i as int).push(v@[i as int]) =~= v@.subrange(
                lo as int,
                i + 1,
            ));
        }
        i = i + 1;
    }
    s
}

/// The bounds of `v[lo..hi]` once whitespace is trimmed at both ends.
pub fn trim_range(v: &Vec<char>, lo: usize, hi: usize) -> (r: (usize, usize))
    requires
        lo <= hi <= v@.len(),
    ensures
        lo <= r.0 <= r.1 <= hi,
        v@.subrange(r.0 as int, r.1 as int) == trim(v@.subrange(lo as int, hi as int)),
{
    let mut a: usize = lo;
    while a < hi && is_whitespace(v[a])
        invariant
            lo <= a <= hi <= v@.len(),
            trim_start(v@.subrange(a as int, hi as int)) == trim_start(
                v@.subrange(lo as int, hi as int),
            ),
        decreases hi - a,
    {
        proof {
            assert(v@.subrange(a as int, hi as int).drop_first() =~= v@.subrange(a + 1, hi as int));
        }
        a = a + 1;
    }
    assert(trim_start(v@.subrange(a as int, hi as int)) == v@.subrange(a as int, hi as int));
    let mut b: usize = hi;
    while b > a && is_whitespace(v[b - 1])
        invariant
            lo <= a <= b <= hi <= v@.len(),
            trim_end(v@.subrange(a as int, b as int)) == trim(v@.subrange(lo as int, hi as int)),
        decreases b - a,
    {
        proof {
            assert(v@.subrange(a as int, b as int).drop_last() =~= v@.subrange(a as int, b - 1));
        }
        b = b - 1;
    }
    (a, b)
}

/// `v[lo..hi]` holds the same characters as `t`.
pub fn range_eq(v: &Vec<char>, lo: usize, hi: usize, t: &Vec<char>) -> (r: bool)
    requires
        lo <= hi <= v@.len(),
    ensures
        r == (v@.subrange(lo as int, hi as int) == t@),
{
    let n = t.len();
    if hi - lo != n {
        return false;
    }
    let mut i: usize = 0;
    while i < n
        invariant
            n == t@.len(),
            hi - lo == n,
            lo <= hi <= v@.len(),
            i <= n,
            forall|j: int| 0 <= j < i ==> v@[lo + j] == t@[j],
        decreases n - i,
    {
        if v[lo + i] != t[i] {
            assert(v@.subrange(lo as int, hi as int)[i as int] != t@[i as int]);
            return false;
        }
        i = i + 1;
    }
    assert(v@.subrange(lo as int, hi as int) =~= t@);
    true
}

} // verus!
